use string_output::writer::{StringPart, StringWriter};

#[test]
fn two_hex_digits_make_one_byte() {
    let mut w = StringWriter::default();
    w.write_hex(0x4);
    w.write_hex(0x2);
    assert_eq!(w.w, vec![0x42u8]);
    assert_eq!(w.hex, None);
}

#[test]
fn a_waiting_digit_survives_bytes() {
    let mut w = StringWriter::default();
    w.write_hex(0xa);
    w.write_str(&[1, 2, 3]);
    assert_eq!(w.hex, Some(0xa));
    w.write_hex(0xb);
    assert_eq!(w.w, vec![1u8, 2, 3, 0xab]);
    assert_eq!(w.hex, None);
}

#[test]
fn a_part_is_replayed_by_the_writer_rules() {
    let mut w = StringWriter::default();
    w.write_part(&StringPart::Hex(1));
    w.write_part(&StringPart::Str(vec![9]));
    w.write_part(&StringPart::Hex(2));
    assert_eq!(w.w, vec![9u8, 0x12]);
}
