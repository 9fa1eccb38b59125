use string_output::{SortID, StringSeg, StringSegBuilder, TermID};

fn show(segs: &[StringSeg]) -> String {
    let mut out = String::new();
    for s in segs {
        match s {
            StringSeg::Str(b) => out.push_str(&format!("str{:?}", b)),
            StringSeg::Var(s, i) => out.push_str(&format!("var({},{})", s.0, i)),
            StringSeg::Hex(h) => out.push_str(&format!("hex({})", h)),
            StringSeg::Term(t, args) => {
                let args: Vec<String> = args.iter().map(|a| show(a)).collect();
                out.push_str(&format!("term({};{})", t.0, args.join(";")));
            }
        }
        out.push(' ');
    }
    out.trim_end().to_string()
}

#[test]
fn an_empty_builder_finishes_to_nothing() {
    assert_eq!(show(&StringSegBuilder::default().finish()), "");
}

#[test]
fn bytes_are_gathered_into_one_run() {
    let mut b = StringSegBuilder::default();
    b.push_str(&[1, 2]);
    b.push_str(&[]);
    b.push_str(&[3]);
    assert_eq!(show(&b.finish()), "str[1, 2, 3]");
}

#[test]
fn hex_digits_pair_up_high_digit_first() {
    let mut b = StringSegBuilder::default();
    b.push_hex(0x4);
    b.push_hex(0x2);
    b.push_hex(0xf);
    b.push_hex(0x0);
    b.push_hex(0x7);
    assert_eq!(show(&b.finish()), "str[66, 240] hex(7)");
}

#[test]
fn a_waiting_digit_follows_the_run_when_flushed() {
    let mut b = StringSegBuilder::default();
    b.push_hex(1);
    b.push_str(&[9]);
    b.push_seg(StringSeg::Var(SortID(2), 0));
    b.push_hex(2);
    assert_eq!(show(&b.finish()), "str[9] hex(1) var(2,0) hex(2)");
}

#[test]
fn literal_segments_are_merged_and_others_kept_in_order() {
    let mut b = StringSegBuilder::default();
    b.push_seg(StringSeg::Str(vec![1]));
    b.push_seg(StringSeg::Hex(2));
    b.push_seg(StringSeg::Str(vec![3]));
    b.push_seg(StringSeg::Hex(4));
    b.push_seg(StringSeg::Term(TermID(7), vec![vec![StringSeg::Hex(1)], vec![]]));
    b.push_seg(StringSeg::Var(SortID(0), 1));
    b.push_seg(StringSeg::Str(vec![5]));
    assert_eq!(show(&b.finish()), "str[1, 3, 36] term(7;hex(1);) var(0,1) str[5]");
}

#[test]
fn a_spliced_sequence_is_pushed_segment_by_segment() {
    let mut b = StringSegBuilder::default();
    b.push_str(&[1]);
    b.push_hex(0xa);
    b.splice(&vec![
        StringSeg::Str(vec![2]),
        StringSeg::Hex(0xb),
        StringSeg::Var(SortID(1), 0),
        StringSeg::Str(vec![3]),
    ]);
    b.splice(&vec![]);
    b.push_str(&[4]);
    assert_eq!(show(&b.finish()), "str[1, 2, 171] var(1,0) str[3, 4]");
}

#[test]
fn make_finishes_what_the_closure_built() {
    let r: Result<Vec<StringSeg>, String> = StringSegBuilder::make(|mut b| {
        b.push_hex(1);
        b.push_hex(2);
        Ok(b)
    });
    assert_eq!(show(&r.unwrap()), "str[18]");
    let r: Result<Vec<StringSeg>, String> = StringSegBuilder::make(|_| Err("no".to_string()));
    assert_eq!(r.unwrap_err(), "no");
}

#[test]
fn a_copy_of_a_segment_is_the_same_segment() {
    let seg = StringSeg::Term(
        TermID(3),
        vec![vec![StringSeg::Str(vec![1, 2]), StringSeg::Var(SortID(1), 4)], vec![StringSeg::Hex(9)]],
    );
    let copy = seg.duplicate();
    assert_eq!(show(&[copy]), show(&[seg]));
    assert_eq!(
        show(&string_output::segment::duplicate_segs(&vec![StringSeg::Hex(1), StringSeg::Str(vec![])])),
        "hex(1) str[]"
    );
}
