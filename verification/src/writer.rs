//! The byte sink of the codec: bytes pass straight through, hex digits pair
//! up into bytes, high digit first.

use vstd::prelude::*;

verus! {

/// The byte made of two hex digits, high digit first.
pub open spec fn pack(hi: u8, lo: u8) -> u8 {
    hi << 4 | lo
}

/// For hex digits proper the packed byte is `16 * hi + lo`.
pub proof fn lemma_pack_digits(hi: u8, lo: u8)
    requires
        hi < 16,
        lo < 16,
    ensures
        pack(hi, lo) == 16 * hi + lo,
{
    assert(hi < 16 && lo < 16 ==> (hi << 4 | lo) == 16 * hi + lo) by (bit_vector);
}

/// What writing one expression came to: a run of bytes, or a single hex
/// digit still waiting for its partner.
#[derive(Debug)]
pub enum StringPart {
    Hex(u8),
    Str(Vec<u8>),
}

/// The model of a [`StringPart`].
pub ghost enum PartV {
    Hex(u8),
    Str(Seq<u8>),
}

impl View for StringPart {
    type V = PartV;

    open spec fn view(&self) -> PartV {
        match self {
            StringPart::Hex(h) => PartV::Hex(*h),
            StringPart::Str(s) => PartV::Str(s@),
        }
    }
}

/// The models of a sequence of parts, one by one.
pub open spec fn parts_view(ps: Seq<StringPart>) -> Seq<PartV> {
    Seq::new(ps.len(), |i: int| ps[i]@)
}

/// The model of a [`StringWriter`]: the bytes written so far, and the hex
/// digit that waits, if one does.
pub ghost struct WriterV {
    pub out: Seq<u8>,
    pub hex: Option<u8>,
}

impl WriterV {
    /// A writer that has written nothing.
    pub open spec fn empty() -> WriterV {
        WriterV { out: Seq::empty(), hex: None }
    }

    /// A hex digit waits where none does; else it completes the waiting one
    /// to a byte.
    pub open spec fn write_hex(self, h: u8) -> WriterV {
        match self.hex {
            None => WriterV { out: self.out, hex: Some(h) },
            Some(hi) => WriterV { out: self.out.push(pack(hi, h)), hex: None },
        }
    }

    /// Bytes are appended; a waiting hex digit goes on waiting.
    pub open spec fn write_str(self, buf: Seq<u8>) -> WriterV {
        WriterV { out: self.out + buf, hex: self.hex }
    }

    /// A part is written as what it is.
    pub open spec fn write_part(self, p: PartV) -> WriterV {
        match p {
            PartV::Hex(h) => self.write_hex(h),
            PartV::Str(s) => self.write_str(s),
        }
    }

    /// What a writer came to: the waiting hex digit if there is one, else
    /// the bytes.
    pub open spec fn into_part(self) -> PartV {
        match self.hex {
            None => PartV::Str(self.out),
            Some(h) => PartV::Hex(h),
        }
    }
}

/// A byte buffer with at most one waiting hex digit.
#[derive(Debug)]
pub struct StringWriter {
    pub w: Vec<u8>,
    pub hex: Option<u8>,
}

impl View for StringWriter {
    type V = WriterV;

    open spec fn view(&self) -> WriterV {
        WriterV { out: self.w@, hex: self.hex }
    }
}

impl Default for StringWriter {
    fn default() -> (r: StringWriter)
        ensures
            r@ == WriterV::empty(),
    {
        StringWriter { w: Vec::new(), hex: None }
    }
}

impl StringWriter {
    /// Writes one hex digit.
    pub fn write_hex(&mut self, h: u8)
        ensures
            final(self)@ == old(self)@.write_hex(h),
    {
        match self.hex {
            None => {
                self.hex = Some(h);
            },
            Some(hi) => {
                self.hex = None;
                self.w.push(hi << 4 | h);
            },
        }
    }

    /// Writes a run of bytes.
    pub fn write_str(&mut self, buf: &[u8])
        ensures
            final(self)@ == old(self)@.write_str(buf@),
    {
        self.w.extend_from_slice(buf);
        assert(self.w@ =~= old(self).w@ + buf@);
    }

    /// Writes what an earlier writer came to.
    pub fn write_part(&mut self, s: &StringPart)
        ensures
            final(self)@ == old(self)@.write_part(s@),
    {
        match s {
            StringPart::Hex(h) => self.write_hex(*h),
            StringPart::Str(s) => self.write_str(s.as_slice()),
        }
    }
}

impl From<StringWriter> for StringPart {
    fn from(s: StringWriter) -> (r: StringPart) {
        match s.hex {
            None => StringPart::Str(s.w),
            Some(h) => StringPart::Hex(h),
        }
    }
}

impl vstd::std_specs::convert::FromSpecImpl<StringWriter> for StringPart {
    open spec fn obeys_from_spec() -> bool {
        true
    }

    open spec fn from_spec(s: StringWriter) -> StringPart {
        match s.hex {
            None => StringPart::Str(s.w),
            Some(h) => StringPart::Hex(h),
        }
    }
}

/// Converting a writer keeps its model's part.
pub proof fn lemma_from_writer(s: StringWriter)
    ensures
        <StringPart as vstd::std_specs::convert::FromSpec<StringWriter>>::from_spec(s)@
            == s@.into_part(),
{
}

/// `std::io::Error`, the error of a sink that refused a write.  Nothing is
/// claimed of it: it is carried along and never looked into.
#[verifier::external_type_specification]
#[verifier::external_body]
pub struct ExIoError(std::io::Error);

/// Why output failed.
#[derive(Debug)]
pub enum OutputError {
    /// The sink refused a write.
    IOError(std::io::Error),
    /// The expression cannot be written; the text says why.
    String(String),
}

impl OutputError {
    /// The logical error with the given text.
    pub fn msg(text: &str) -> (r: OutputError)
        ensures
            r.is_msg(text@),
    {
        OutputError::String(String::from_str(text))
    }

    /// Whether this is the logical error with the given text.
    pub open spec fn is_msg(&self, msg: Seq<char>) -> bool {
        match self {
            OutputError::String(s) => s@ == msg,
            OutputError::IOError(_) => false,
        }
    }
}

impl From<std::io::Error> for OutputError {
    fn from(e: std::io::Error) -> (r: OutputError) {
        OutputError::IOError(e)
    }
}

impl vstd::std_specs::convert::FromSpecImpl<std::io::Error> for OutputError {
    open spec fn obeys_from_spec() -> bool {
        true
    }

    open spec fn from_spec(e: std::io::Error) -> OutputError {
        OutputError::IOError(e)
    }
}

} // verus!
