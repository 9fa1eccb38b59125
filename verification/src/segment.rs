//! Canonical segment sequences: what an expression comes to when its
//! parameters are left open.  Literal bytes are merged into runs, hex digits
//! pair up into bytes, and everything else is kept in order.

use vstd::prelude::*;
use crate::environment::{SortID, TermID};
use crate::writer::pack;

verus! {

/// One segment of a canonical sequence.
#[derive(Debug)]
pub enum StringSeg {
    /// A run of literal bytes.
    Str(Vec<u8>),
    /// The bound parameter of the given sort at the given position.
    Var(SortID, u32),
    /// An application that is not understood, with the sequence of each of
    /// its arguments.
    Term(TermID, Vec<Vec<StringSeg>>),
    /// A lone hex digit.
    Hex(u8),
}

/// The model of a [`StringSeg`].
pub ghost enum SegV {
    Str(Seq<u8>),
    Var(SortID, u32),
    Term(TermID, Seq<Seq<SegV>>),
    Hex(u8),
}

/// The model of a segment, by recursion over the tree.
pub open spec fn seg_view(s: StringSeg) -> SegV
    decreases s,
{
    match s {
        StringSeg::Str(b) => SegV::Str(b@),
        StringSeg::Var(sort, i) => SegV::Var(sort, i),
        StringSeg::Hex(h) => SegV::Hex(h),
        StringSeg::Term(t, args) => SegV::Term(
            t,
            Seq::new(
                args@.len(),
                |i: int|
                    if 0 <= i < args@.len() {
                        Seq::new(
                            args@[i]@.len(),
                            |j: int|
                                if 0 <= j < args@[i]@.len() {
                                    seg_view(args@[i]@[j])
                                } else {
                                    SegV::Hex(0)
                                },
                        )
                    } else {
                        Seq::empty()
                    },
            ),
        ),
    }
}

impl View for StringSeg {
    type V = SegV;

    open spec fn view(&self) -> SegV {
        seg_view(*self)
    }
}

/// The models of a sequence of segments, one by one.
pub open spec fn segs_view(v: Seq<StringSeg>) -> Seq<SegV> {
    Seq::new(v.len(), |i: int| v[i]@)
}

/// The models of a sequence of segment sequences, one by one.
pub open spec fn seg_lists_view(v: Seq<Vec<StringSeg>>) -> Seq<Seq<SegV>> {
    Seq::new(v.len(), |i: int| segs_view(v[i]@))
}

/// The model of an opaque application is the application of the models.
pub proof fn lemma_view_term(t: TermID, args: Vec<Vec<StringSeg>>)
    ensures
        StringSeg::Term(t, args)@ == SegV::Term(t, seg_lists_view(args@)),
{
    let s = StringSeg::Term(t, args);
    assert(seg_view(s) is Term);
    let a = seg_view(s)->Term_1;
    let b = seg_lists_view(args@);
    assert(a.len() == b.len());
    assert forall|i: int| 0 <= i < a.len() implies a[i] == b[i] by {
        assert(a[i] =~= b[i]);
    }
    assert(a =~= b);
}

/// Whether no two neighbours in `segs` are both literal runs.
pub open spec fn no_adjacent_literals(segs: Seq<SegV>) -> bool {
    forall|i: int| 0 <= i < segs.len() - 1 ==> !(#[trigger] segs[i] is Str && segs[i + 1] is Str)
}

/// Whether a segment is in canonical form: a literal run is not empty, and
/// the argument sequences of an opaque application are canonical.
pub open spec fn seg_canonical(s: SegV) -> bool
    decreases s,
{
    match s {
        SegV::Str(b) => b.len() > 0,
        SegV::Term(_, args) => forall|i: int|
            0 <= i < args.len() ==> {
                &&& no_adjacent_literals(#[trigger] args[i])
                &&& forall|j: int| 0 <= j < args[i].len() ==> seg_canonical(#[trigger] args[i][j])
            },
        _ => true,
    }
}

/// Whether a sequence is in canonical form: no two literal runs are
/// neighbours, and every segment is canonical.
pub open spec fn canonical(segs: Seq<SegV>) -> bool {
    &&& no_adjacent_literals(segs)
    &&& forall|i: int| 0 <= i < segs.len() ==> seg_canonical(#[trigger] segs[i])
}

/// The model of a [`StringSegBuilder`]: the finished segments, the literal
/// run being gathered, and the hex digit that waits, if one does.
pub ghost struct BuilderV {
    pub built: Seq<SegV>,
    pub str: Seq<u8>,
    pub hex: Option<u8>,
}

impl BuilderV {
    /// A builder that holds nothing.
    pub open spec fn empty() -> BuilderV {
        BuilderV { built: Seq::empty(), str: Seq::empty(), hex: None }
    }

    /// The literal run, if it is not empty, and then the waiting hex digit,
    /// if there is one, become finished segments.
    pub open spec fn flush(self) -> BuilderV {
        let with_str = if self.str.len() > 0 {
            self.built.push(SegV::Str(self.str))
        } else {
            self.built
        };
        let with_hex = match self.hex {
            Some(h) => with_str.push(SegV::Hex(h)),
            None => with_str,
        };
        BuilderV { built: with_hex, str: Seq::empty(), hex: None }
    }

    /// A hex digit waits where none does; else it completes the waiting one
    /// to a byte of the literal run.
    pub open spec fn push_hex(self, h: u8) -> BuilderV {
        match self.hex {
            None => BuilderV { hex: Some(h), ..self },
            Some(hi) => BuilderV { str: self.str.push(pack(hi, h)), hex: None, ..self },
        }
    }

    /// Bytes join the literal run.
    pub open spec fn push_str(self, s: Seq<u8>) -> BuilderV {
        BuilderV { str: self.str + s, ..self }
    }

    /// A literal run or a hex digit is pushed as such; any other segment
    /// follows what has been flushed.
    pub open spec fn push_seg(self, seg: SegV) -> BuilderV {
        match seg {
            SegV::Str(s) => self.push_str(s),
            SegV::Hex(h) => self.push_hex(h),
            _ => BuilderV { built: self.flush().built.push(seg), ..self.flush() },
        }
    }

    /// The first `n` segments of `segs` are pushed in order.
    pub open spec fn push_segs(self, segs: Seq<SegV>, n: nat) -> BuilderV
        decreases n,
    {
        if n == 0 || n > segs.len() {
            self
        } else {
            self.push_segs(segs, (n - 1) as nat).push_seg(segs[n - 1])
        }
    }

    /// A whole sequence is spliced in, segment by segment.
    pub open spec fn splice(self, segs: Seq<SegV>) -> BuilderV {
        self.push_segs(segs, segs.len())
    }

    /// The finished sequence.
    pub open spec fn finish(self) -> Seq<SegV> {
        self.flush().built
    }

    /// The builder's invariant: the finished segments are canonical and do
    /// not end in a literal run, so that the run being gathered never lies
    /// next to another.
    pub open spec fn wf(self) -> bool {
        &&& canonical(self.built)
        &&& self.built.len() > 0 ==> !(self.built.last() is Str)
    }
}

/// Pushing a hex digit keeps the invariant.
pub proof fn lemma_push_hex_wf(b: BuilderV, h: u8)
    requires
        b.wf(),
    ensures
        b.push_hex(h).wf(),
{
}

/// What a builder under its invariant finishes to is canonical.
pub proof fn lemma_finish_canonical(b: BuilderV)
    requires
        b.wf(),
    ensures
        canonical(b.finish()),
{
    let with_str = if b.str.len() > 0 {
        b.built.push(SegV::Str(b.str))
    } else {
        b.built
    };
    assert(canonical(with_str));
    assert(canonical(b.flush().built));
}

/// Pushing a canonical segment keeps the invariant.
pub proof fn lemma_push_seg_wf(b: BuilderV, seg: SegV)
    requires
        b.wf(),
        seg_canonical(seg),
    ensures
        b.push_seg(seg).wf(),
{
    match seg {
        SegV::Str(s) => {},
        SegV::Hex(h) => {},
        _ => {
            lemma_finish_canonical(b);
            let f = b.flush().built;
            let r = f.push(seg);
            assert forall|i: int| 0 <= i < r.len() - 1 implies !(#[trigger] r[i] is Str && r[i + 1]
                is Str) by {
                if i < f.len() - 1 {
                    assert(f[i] == r[i]);
                    assert(f[i + 1] == r[i + 1]);
                }
            }
            assert forall|i: int| 0 <= i < r.len() implies seg_canonical(#[trigger] r[i]) by {
                if i < f.len() {
                    assert(f[i] == r[i]);
                }
            }
        },
    }
}

/// Splicing a canonical sequence keeps the invariant.
pub proof fn lemma_push_segs_wf(b: BuilderV, segs: Seq<SegV>, n: nat)
    requires
        b.wf(),
        canonical(segs),
        n <= segs.len(),
    ensures
        b.push_segs(segs, n).wf(),
    decreases n,
{
    if n > 0 {
        lemma_push_segs_wf(b, segs, (n - 1) as nat);
        lemma_push_seg_wf(b.push_segs(segs, (n - 1) as nat), segs[n - 1]);
    }
}

/// A copy of a sequence of segments.
pub fn duplicate_segs(v: &Vec<StringSeg>) -> (r: Vec<StringSeg>)
    ensures
        segs_view(r@) == segs_view(v@),
    decreases v,
{
    let mut out: Vec<StringSeg> = Vec::new();
    let mut i: usize = 0;
    while i < v.len()
        invariant
            i <= v.len(),
            out@.len() == i,
            forall|j: int| 0 <= j < i ==> out@[j]@ == v@[j]@,
        decreases v.len() - i,
    {
        let c = v[i].duplicate();
        out.push(c);
        i += 1;
    }
    assert(segs_view(out@) =~= segs_view(v@));
    out
}

impl StringSeg {
    /// A copy of this segment.
    pub fn duplicate(&self) -> (r: StringSeg)
        ensures
            r@ == self@,
        decreases self,
    {
        match self {
            StringSeg::Str(b) => {
                let c = b.clone();
                assert(c@ =~= b@);
                StringSeg::Str(c)
            },
            StringSeg::Var(sort, i) => StringSeg::Var(*sort, *i),
            StringSeg::Hex(h) => StringSeg::Hex(*h),
            StringSeg::Term(t, args) => {
                let mut out: Vec<Vec<StringSeg>> = Vec::new();
                let mut i: usize = 0;
                while i < args.len()
                    invariant
                        i <= args.len(),
                        out@.len() == i,
                        forall|j: int| 0 <= j < i ==> segs_view(out@[j]@) == segs_view(args@[j]@),
                        *self == StringSeg::Term(*t, *args),
                    decreases args.len() - i,
                {
                    assert(*args == self->Term_1);
                    assert(decreases_to!(*self => self->Term_1));
                    assert(decreases_to!(*args => args[i as int]));
                    let c = duplicate_segs(&args[i]);
                    out.push(c);
                    i += 1;
                }
                proof {
                    lemma_view_term(*t, *args);
                    lemma_view_term(*t, out);
                    assert(seg_lists_view(out@) =~= seg_lists_view(args@));
                }
                StringSeg::Term(*t, out)
            },
        }
    }
}

/// Gathers segments into a canonical sequence.
#[derive(Debug)]
pub struct StringSegBuilder {
    built: Vec<StringSeg>,
    str: Vec<u8>,
    hex: Option<u8>,
}

impl View for StringSegBuilder {
    type V = BuilderV;

    closed spec fn view(&self) -> BuilderV {
        BuilderV { built: segs_view(self.built@), str: self.str@, hex: self.hex }
    }
}

impl Default for StringSegBuilder {
    fn default() -> (r: StringSegBuilder)
        ensures
            r@ == BuilderV::empty(),
            r@.wf(),
    {
        let r = StringSegBuilder { built: Vec::new(), str: Vec::new(), hex: None };
        assert(segs_view(r.built@) =~= Seq::empty());
        r
    }
}

impl StringSegBuilder {
    /// Runs `f` on an empty builder and finishes what it hands back.
    pub fn make<E, F: FnOnce(StringSegBuilder) -> Result<StringSegBuilder, E>>(f: F) -> (r: Result<
        Vec<StringSeg>,
        E,
    >)
        requires
            forall|b: StringSegBuilder| b@ == BuilderV::empty() ==> f.requires((b,)),
        ensures
            match r {
                Ok(v) => exists|b: StringSegBuilder, out: StringSegBuilder|
                    b@ == BuilderV::empty() && f.ensures((b,), Ok(out)) && segs_view(v@)
                        == out@.finish(),
                Err(e) => exists|b: StringSegBuilder|
                    b@ == BuilderV::empty() && f.ensures((b,), Err(e)),
            },
    {
        let b = StringSegBuilder::default();
        match f(b) {
            Ok(out) => Ok(out.finish()),
            Err(e) => Err(e),
        }
    }

    /// Turns the literal run and the waiting hex digit into segments.
    pub(crate) fn flush(&mut self)
        ensures
            final(self)@ == old(self)@.flush(),
    {
        if self.str.len() > 0 {
            let mut s: Vec<u8> = Vec::new();
            std::mem::swap(&mut s, &mut self.str);
            self.built.push(StringSeg::Str(s));
            assert(segs_view(self.built@) =~= segs_view(old(self).built@).push(
                SegV::Str(old(self).str@),
            ));
        }
        assert(self.str@ =~= Seq::empty());
        let ghost mid = segs_view(self.built@);
        match self.hex {
            Some(h) => {
                self.hex = None;
                self.built.push(StringSeg::Hex(h));
                assert(segs_view(self.built@) =~= mid.push(SegV::Hex(h)));
            },
            None => {},
        }
    }

    /// Pushes one hex digit.
    pub fn push_hex(&mut self, hex: u8)
        ensures
            final(self)@ == old(self)@.push_hex(hex),
            old(self)@.wf() ==> final(self)@.wf(),
    {
        match self.hex {
            None => {
                self.hex = Some(hex);
            },
            Some(hi) => {
                self.hex = None;
                self.str.push(hi << 4 | hex);
            },
        }
    }

    /// Pushes a run of literal bytes.
    pub fn push_str(&mut self, s: &[u8])
        ensures
            final(self)@ == old(self)@.push_str(s@),
            old(self)@.wf() ==> final(self)@.wf(),
    {
        self.str.extend_from_slice(s);
        assert(self.str@ =~= old(self).str@ + s@);
    }

    /// Pushes one segment.
    pub fn push_seg(&mut self, seg: StringSeg)
        ensures
            final(self)@ == old(self)@.push_seg(seg@),
            old(self)@.wf() && seg_canonical(seg@) ==> final(self)@.wf(),
    {
        proof {
            if old(self)@.wf() && seg_canonical(seg@) {
                lemma_push_seg_wf(old(self)@, seg@);
            }
        }
        match seg {
            StringSeg::Str(s) => self.push_str(s.as_slice()),
            StringSeg::Hex(h) => self.push_hex(h),
            _ => {
                self.flush();
                let ghost mid = segs_view(self.built@);
                self.built.push(seg);
                assert(segs_view(self.built@) =~= mid.push(seg@));
            },
        }
    }

    /// Splices a finished sequence in, segment by segment.
    pub fn splice(&mut self, segs: &Vec<StringSeg>)
        ensures
            final(self)@ == old(self)@.splice(segs_view(segs@)),
            old(self)@.wf() && canonical(segs_view(segs@)) ==> final(self)@.wf(),
    {
        proof {
            if old(self)@.wf() && canonical(segs_view(segs@)) {
                lemma_push_segs_wf(old(self)@, segs_view(segs@), segs@.len());
            }
        }
        let mut i: usize = 0;
        while i < segs.len()
            invariant
                i <= segs.len(),
                self@ == old(self)@.push_segs(segs_view(segs@), i as nat),
            decreases segs.len() - i,
        {
            let seg = segs[i].duplicate();
            self.push_seg(seg);
            i += 1;
        }
    }

    /// The finished sequence.
    pub fn finish(self) -> (r: Vec<StringSeg>)
        ensures
            segs_view(r@) == self@.finish(),
            self@.wf() ==> canonical(segs_view(r@)),
    {
        proof {
            if self@.wf() {
                lemma_finish_canonical(self@);
            }
        }
        let mut b = self;
        b.flush();
        b.built
    }
}

} // verus!
