//! The commands `output` and `input` of the elaborator.  Elaboration
//! itself happens elsewhere: these functions take what it found of each
//! expression, and the expressions as a DAG.

use vstd::prelude::*;
use crate::environment::{
    dag_ok, nodes_view, stmts_view, EnvV, Environment, ExprNode, FileSpan, FileSpanV, Node,
    OutputString, OutputStringV, SortID, Span, StmtTrace, StmtV,
};
use crate::handlers::{lemma_registry_ok, registry_spec, InoutHandlers, InoutStringType, Sorts};
use crate::output::{write_output_spec, EvalError};
use crate::writer::{OutputError, StringWriter, WriterV};

verus! {

/// An error of elaboration: where it is, and what it says.
#[derive(Debug)]
pub struct ElabError {
    pub pos: Span,
    pub msg: String,
}

/// The model of an [`ElabError`].
pub ghost struct ElabErrorV {
    pub pos: Span,
    pub msg: Seq<char>,
}

impl View for ElabError {
    type V = ElabErrorV;

    open spec fn view(&self) -> ElabErrorV {
        ElabErrorV { pos: self.pos, msg: self.msg@ }
    }
}

impl ElabError {
    /// An error at `pos` that says `msg`.
    pub fn new_e(pos: Span, msg: String) -> (r: ElabError)
        ensures
            r@ == (ElabErrorV { pos, msg: msg@ }),
    {
        ElabError { pos, msg }
    }
}

/// What elaboration found of one expression: where it stands in the
/// source, and its sort.
#[derive(Clone, Copy, Debug)]
pub struct Elaborated {
    pub span: Span,
    pub sort: SortID,
}

/// The position among the first `n` values of the first whose sort is not
/// `str`.
pub open spec fn first_mismatch(vals: Seq<Elaborated>, str: SortID, n: nat) -> Option<int>
    decreases n,
{
    if n == 0 || n > vals.len() {
        None
    } else {
        match first_mismatch(vals, str, (n - 1) as nat) {
            Some(i) => Some(i),
            None => if vals[n - 1].sort != str {
                Some(n - 1)
            } else {
                None
            },
        }
    }
}

/// A mismatch, once found, stays the first.
pub proof fn lemma_first_mismatch(vals: Seq<Elaborated>, str: SortID, n: nat, m: nat)
    requires
        n <= m <= vals.len(),
        first_mismatch(vals, str, n) is Some,
    ensures
        first_mismatch(vals, str, m) == first_mismatch(vals, str, n),
    decreases m,
{
    if m > n {
        lemma_first_mismatch(vals, str, n, (m - 1) as nat);
    }
}

/// The text that reports an expression of another sort than `string`.
pub open spec fn type_error(env: EnvV, s: SortID) -> Seq<char> {
    "type error: expected string, got "@ + env.sorts[s.0 as int].name
}

/// The text that reports an `output` command of another kind than
/// `string`.
pub open spec fn unsupported_output() -> Seq<char> {
    "unsupported output kind"@
}

/// The text that reports an `input` command.
pub open spec fn unsupported_input() -> Seq<char> {
    "unsupported input kind"@
}

/// The bytes of the word `string`.
pub open spec fn string_kind() -> Seq<u8> {
    seq![0x73u8, 0x74u8, 0x72u8, 0x69u8, 0x6eu8, 0x67u8]
}

/// The bytes that an `output string` statement gives when it is evaluated
/// by itself: what its expressions write; a hex digit left waiting at the
/// end is not among them.
pub open spec fn eval_string_spec(
    env: EnvV,
    reg: Map<u32, InoutStringType>,
    heap: Seq<Node>,
    exprs: Seq<Node>,
) -> Result<Seq<u8>, EvalError> {
    let o = write_output_spec(env.terms, reg, heap, exprs, WriterV::empty());
    match o.err {
        Some(x) => Err(x),
        None => Ok(o.w.out),
    }
}

/// The elaborator, as far as the commands `input` and `output` go: the
/// environment, the cache of the string vocabulary, and the source file.
#[derive(Debug)]
pub struct Elaborator {
    pub env: Environment,
    pub inout: InoutHandlers,
    /// The path of the source file.
    pub path: String,
    /// The text of the source file.
    pub source: Vec<u8>,
}

impl Elaborator {
    /// The elaborator's invariant: the environment is in order, and the
    /// cache, once filled, holds what resolution in it gives.
    pub open spec fn wf(&self) -> bool {
        &&& self.env.wf()
        &&& match self.inout.string {
            Some(c) => registry_spec(self.env@) == Ok::<_, Seq<char>>((c.0, c.1@)),
            None => true,
        }
    }

    /// The text of the source under `sp`.
    pub open spec fn span_text(&self, sp: Span) -> Seq<u8> {
        self.source@.subrange(sp.start as int, sp.end as int)
    }

    /// An elaborator over `env` that has resolved nothing yet.
    pub fn new(env: Environment, path: String, source: Vec<u8>) -> (r: Elaborator)
        requires
            env.wf(),
        ensures
            r.wf(),
            r.env == env,
            r.inout.string is None,
            r.path == path,
            r.source == source,
    {
        Elaborator { env, inout: InoutHandlers::default(), path, source }
    }

    /// The span `sp` in the file at hand.
    pub fn fspan(&self, sp: Span) -> (r: FileSpan)
        ensures
            r@ == (FileSpanV { file: self.path@, span: sp }),
    {
        FileSpan { file: self.path.clone(), span: sp }
    }

    /// The sorts of the string vocabulary, resolved on the first call and
    /// kept for the later ones.  An error of resolution is reported at
    /// `sp`.
    pub fn get_string_handler(&mut self, sp: Span) -> (r: Result<Sorts, ElabError>)
        requires
            old(self).wf(),
        ensures
            final(self).wf(),
            final(self).env == old(self).env,
            final(self).path == old(self).path,
            final(self).source == old(self).source,
            match registry_spec(old(self).env@) {
                Ok(c) => r == Ok::<_, ElabError>(c.0) && final(self).inout.string is Some,
                Err(e) => r matches Err(x) && x@ == (ElabErrorV { pos: sp, msg: e })
                    && final(self).inout.string is None,
            },
    {
        match &self.inout.string {
            Some(c) => {
                return Ok(c.0);
            },
            None => {},
        }
        match self.env.new_string_handler() {
            Ok(c) => {
                let s = c.0;
                self.inout.string = Some(c);
                Ok(s)
            },
            Err(e) => Err(ElabError::new_e(sp, e)),
        }
    }

    /// The first of the values whose sort is not `str`, if there is one.
    fn find_mismatch(vals: &[Elaborated], str: SortID) -> (r: Option<usize>)
        ensures
            match r {
                Some(i) => first_mismatch(vals@, str, vals@.len()) == Some(i as int) && i
                    < vals@.len(),
                None => first_mismatch(vals@, str, vals@.len()) is None,
            },
    {
        let mut i: usize = 0;
        while i < vals.len()
            invariant
                i <= vals.len(),
                first_mismatch(vals@, str, i as nat) is None,
            decreases vals.len() - i,
        {
            if vals[i].sort.0 != str.0 {
                proof {
                    lemma_first_mismatch(vals@, str, (i + 1) as nat, vals@.len());
                }
                return Some(i);
            }
            i += 1;
        }
        None
    }

    /// The text for an expression of sort `s` where a string is due.
    fn type_error_text(&self, s: SortID) -> (r: String)
        requires
            s.0 < self.env@.sorts.len(),
        ensures
            r@ == type_error(self.env@, s),
    {
        let mut m = String::from_str("type error: expected string, got ");
        let sort = &self.env.sorts[s.0 as usize];
        assert(sort@ == self.env@.sorts[s.0 as int]);
        m.append(sort.name.as_str());
        m
    }

    /// Records an `output string` statement.
    ///
    /// `vals` tells of each expression of the statement what elaboration
    /// found, and `heap` and `exprs` are the DAG of those expressions.  The
    /// vocabulary is resolved first; then every expression must be of sort
    /// `string`.  Errors are reported at `sp`, the span of the statement.
    pub fn elab_output_string(
        &mut self,
        sp: Span,
        vals: &[Elaborated],
        heap: Vec<ExprNode>,
        exprs: Vec<ExprNode>,
    ) -> (r: Result<(), ElabError>)
        requires
            old(self).wf(),
            forall|i: int|
                0 <= i < vals@.len() ==> (#[trigger] vals@[i]).sort.0 < old(self).env@.sorts.len(),
            dag_ok(old(self).env@.terms, nodes_view(heap@), nodes_view(exprs@)),
        ensures
            final(self).wf(),
            final(self).env@ == old(self).env@,
            final(self).path == old(self).path,
            final(self).source == old(self).source,
            final(self).inout.string is Some <==> registry_spec(old(self).env@) is Ok,
            match registry_spec(old(self).env@) {
                Err(e) => {
                    &&& r matches Err(x) && x@ == (ElabErrorV { pos: sp, msg: e })
                    &&& stmts_view(final(self).env.stmts@) == stmts_view(old(self).env.stmts@)
                },
                Ok(c) => match first_mismatch(vals@, c.0.str, vals@.len()) {
                    Some(i) => {
                        &&& r matches Err(x) && x@ == (ElabErrorV {
                            pos: sp,
                            msg: type_error(old(self).env@, vals@[i].sort),
                        })
                        &&& stmts_view(final(self).env.stmts@) == stmts_view(old(self).env.stmts@)
                    },
                    None => {
                        &&& r is Ok
                        &&& stmts_view(final(self).env.stmts@) == stmts_view(
                            old(self).env.stmts@,
                        ).push(
                            StmtV::OutputString(
                                OutputStringV {
                                    span: FileSpanV { file: old(self).path@, span: sp },
                                    heap: nodes_view(heap@),
                                    exprs: nodes_view(exprs@),
                                },
                            ),
                        )
                    },
                },
            },
    {
        let sorts = match self.get_string_handler(sp) {
            Ok(s) => s,
            Err(e) => {
                return Err(e);
            },
        };
        match Self::find_mismatch(vals, sorts.str) {
            Some(i) => {
                return Err(ElabError::new_e(sp, self.type_error_text(vals[i].sort)));
            },
            None => {},
        }
        let fsp = self.fspan(sp);
        let ghost before = self.env.stmts@;
        let stmt = StmtTrace::OutputString(OutputString { span: fsp, heap, exprs });
        self.env.stmts.push(stmt);
        proof {
            assert(stmts_view(self.env.stmts@) =~= stmts_view(before).push(stmt@));
            assert(self.env@ =~= old(self).env@);
            assert forall|i: int| 0 <= i < self.env.stmts@.len() implies match (
            #[trigger] self.env.stmts@[i])@ {
                StmtV::OutputString(os) => dag_ok(self.env@.terms, os.heap, os.exprs),
                _ => true,
            } by {
                if i < before.len() {
                    assert(self.env.stmts@[i] == before[i]);
                }
            }
        }
        Ok(())
    }

    /// Evaluates an `output string` statement to its bytes.
    ///
    /// `vals`, `heap` and `exprs` are as for
    /// [`elab_output_string`](Self::elab_output_string).  An expression of
    /// another sort is reported where it stands; an error of resolution or
    /// of evaluation at the span of `fsp`.
    pub fn eval_string(
        &mut self,
        fsp: FileSpan,
        vals: &[Elaborated],
        heap: &[ExprNode],
        exprs: &[ExprNode],
    ) -> (r: Result<Vec<u8>, ElabError>)
        requires
            old(self).wf(),
            forall|i: int|
                0 <= i < vals@.len() ==> (#[trigger] vals@[i]).sort.0 < old(self).env@.sorts.len(),
            dag_ok(old(self).env@.terms, nodes_view(heap@), nodes_view(exprs@)),
        ensures
            final(self).wf(),
            final(self).env == old(self).env,
            final(self).path == old(self).path,
            final(self).source == old(self).source,
            final(self).inout.string is Some <==> registry_spec(old(self).env@) is Ok,
            match registry_spec(old(self).env@) {
                Err(e) => r matches Err(x) && x@ == (ElabErrorV { pos: fsp.span, msg: e }),
                Ok(c) => match first_mismatch(vals@, c.0.str, vals@.len()) {
                    Some(i) => r matches Err(x) && x@ == (ElabErrorV {
                        pos: vals@[i].span,
                        msg: type_error(old(self).env@, vals@[i].sort),
                    }),
                    None => match eval_string_spec(
                        old(self).env@,
                        c.1,
                        nodes_view(heap@),
                        nodes_view(exprs@),
                    ) {
                        Ok(bytes) => r matches Ok(v) && v@ == bytes,
                        Err(e) => r matches Err(x) && x@ == (ElabErrorV {
                            pos: fsp.span,
                            msg: e.text(),
                        }),
                    },
                },
            },
    {
        let sorts = match self.get_string_handler(fsp.span) {
            Ok(s) => s,
            Err(e) => {
                return Err(e);
            },
        };
        match Self::find_mismatch(vals, sorts.str) {
            Some(i) => {
                return Err(ElabError::new_e(vals[i].span, self.type_error_text(vals[i].sort)));
            },
            None => {},
        }
        proof {
            lemma_registry_ok(self.env@);
        }
        let terms = &self.inout.string.as_ref().unwrap().1;
        let mut w = StringWriter::default();
        match self.env.write_output_string(terms, &mut w, heap, exprs) {
            Ok(()) => Ok(w.w),
            Err(OutputError::String(e)) => Err(ElabError::new_e(fsp.span, e)),
            Err(OutputError::IOError(_)) => unreached(),
        }
    }

    /// Whether the source under `kind` is the word `string`.
    pub fn is_string_kind(&self, kind: Span) -> (r: bool)
        requires
            kind.start <= kind.end <= self.source@.len(),
        ensures
            r == (self.span_text(kind) == string_kind()),
    {
        let word: [u8; 6] = [0x73, 0x74, 0x72, 0x69, 0x6e, 0x67];
        assert(self.span_text(kind).len() == kind.end - kind.start);
        assert(string_kind().len() == 6);
        if kind.end - kind.start != 6 {
            return false;
        }
        let mut i: usize = 0;
        while i < 6
            invariant
                i <= 6,
                kind.end - kind.start == 6,
                kind.end <= self.source@.len(),
                word@ == string_kind(),
                forall|j: int| 0 <= j < i ==> self.source@[kind.start + j] == string_kind()[j],
            decreases 6 - i,
        {
            if self.source[kind.start + i] != word[i] {
                assert(self.span_text(kind)[i as int] != string_kind()[i as int]);
                return false;
            }
            i += 1;
        }
        assert(self.span_text(kind) =~= string_kind());
        true
    }

    /// Elaborates an `output` command.  The source under `kind` names the
    /// kind of output; `string` is the only one there is, and what is done
    /// for it is [`elab_output_string`](Self::elab_output_string).  Any
    /// other is reported at `kind`.
    pub fn elab_output(
        &mut self,
        sp: Span,
        kind: Span,
        vals: &[Elaborated],
        heap: Vec<ExprNode>,
        exprs: Vec<ExprNode>,
    ) -> (r: Result<(), ElabError>)
        requires
            old(self).wf(),
            kind.start <= kind.end <= old(self).source@.len(),
            forall|i: int|
                0 <= i < vals@.len() ==> (#[trigger] vals@[i]).sort.0 < old(self).env@.sorts.len(),
            dag_ok(old(self).env@.terms, nodes_view(heap@), nodes_view(exprs@)),
        ensures
            final(self).wf(),
            final(self).env@ == old(self).env@,
            final(self).path == old(self).path,
            final(self).source == old(self).source,
            old(self).span_text(kind) != string_kind() ==> {
                &&& r matches Err(x) && x@ == (ElabErrorV { pos: kind, msg: unsupported_output() })
                &&& *final(self) == *old(self)
            },
            old(self).span_text(kind) == string_kind() ==> (final(self).inout.string is Some
                <==> registry_spec(old(self).env@) is Ok),
            old(self).span_text(kind) == string_kind() ==> match registry_spec(old(self).env@) {
                Err(e) => {
                    &&& r matches Err(x) && x@ == (ElabErrorV { pos: sp, msg: e })
                    &&& stmts_view(final(self).env.stmts@) == stmts_view(old(self).env.stmts@)
                },
                Ok(c) => match first_mismatch(vals@, c.0.str, vals@.len()) {
                    Some(i) => {
                        &&& r matches Err(x) && x@ == (ElabErrorV {
                            pos: sp,
                            msg: type_error(old(self).env@, vals@[i].sort),
                        })
                        &&& stmts_view(final(self).env.stmts@) == stmts_view(old(self).env.stmts@)
                    },
                    None => {
                        &&& r is Ok
                        &&& stmts_view(final(self).env.stmts@) == stmts_view(
                            old(self).env.stmts@,
                        ).push(
                            StmtV::OutputString(
                                OutputStringV {
                                    span: FileSpanV { file: old(self).path@, span: sp },
                                    heap: nodes_view(heap@),
                                    exprs: nodes_view(exprs@),
                                },
                            ),
                        )
                    },
                },
            },
    {
        if self.is_string_kind(kind) {
            self.elab_output_string(sp, vals, heap, exprs)
        } else {
            Err(ElabError::new_e(kind, String::from_str("unsupported output kind")))
        }
    }

    /// Elaborates an `input` command: there is no kind of input, so this
    /// is an error at `kind`, and nothing changes.
    pub fn elab_input(&mut self, sp: Span, kind: Span) -> (r: Result<(), ElabError>)
        ensures
            r matches Err(x) && x@ == (ElabErrorV { pos: kind, msg: unsupported_input() }),
            *final(self) == *old(self),
    {
        Err(ElabError::new_e(kind, String::from_str("unsupported input kind")))
    }
}

} // verus!
