//! The run of every recorded output statement of a finished environment.

use std::collections::HashMap;
use vstd::prelude::*;
use crate::environment::{EnvV, Environment, FileSpan, FileSpanV, StmtTrace, StmtV, stmts_view};
use crate::handlers::{lemma_registry_ok, registry_spec, InoutStringType, Sorts};
use crate::output::write_output_spec;
use crate::writer::{OutputError, StringWriter, WriterV};

verus! {

/// The bytes that one output statement wrote.
#[derive(Debug)]
pub struct OutputChunk {
    /// The statement's place in the source.
    pub span: FileSpan,
    pub bytes: Vec<u8>,
}

/// The model of an [`OutputChunk`].
pub ghost struct ChunkV {
    pub span: FileSpanV,
    pub bytes: Seq<u8>,
}

impl View for OutputChunk {
    type V = ChunkV;

    open spec fn view(&self) -> ChunkV {
        ChunkV { span: self.span@, bytes: self.bytes@ }
    }
}

/// The models of a sequence of chunks, one by one.
pub open spec fn chunks_view(v: Seq<OutputChunk>) -> Seq<ChunkV> {
    Seq::new(v.len(), |i: int| v[i]@)
}

/// What a run came to: the bytes of each output statement that was
/// reached, in order, and the error that ended the run, if one did, with
/// the place of the statement at which it arose.
#[derive(Debug)]
pub struct OutputRun {
    pub chunks: Vec<OutputChunk>,
    pub result: Result<(), (FileSpan, OutputError)>,
}

/// The model of a run over some of the statements: the chunks so far, the
/// hex digit that waits for the next statement, and the error.
pub ghost struct RunV {
    pub chunks: Seq<ChunkV>,
    pub hex: Option<u8>,
    pub err: Option<(FileSpanV, Seq<char>)>,
}

/// The run of the first `n` statements.
///
/// Statements other than output statements are passed over.  The first
/// output statement has the vocabulary resolved; where that fails, the run
/// ends there with nothing written.  Each output statement is written to
/// the one sink, so that a hex digit left waiting by one statement pairs
/// up with the first of the next.  A statement that fails ends the run;
/// what it had written by then is its chunk.
pub open spec fn run_spec(env: EnvV, stmts: Seq<StmtV>, n: nat) -> RunV
    decreases n,
{
    if n == 0 || n > stmts.len() {
        RunV { chunks: Seq::empty(), hex: None, err: None }
    } else {
        let before = run_spec(env, stmts, (n - 1) as nat);
        if before.err is Some {
            before
        } else {
            match stmts[n - 1] {
                StmtV::OutputString(os) => match registry_spec(env) {
                    Err(e) => RunV { err: Some((os.span, e)), ..before },
                    Ok(c) => {
                        let o = write_output_spec(
                            env.terms,
                            c.1,
                            os.heap,
                            os.exprs,
                            WriterV { out: Seq::empty(), hex: before.hex },
                        );
                        RunV {
                            chunks: before.chunks.push(ChunkV { span: os.span, bytes: o.w.out }),
                            hex: o.w.hex,
                            err: match o.err {
                                Some(x) => Some((os.span, x.text())),
                                None => None,
                            },
                        }
                    },
                },
                _ => before,
            }
        }
    }
}

/// Once a statement has failed, those after it are not run.
pub proof fn lemma_run_fail(env: EnvV, stmts: Seq<StmtV>, n: nat, m: nat)
    requires
        n <= m <= stmts.len(),
        run_spec(env, stmts, n).err is Some,
    ensures
        run_spec(env, stmts, m) == run_spec(env, stmts, n),
    decreases m,
{
    if m > n {
        lemma_run_fail(env, stmts, n, (m - 1) as nat);
    }
}

/// An environment to which nothing is added any more.
#[derive(Debug)]
pub struct FrozenEnv(pub Environment);

impl FrozenEnv {
    /// Runs every output statement of the environment, in the order of
    /// the statements, and hands back what each wrote.
    pub fn run_output(&self) -> (r: OutputRun)
        requires
            self.0.wf(),
        ensures
            chunks_view(r.chunks@) == run_spec(
                self.0@,
                stmts_view(self.0.stmts@),
                self.0.stmts@.len(),
            ).chunks,
            match (
                r.result,
                run_spec(self.0@, stmts_view(self.0.stmts@), self.0.stmts@.len()).err,
            ) {
                (Ok(()), None) => true,
                (Err(found), Some(expected)) => found.0@ == expected.0 && found.1.is_msg(
                    expected.1,
                ),
                _ => false,
            },
    {
        let env = &self.0;
        let ghost stmts = stmts_view(env.stmts@);
        let mut handler: Option<(Sorts, HashMap<u32, InoutStringType>)> = None;
        let mut pending: Option<u8> = None;
        let mut chunks: Vec<OutputChunk> = Vec::new();
        proof {
            assert(chunks_view(chunks@) =~= Seq::empty());
            lemma_registry_ok(env@);
        }
        let mut i: usize = 0;
        while i < env.stmts.len()
            invariant
                i <= env.stmts.len(),
                env == &self.0,
                env.wf(),
                stmts == stmts_view(env.stmts@),
                match handler {
                    Some(c) => registry_spec(env@) == Ok::<_, Seq<char>>((c.0, c.1@)),
                    None => true,
                },
                registry_spec(env@) matches Ok(c) ==> crate::alias::registry_ok(env@.terms, c.1),
                run_spec(env@, stmts, i as nat) == (RunV {
                    chunks: chunks_view(chunks@),
                    hex: pending,
                    err: None,
                }),
            decreases env.stmts.len() - i,
        {
            assert(stmts[i as int] == env.stmts@[i as int]@);
            match &env.stmts[i] {
                StmtTrace::OutputString(os) => {
                    if handler.is_none() {
                        match env.new_string_handler() {
                            Ok(c) => {
                                handler = Some(c);
                            },
                            Err(e) => {
                                proof {
                                    lemma_run_fail(env@, stmts, (i + 1) as nat, stmts.len());
                                }
                                return OutputRun {
                                    chunks,
                                    result: Err((os.span.duplicate(), OutputError::String(e))),
                                };
                            },
                        }
                    }
                    let terms = &handler.as_ref().unwrap().1;
                    let mut w = StringWriter { w: Vec::new(), hex: pending };
                    let res = env.write_output_string(
                        terms,
                        &mut w,
                        os.heap.as_slice(),
                        os.exprs.as_slice(),
                    );
                    pending = w.hex;
                    let ghost before = chunks_view(chunks@);
                    let chunk = OutputChunk { span: os.span.duplicate(), bytes: w.w };
                    chunks.push(chunk);
                    assert(chunks_view(chunks@) =~= before.push(chunk@));
                    match res {
                        Ok(()) => {},
                        Err(e) => {
                            proof {
                                lemma_run_fail(env@, stmts, (i + 1) as nat, stmts.len());
                            }
                            return OutputRun { chunks, result: Err((os.span.duplicate(), e)) };
                        },
                    }
                },
                _ => {},
            }
            i += 1;
        }
        OutputRun { chunks, result: Ok(()) }
    }
}

} // verus!
