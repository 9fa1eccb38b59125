//! The string-output codec of a proof-assistant elaborator.
//!
//! Expressions of sort `string` are built from a small vocabulary of logical
//! symbols: the empty string, the singleton, concatenation, a character made
//! of two hex digits, and the sixteen hex digits.  This crate resolves that
//! vocabulary in a logical environment, recognises a user-defined `scons`
//! that behaves as "character, then string", and turns expression DAGs into
//! bytes.  Every function carries a contract over the mathematical models
//! defined next to it.

pub mod environment;
pub mod writer;
pub mod segment;
pub mod handlers;
pub mod alias;
pub mod output;
pub mod elab;
pub mod run;
pub mod validate;
pub mod laws;

pub use crate::elab::{ElabError, Elaborated, Elaborator};
pub use crate::environment::{
    AtomData, AtomID, DeclKey, Environment, Expr, ExprNode, FileSpan, OutputString, Sort, SortID,
    Span, StmtTrace, Term, TermID, ThmID, Type,
};
pub use crate::handlers::{InoutHandlers, InoutStringType, Sorts};
pub use crate::run::{FrozenEnv, OutputChunk, OutputRun};
pub use crate::segment::{StringSeg, StringSegBuilder};
pub use crate::writer::{OutputError, StringPart, StringWriter};
