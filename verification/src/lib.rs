//! Source-rewriting core of a module-ecosystem transpiler.
//!
//! Two independent services over an already-parsed program:
//! stripping ecosystem-specific directive comments from the source text
//! (`directives`), and detecting which runtime polyfills a program requires
//! by a structural walk of its syntax tree (`polyfill`).  Both work on plain
//! values handed over by the parsing stage: the source text as a sequence of
//! Unicode scalar values (every position and range is an index into that
//! sequence), comments as text plus span, and the tree as ordered nodes.
//! Parsing itself, code generation and file handling are the surrounding
//! pipeline's business.

pub mod directives;
pub mod polyfill;
mod seq_facts;
pub mod text;
