//! Planning for a family of string- and path-concatenation macros.
//!
//! The macros take a comma-separated list of expressions and expand to code
//! that concatenates their values.  This crate holds the verified core of
//! that expansion: the grammar of the argument list over a tokenized model
//! of the input, the merging of adjacent literals into single compile-time
//! constants, the grouping of constant runs, the naming of the bindings that
//! evaluate each remaining expression exactly once, and evaluators that
//! compute the value the generated code would produce.
//!
//! A thin unverified layer turns the host language's token trees into the
//! token model used here and renders the plans back into generated code.

mod strbuild;

pub mod fast;
pub mod names;
pub mod parse;
pub mod paths;
pub mod segs;
pub mod strings;
pub mod toks;
