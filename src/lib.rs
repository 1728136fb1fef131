//! An interpreter for a small Lisp dialect: text is split into tokens, parsed into an expression
//! tree, and evaluated against a mutable environment of bindings.

pub mod environment;
pub mod error;
pub mod eval;
pub mod expr;
pub mod laws;
pub mod parse;
pub mod text;
pub mod tokenize;
