//! A compiler for a tiny expression language: integer literals, postfix
//! increment and decrement, identifiers and `let` bindings. Source text is
//! tokenized, parsed into an expression tree, compiled into a straight-line
//! program for a single-accumulator machine, and rendered as assembly text.
pub mod token;
pub mod tokenize;
pub mod expr;
pub mod parse;
pub mod instruction;
pub mod env;
pub mod compile;
pub mod render;
pub mod pipeline;
mod text;
