//! A small interpreter for a Scheme-like language: a scanner that turns
//! source text into tokens, a recursive-descent parser that builds
//! symbolic expressions, and an evaluator over a chain of scopes.
pub mod number;
pub mod token;
pub mod lexer;
pub mod parser;
pub mod semantics;
pub mod eval;
pub mod laws;
pub mod roundtrip;
