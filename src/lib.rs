//! Front end of a small statically-typed language: a token scanner, a table-driven
//! bottom-up reduction engine and a scoped type checker.

pub mod types;
pub mod lexer;
pub mod ast;
pub mod grammar;
pub mod parser;
pub mod semantics;
pub mod frame;
