//! Front-end of a compiler for a small, statically typed, C-like language:
//! lexing, parsing, structural checks, hoisting, name resolution and type
//! inference, each stage appending to a shared list of diagnostics.

pub mod checker;
pub mod common;
pub mod driver;
pub mod hoister;
pub mod infer;
pub mod lexer;
pub mod parser;
pub mod resolver;
