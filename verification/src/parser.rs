//! The textual assembly surface: tokens, lexer, assembler and binary loader.

pub mod assembler;
pub mod lexer;
pub mod reader;
pub mod tokens;
