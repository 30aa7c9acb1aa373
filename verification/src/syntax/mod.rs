//! The command language: tokens, the expression tree, the lexer that makes
//! tokens from a line and the parser that makes a tree from tokens.

pub mod ast;
pub mod lexer;
pub mod parser;
pub mod printer;
pub mod roundtrip;
pub mod tokens;
