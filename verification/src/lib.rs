//! The front end of a small expression language: a lexer that turns source
//! text into tokens with exact byte spans, and a recursive-descent parser that
//! builds the syntax tree.

pub mod chars;
pub mod token;
pub mod number;
pub mod ast;
pub mod grouping;
pub mod text;
pub mod cursor;
pub mod scan;
pub mod lexer;
pub mod error;
pub mod scope;
pub mod grammar;
pub mod parser;
pub mod laws;
