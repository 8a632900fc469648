//! The syntax tree of SQL statements and their expressions, and the parser
//! that reads them from text.

pub mod ast;
pub mod expr;
pub mod grammar;
pub mod lexer;
pub mod parse;

pub use parse::{ParseError, Parser};
