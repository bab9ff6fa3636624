//! A small compiler front end: a lexer for a tiny C-like language and a
//! recursive-descent parser that emits a textual intermediate representation.

pub mod token;
pub mod text;
pub mod lexer;
pub mod state;
pub mod expr;
pub mod stmt;
pub mod program;
