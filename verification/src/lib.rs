//! Front end of a small interpreted language: a tokenizer that turns source
//! text into a stream of lexical tokens, and a recursive-descent parser that
//! builds a program tree of `let` and `return` statements from that stream.

pub mod ast;
pub mod lexer;
pub mod parser;
