//! Front end of a small imperative scripting language: a whitespace-driven
//! tokeniser and a recursive-descent parser that builds an abstract syntax tree.

pub mod ast;
pub mod lexer;
pub mod parser;
