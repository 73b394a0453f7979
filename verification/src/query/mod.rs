//! The query language: syntax tree, tokens, parser and evaluator.

pub mod ast;
pub mod evaluator;
pub mod lexer;
pub mod parser;
