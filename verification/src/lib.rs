//! Front end for a small imperative language: a tokenizer that turns source
//! text into a stream of tokens with source positions, and an AST builder
//! that turns the token stream into a tree of statement and expression nodes.

pub mod lexer;
pub mod ast;
