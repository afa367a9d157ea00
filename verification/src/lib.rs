//! A small expression language for templated documents: a lexer, a
//! recursive-descent parser and a tree-walking evaluator, together with the
//! tokenizer that splits a document into raw text and code regions.

pub mod interpreter;
pub mod lexer;
pub mod parser;
pub mod text;
