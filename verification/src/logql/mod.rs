//! The LogQL query language: tokens, trees, diagnostics and completion.

pub mod analyzer;
pub mod ast;
pub mod completions;
pub mod contexts;
pub mod copy;
pub mod double;
pub mod keywords;
pub mod lexemes;
pub mod number;
pub mod offers;
pub mod parser;
pub mod precedence;
pub mod reading;
pub mod rules;
pub mod selectors;
pub mod signs;
pub mod spans;
pub mod tables;
pub mod tokenizer;
