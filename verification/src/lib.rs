//! A minimal ahead-of-time compiler for a small C-like language.
//!
//! The pipeline has three stages, each of which consumes the complete
//! output of the previous one: lexical analysis (character stream to token
//! stream), syntactic analysis (token stream to abstract syntax tree), and
//! code generation (syntax tree to textual x86-64 assembly that evaluates
//! expressions on a two-register stack discipline).

pub mod token;
pub mod lexer;
pub mod parser;
pub mod codegen;
pub mod semantic_analyzer;
