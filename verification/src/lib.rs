//! A small dynamically-typed scripting language: tokenizer, parser and
//! evaluator, with machine-checked contracts.
//!
//! Source text is scanned into tokens ([`lexer`]), the tokens are parsed
//! into a program ([`parser`], by the [`grammar`]), and the program is
//! evaluated step by step ([`evaluator`], by the [`machine`]). What holds
//! of all of it is stated and proved in [`laws`], [`spans`], [`keys`],
//! [`choice`] and [`soundness`].

pub mod ast;
pub mod choice;
pub mod display;
pub mod environment;
pub mod error;
pub mod evaluator;
pub mod grammar;
pub mod host;
pub mod keys;
pub mod laws;
pub mod lexer;
pub mod machine;
pub mod operations;
pub mod parser;
pub mod runner;
pub mod soundness;
pub mod spans;
pub mod text;
pub mod value;
