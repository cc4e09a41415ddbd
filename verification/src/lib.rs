//! A small imperative scripting language: a parser from source text to
//! statements, and an evaluator that runs statements against an environment of
//! mutable and immutable integer bindings.
//!
//! - [`ast`]: the syntax tree.
//! - [`grammar`]: what each construct of the language reads from a text.
//! - [`parser`]: the parser, which reads a text as the grammar says.
//! - [`canonical`]: the text of a program, and the proof that it parses back.
//! - [`semantics`]: what expressions, statements and programs mean.
//! - [`interpreter`]: the evaluator, which runs a program as the semantics say.
//! - [`bindings`]: the table from names to integers that the evaluator keeps.
//! - [`text`]: character classes and decimal notation.

pub mod ast;
pub mod bindings;
pub mod canonical;
pub mod grammar;
pub mod interpreter;
pub mod parser;
pub mod semantics;
pub mod text;
mod tokens;
