//! A tree-walking interpreter for a small dynamically typed scripting
//! language: numbers, strings, variables, binary arithmetic, string
//! concatenation, user-defined functions and `print`.
//!
//! The pipeline has three stages, each with a contract stated over a
//! mathematical model of its input and output:
//!
//! * [`lexer::tokenize`] turns source text into tokens,
//! * [`parser::parse`] turns tokens into a [`ast::Program`],
//! * [`eval::eval`] runs a program and appends one line per `print` to a sink.
//!
//! Numbers are 64-bit floating point values. The interpreter never looks
//! inside one: it carries each as its 64-bit pattern and leaves reading a
//! literal, the four arithmetic operations and formatting to functions that
//! the host passes in. Every contract is stated for an arbitrary
//! [`number::NumberModel`] that describes those host functions.
pub mod ast;
pub mod env;
pub mod eval;
pub mod lexer;
pub mod number;
pub mod parser;
pub mod text;
