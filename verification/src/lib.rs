//! A verified interpreter pipeline for a tiny scripting language with
//! variable bindings, printing, and left-to-right integer infix arithmetic.
//!
//! The pipeline has three strictly sequential stages: the [`lexer`] turns a
//! source string into a stream of [`token::Token`]s, the [`parser`] turns the
//! buffered token stream into a sequence of [`ast::Stmt`]s by recursive
//! descent, and the [`evaluator`] walks the statements against a single
//! mutable name-to-integer store, collecting printed values in order.
//! Each stage carries a contract relating it to a mathematical model of the
//! language, and fails fast with a categorized error on the first fault.

pub mod ast;
pub mod evaluator;
pub mod lexer;
pub mod parser;
pub mod token;
