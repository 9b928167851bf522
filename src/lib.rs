//! A small term-rewriting engine: tokens and their lexer, expressions with
//! their parser and printer, first-order matching, substitution, traversal
//! strategies, rule application, and the shaping session that drives it,
//! with the laws that relate them.
pub mod token;
pub mod lexer;
pub mod expr;
pub mod error;
pub mod parser;
pub mod matching;
pub mod strategy;
pub mod rewrite;
pub mod command;
pub mod session;
pub mod laws;
pub mod roundtrip;
