//! A source-to-tree front end for a small bilingual (Latin-keyword /
//! Chinese-keyword) declarative scripting language.
//!
//! The crate matches raw text into a tagged span tree with a recursive
//! backtracking rule engine (ordered choice, bounded repetition, lookahead,
//! atomicity-controlled whitespace skipping, furthest-failure tracking), and
//! then synthesizes a typed abstract syntax tree from the spans.

pub mod ast;
pub mod atoms;
pub mod engine;
pub mod grammar;
pub mod laws;
pub mod lex;
pub mod parser;
pub mod rules;
pub mod serial;
pub mod span;
pub mod synth;
pub mod value;

pub use parser::{ParseError, Parsed, Re0Parser};
pub use rules::Rule;
