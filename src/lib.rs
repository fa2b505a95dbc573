//! Reader for the "smartconf" configuration dialect: a lexer that turns text
//! into located tokens, a generator that folds them into a key/value mapping,
//! and a renderer for the mapping.

pub mod classify;
pub mod error;
pub mod token;
pub mod lexer;
pub mod mapping;
pub mod generator;
pub mod render;
pub mod laws;
pub mod cli;
