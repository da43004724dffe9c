//! The script interpreter: tokens, syntax tree and evaluation.

pub mod ast;
pub mod runtime;
pub mod token;
