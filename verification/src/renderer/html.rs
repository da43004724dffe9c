//! Markup: attributes, tokens and the tree builder.

pub mod attribute;
pub mod parser;
pub mod token;
