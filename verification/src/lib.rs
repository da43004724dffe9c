//! A small document-rendering engine: markup and stylesheet text in, an
//! ordered list of paint primitives out.

pub mod constants;
pub mod display_item;
pub mod error;
pub mod http;
pub mod input;
pub mod renderer;
pub mod text;
pub mod url;
