//! The node tree and the queries on it.

pub mod api;
pub mod node;
