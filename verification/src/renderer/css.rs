//! Stylesheets: tokens and rules.

pub mod cssom;
pub mod token;
