//! The rendering pipeline: markup and style text to trees, boxes and paint
//! primitives.

pub mod css;
pub mod dom;
pub mod html;
pub mod js;
pub mod layout;
