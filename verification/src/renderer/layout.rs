//! Resolved styles, the layout tree and its geometry.

pub mod computed_style;
pub mod layout_object;
pub mod layout_view;
pub mod line_break;
