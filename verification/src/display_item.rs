//! The paint instructions that the engine hands to a drawing surface.

use crate::renderer::layout::computed_style::ComputedStyle;
use crate::renderer::layout::layout_object::{LayoutPoint, LayoutSize};
use vstd::prelude::*;

verus! {

/// One paint instruction: a filled rectangle or a line of text.
#[derive(Debug, PartialEq, Eq)]
pub enum DisplayItem {
    Rect { style: ComputedStyle, layout_point: LayoutPoint, layout_size: LayoutSize },
    Text { text: String, style: ComputedStyle, layout_point: LayoutPoint },
}

pub enum DisplayItemModel {
    Rect { style: ComputedStyle, layout_point: LayoutPoint, layout_size: LayoutSize },
    Text { text: Seq<char>, style: ComputedStyle, layout_point: LayoutPoint },
}

impl View for DisplayItem {
    type V = DisplayItemModel;

    open spec fn view(&self) -> DisplayItemModel {
        match self {
            DisplayItem::Rect { style, layout_point, layout_size } => DisplayItemModel::Rect {
                style: *style,
                layout_point: *layout_point,
                layout_size: *layout_size,
            },
            DisplayItem::Text { text, style, layout_point } => DisplayItemModel::Text {
                text: text@,
                style: *style,
                layout_point: *layout_point,
            },
        }
    }
}

impl Clone for DisplayItem {
    fn clone(&self) -> (r: Self)
        ensures
            r@ == self@,
    {
        match self {
            DisplayItem::Rect { style, layout_point, layout_size } => DisplayItem::Rect {
                style: *style,
                layout_point: *layout_point,
                layout_size: *layout_size,
            },
            DisplayItem::Text { text, style, layout_point } => DisplayItem::Text {
                text: text.clone(),
                style: *style,
                layout_point: *layout_point,
            },
        }
    }
}

pub open spec fn items_model(items: Seq<DisplayItem>) -> Seq<DisplayItemModel> {
    items.map_values(|i: DisplayItem| i@)
}

} // verus!
