//! The layout tree of a document: its construction, the two passes that give
//! every box its size and its place, and painting.

use crate::constants::CONTENT_AREA_WIDTH;
use crate::display_item::{items_model, DisplayItem, DisplayItemModel};
use crate::renderer::css::cssom::{StyleSheet, StyleSheetModel};
use crate::renderer::dom::api::{find_element, get_target_element_node};
use crate::renderer::dom::node::{
    chain_model, is_content, node_count, ElementKind, Node, NodeKind, NodeKindModel, NodeModel,
};
use crate::renderer::layout::computed_style::{ComputedStyle, DisplayType};
use crate::renderer::layout::layout_object::{
    box_for, computed_point, create_layout_object, glyph_width, heights_sum, layout_model,
    lemma_sums_nonnegative, line_height, no_size, origin, sizes_nonnegative, stacked_height,
    text_size, widths_sum, LayoutModel, LayoutObject, LayoutObjectKind, LayoutPoint, LayoutSize,
};
use crate::renderer::layout::line_break::{lemma_line_count, split_lines};
use vstd::string::StrSliceExecFns;
use vstd::prelude::*;

verus! {

/// The most that a document may weigh to be laid out: the greatest 64-bit
/// coordinate divided by the width of the content area. No box of a document
/// lies further right than that width for each unit of weight, or further
/// down than the height of the tallest line for each unit, so the geometry of
/// a document within the limit fits 64 bits.
pub const LAYOUT_LIMIT: u64 = 0x7fff_ffff_ffff_ffff / 590;

/// The weight of a forest of nodes: one for each node and one for each
/// character of text.
pub open spec fn dom_weight(chain: Option<Box<NodeModel>>) -> nat
    decreases chain,
{
    match chain {
        None => 0,
        Some(n) => 1 + text_length(n.kind) + dom_weight(n.first_child) + dom_weight(
            n.next_sibling,
        ),
    }
}

pub open spec fn text_length(kind: NodeKindModel) -> nat {
    match kind {
        NodeKindModel::Text(t) => t.len(),
        _ => 0,
    }
}

/// The weight of a forest of boxes: one for each box and one for each
/// character of text.
pub open spec fn layout_weight(chain: Option<Box<LayoutModel>>) -> nat
    decreases chain,
{
    match chain {
        None => 0,
        Some(b) => 1 + text_length(b.node) + layout_weight(b.first_child) + layout_weight(
            b.next_sibling,
        ),
    }
}

/// The number of boxes in a forest.
pub open spec fn box_count(chain: Option<Box<LayoutModel>>) -> nat
    decreases chain,
{
    match chain {
        None => 0,
        Some(b) => 1 + box_count(b.first_child) + box_count(b.next_sibling),
    }
}

/// The layout tree of a forest of nodes under a stylesheet, below a box with
/// the given style.
///
/// A node that is displayed has a box, and the boxes of its children are the
/// children of that box. A node that is not displayed has no box, and nothing
/// below it has one: the boxes of the nodes after it take its place.
pub open spec fn layout_of(
    chain: Option<Box<NodeModel>>,
    parent: Option<ComputedStyle>,
    sheet: StyleSheetModel,
) -> Option<Box<LayoutModel>>
    decreases chain,
{
    match chain {
        None => None,
        Some(n) => match box_for(n.kind, parent, sheet) {
            None => layout_of(n.next_sibling, parent, sheet),
            Some(b) => Some(
                Box::new(
                    LayoutModel {
                        first_child: layout_of(n.first_child, Some(b.style), sheet),
                        next_sibling: layout_of(n.next_sibling, parent, sheet),
                        ..b
                    },
                ),
            ),
        },
    }
}

/// Whether every box of a forest has a resolved style that displays it, over
/// a node that is no document, and is a run of text exactly if its node is
/// text.
pub open spec fn styled(chain: Option<Box<LayoutModel>>) -> bool
    decreases chain,
{
    match chain {
        None => true,
        Some(b) => b.style.is_resolved() && b.style.display != Some(DisplayType::DisplayNone)
            && !(b.node is Document) && (b.kind == LayoutObjectKind::Text <==> b.node is Text)
            && styled(b.first_child) && styled(b.next_sibling),
    }
}

/// Whether no box of a forest has been given an extent yet.
pub open spec fn fresh(chain: Option<Box<LayoutModel>>) -> bool
    decreases chain,
{
    match chain {
        None => true,
        Some(b) => b.size == no_size() && fresh(b.first_child) && fresh(b.next_sibling),
    }
}

/// The forest after the sizing pass below a box that is `parent_width` wide.
///
/// The children of a block are sized below its width, those of another box
/// below the width that the box had before the pass; the siblings of a box
/// are sized below the same width as the box. Then the box is sized itself.
pub open spec fn sized(chain: Option<Box<LayoutModel>>, parent_width: int) -> Option<
    Box<LayoutModel>,
>
    decreases chain,
{
    match chain {
        None => None,
        Some(b) => {
            let own_width = if b.kind == LayoutObjectKind::Block {
                parent_width
            } else {
                b.size.width as int
            };
            let around = LayoutModel {
                first_child: sized(b.first_child, own_width),
                next_sibling: sized(b.next_sibling, parent_width),
                ..*b
            };
            Some(
                Box::new(
                    LayoutModel {
                        size: LayoutSize {
                            width: around.computed_size(parent_width).0 as i64,
                            height: around.computed_size(parent_width).1 as i64,
                        },
                        ..around
                    },
                ),
            )
        },
    }
}

/// The forest after the positioning pass below a box at `parent_point`, when
/// the box before the forest has the given kind, place and size.
///
/// The children of a box are placed below it, the first of them as after a
/// block that is not there; the sibling of a box is placed below the same
/// parent, after the box.
pub open spec fn positioned(
    chain: Option<Box<LayoutModel>>,
    parent_point: LayoutPoint,
    previous_sibling_kind: LayoutObjectKind,
    previous_sibling_point: Option<LayoutPoint>,
    previous_sibling_size: Option<LayoutSize>,
) -> Option<Box<LayoutModel>>
    decreases chain,
{
    match chain {
        None => None,
        Some(b) => {
            let place = computed_point(
                b.kind,
                parent_point,
                previous_sibling_kind,
                previous_sibling_point,
                previous_sibling_size,
            );
            let point = LayoutPoint { x: place.0 as i64, y: place.1 as i64 };
            Some(
                Box::new(
                    LayoutModel {
                        point,
                        first_child: positioned(
                            b.first_child,
                            point,
                            LayoutObjectKind::Block,
                            None,
                            None,
                        ),
                        next_sibling: positioned(
                            b.next_sibling,
                            parent_point,
                            b.kind,
                            Some(point),
                            Some(b.size),
                        ),
                        ..*b
                    },
                ),
            )
        },
    }
}

/// What painting a forest yields: for each box what painting the box yields,
/// in document order.
pub open spec fn painted_chain(chain: Option<Box<LayoutModel>>) -> Seq<DisplayItemModel>
    decreases chain,
{
    match chain {
        None => Seq::empty(),
        Some(b) => b.painted() + painted_chain(b.first_child) + painted_chain(b.next_sibling),
    }
}

/// The layout tree of a document, sized and positioned: that of the forest
/// that starts at its first `body` element, in a content area of the fixed
/// width, from the origin.
pub open spec fn layout_tree(document: NodeModel, sheet: StyleSheetModel) -> Option<
    Box<LayoutModel>,
> {
    positioned(
        sized(
            layout_of(find_element(document.first_child, ElementKind::Body.name()), None, sheet),
            CONTENT_AREA_WIDTH as int,
        ),
        origin(),
        LayoutObjectKind::Block,
        None,
        None,
    )
}

/// The weight of a box with what is below it.
pub open spec fn box_weight(b: LayoutModel) -> nat {
    1 + text_length(b.node) + layout_weight(b.first_child)
}

/// Whether the sizes in a forest are as the sizing pass leaves them: none is
/// negative, no box is wider than the content area for each unit of its
/// weight, and none is higher than the tallest line for each unit.
pub open spec fn tidy(chain: Option<Box<LayoutModel>>) -> bool
    decreases chain,
{
    match chain {
        None => true,
        Some(b) => 0 <= b.size.width <= CONTENT_AREA_WIDTH * box_weight(*b) && 0 <= b.size.height
            <= 60 * box_weight(*b) && tidy(b.first_child) && tidy(b.next_sibling),
    }
}

/// Whether every box of a forest can be painted: its display is set, and its
/// lines can be placed in 64 bits.
pub open spec fn paintable(chain: Option<Box<LayoutModel>>) -> bool
    decreases chain,
{
    match chain {
        None => true,
        Some(b) => b.style.display is Some && b.paint_fits() && paintable(b.first_child)
            && paintable(b.next_sibling),
    }
}

/// Whether every box of a forest lies at or before the given coordinates.
pub open spec fn points_below(chain: Option<Box<LayoutModel>>, x: int, y: int) -> bool
    decreases chain,
{
    match chain {
        None => true,
        Some(b) => b.point.x <= x && b.point.y <= y && points_below(b.first_child, x, y)
            && points_below(b.next_sibling, x, y),
    }
}

/// How far to the right and how far down the box before a forest reaches, or
/// where the parent lies if there is no such box.
pub open spec fn reach(
    parent_point: LayoutPoint,
    previous_sibling_point: Option<LayoutPoint>,
    previous_sibling_size: Option<LayoutSize>,
) -> (int, int) {
    match (previous_sibling_size, previous_sibling_point) {
        (Some(size), Some(pos)) => (
            if pos.x + size.width > parent_point.x {
                pos.x + size.width
            } else {
                parent_point.x as int
            },
            if pos.y + size.height > parent_point.y {
                pos.y + size.height
            } else {
                parent_point.y as int
            },
        ),
        _ => (parent_point.x as int, parent_point.y as int),
    }
}

/// The layout tree of a forest is styled and fresh, and weighs no more than
/// the forest.
pub proof fn lemma_layout_of(
    chain: Option<Box<NodeModel>>,
    parent: Option<ComputedStyle>,
    sheet: StyleSheetModel,
)
    requires
        is_content(chain),
    ensures
        styled(layout_of(chain, parent, sheet)),
        fresh(layout_of(chain, parent, sheet)),
        layout_weight(layout_of(chain, parent, sheet)) <= dom_weight(chain),
    decreases chain,
{
    match chain {
        None => {},
        Some(n) => {
            lemma_layout_of(n.next_sibling, parent, sheet);
            match box_for(n.kind, parent, sheet) {
                None => {},
                Some(b) => {
                    lemma_layout_of(n.first_child, Some(b.style), sheet);
                },
            }
        },
    }
}

/// The part of a forest that starts at an element is content where the
/// forest is, and weighs no more than the forest.
pub proof fn lemma_find_element(chain: Option<Box<NodeModel>>, tag: Seq<char>)
    requires
        is_content(chain),
    ensures
        is_content(find_element(chain, tag)),
        dom_weight(find_element(chain, tag)) <= dom_weight(chain),
    decreases chain,
{
    match chain {
        None => {},
        Some(n) => {
            lemma_find_element(n.first_child, tag);
            lemma_find_element(n.next_sibling, tag);
        },
    }
}

/// Tidy sizes are not negative, and add up to no more than the weight of the
/// chain allows.
pub proof fn lemma_tidy(chain: Option<Box<LayoutModel>>)
    requires
        tidy(chain),
    ensures
        sizes_nonnegative(chain),
        0 <= widths_sum(chain) <= CONTENT_AREA_WIDTH * layout_weight(chain),
        0 <= heights_sum(chain) <= 60 * layout_weight(chain),
    decreases chain,
{
    match chain {
        None => {},
        Some(b) => {
            lemma_tidy(b.next_sibling);
            assert(CONTENT_AREA_WIDTH == 590);
        },
    }
}

/// Styled boxes that lie at or before a point from which the lines of the
/// heaviest of them can still be placed can be painted.
pub proof fn lemma_paintable(chain: Option<Box<LayoutModel>>, x: int, y: int, weight: int)
    requires
        styled(chain),
        points_below(chain, x, y),
        layout_weight(chain) <= weight,
        y + 60 * weight <= i64::MAX,
        60 * weight <= i64::MAX,
    ensures
        paintable(chain),
    decreases chain,
{
    match chain {
        None => {},
        Some(b) => {
            lemma_paintable(b.first_child, x, y, weight);
            lemma_paintable(b.next_sibling, x, y, weight);
        },
    }
}

/// The sums over a fresh chain are zero.
pub proof fn lemma_fresh(chain: Option<Box<LayoutModel>>)
    requires
        fresh(chain),
    ensures
        sizes_nonnegative(chain),
        widths_sum(chain) == 0,
        heights_sum(chain) == 0,
        forall|k: LayoutObjectKind| #[trigger] stacked_height(chain, k) == 0,
    decreases chain,
{
    match chain {
        None => {},
        Some(b) => {
            lemma_fresh(b.next_sibling);
            assert forall|k: LayoutObjectKind| #[trigger] stacked_height(chain, k) == 0 by {
                assert(stacked_height(b.next_sibling, b.kind) == 0);
            }
        },
    }
}

/// Finds the first box that a forest of nodes yields: the box, not yet
/// linked to others, and the place in the forest that holds its node.
pub fn find_next_box<'a>(
    node: &'a Option<Box<Node>>,
    parent_obj: Option<&LayoutObject>,
    cssom: &StyleSheet,
) -> (r: (Option<LayoutObject>, &'a Option<Box<Node>>))
    requires
        is_content(chain_model(*node)),
        parent_obj is Some ==> parent_obj->0.style.is_resolved(),
    ensures
        is_content(chain_model(*r.1)),
        node_count(chain_model(*r.1)) <= node_count(chain_model(*node)),
        layout_of(chain_model(*node), style_of(parent_obj), cssom@) == layout_of(
            chain_model(*r.1),
            style_of(parent_obj),
            cssom@,
        ),
        match *r.1 {
            None => r.0 is None,
            Some(n) => r.0 is Some && Some(r.0->0@) == box_for(
                n.kind@,
                style_of(parent_obj),
                cssom@,
            ) && r.0->0.style.is_resolved(),
        },
{
    let mut target_node = node;
    proof {
        lemma_content_head(*target_node);
    }
    let mut layout_object = create_layout_object(target_node, parent_obj, cssom);
    while layout_object.is_none() && target_node.is_some()
        invariant
            is_content(chain_model(*target_node)),
            node_count(chain_model(*target_node)) <= node_count(chain_model(*node)),
            parent_obj is Some ==> parent_obj->0.style.is_resolved(),
            layout_of(chain_model(*node), style_of(parent_obj), cssom@) == layout_of(
                chain_model(*target_node),
                style_of(parent_obj),
                cssom@,
            ),
            match *target_node {
                None => layout_object is None,
                Some(n) => match box_for(n.kind@, style_of(parent_obj), cssom@) {
                    Some(b) => layout_object is Some && layout_object->0@ == b
                        && layout_object->0.style.is_resolved(),
                    None => layout_object is None,
                },
            },
        decreases *target_node,
    {
        match target_node {
            Some(n) => {
                target_node = &n.next_sibling;
                proof {
                    lemma_content_head(*target_node);
                }
                layout_object = create_layout_object(target_node, parent_obj, cssom);
            },
            None => {},
        }
    }
    (layout_object, target_node)
}

/// The style of a box, if there is one.
pub open spec fn style_of(parent_obj: Option<&LayoutObject>) -> Option<ComputedStyle> {
    match parent_obj {
        Some(p) => Some(p.style),
        None => None,
    }
}

/// Builds the layout tree of a forest of nodes below the given box.
pub fn build_layout_tree(
    node: &Option<Box<Node>>,
    parent_obj: Option<&LayoutObject>,
    cssom: &StyleSheet,
) -> (r: Option<Box<LayoutObject>>)
    requires
        is_content(chain_model(*node)),
        parent_obj is Some ==> parent_obj->0.style.is_resolved(),
    ensures
        layout_model(r) == layout_of(chain_model(*node), style_of(parent_obj), cssom@),
    decreases node_count(chain_model(*node)),
{
    let (layout_object, target_node) = find_next_box(node, parent_obj, cssom);
    match target_node {
        Some(n) => {
            match layout_object {
                Some(mut obj) => {
                    let first_child = build_layout_tree(&n.first_child, Some(&obj), cssom);
                    let next_sibling = build_layout_tree(&n.next_sibling, parent_obj, cssom);
                    obj.set_first_child(first_child);
                    obj.set_next_sibling(next_sibling);
                    Some(Box::new(obj))
                },
                None => None,
            }
        },
        None => None,
    }
}

/// The first node of a forest of content is no document, and what it owns
/// is content.
proof fn lemma_content_head(chain: Option<Box<Node>>)
    requires
        is_content(chain_model(chain)),
    ensures
        chain is Some ==> !(chain->0.kind is Document) && is_content(
            chain_model(chain->0.first_child),
        ) && is_content(chain_model(chain->0.next_sibling)),
{
}

/// A run of text is at most as wide as the content area and at most as high
/// as one line of the largest size for each of its characters and one more.
pub proof fn lemma_text_size(text: Seq<char>, style: ComputedStyle)
    requires
        style.font_size is Some,
    ensures
        0 <= text_size(text, style).0 <= CONTENT_AREA_WIDTH,
        0 <= text_size(text, style).1 <= 60 * (text.len() + 1),
{
    let glyph = glyph_width(style);
    let line = line_height(style);
    let n = split_lines(text, glyph).len();
    lemma_line_count(text, glyph);
    assert(0 <= glyph * text.len()) by (nonlinear_arith)
        requires
            0 <= glyph,
            0 <= text.len(),
    ;
    assert(0 <= line * n <= 60 * n) by (nonlinear_arith)
        requires
            0 <= line <= 60,
            0 <= n,
    ;
}

/// Boxes that lie before some coordinates lie before all greater ones.
pub proof fn lemma_points_below(chain: Option<Box<LayoutModel>>, x1: int, y1: int, x2: int, y2: int)
    requires
        points_below(chain, x1, y1),
        x1 <= x2,
        y1 <= y2,
    ensures
        points_below(chain, x2, y2),
    decreases chain,
{
    match chain {
        None => {},
        Some(b) => {
            lemma_points_below(b.first_child, x1, y1, x2, y2);
            lemma_points_below(b.next_sibling, x1, y1, x2, y2);
        },
    }
}

/// Placing the boxes of a forest changes nothing but their places: the sizes
/// stay as they are, and tidy where they were.
pub proof fn lemma_positioned(
    chain: Option<Box<LayoutModel>>,
    parent_point: LayoutPoint,
    previous_sibling_kind: LayoutObjectKind,
    previous_sibling_point: Option<LayoutPoint>,
    previous_sibling_size: Option<LayoutSize>,
)
    ensures
        layout_weight(
            positioned(
                chain,
                parent_point,
                previous_sibling_kind,
                previous_sibling_point,
                previous_sibling_size,
            ),
        ) == layout_weight(chain),
        widths_sum(
            positioned(
                chain,
                parent_point,
                previous_sibling_kind,
                previous_sibling_point,
                previous_sibling_size,
            ),
        ) == widths_sum(chain),
        heights_sum(
            positioned(
                chain,
                parent_point,
                previous_sibling_kind,
                previous_sibling_point,
                previous_sibling_size,
            ),
        ) == heights_sum(chain),
        tidy(chain) ==> tidy(
            positioned(
                chain,
                parent_point,
                previous_sibling_kind,
                previous_sibling_point,
                previous_sibling_size,
            ),
        ),
    decreases chain,
{
    match chain {
        None => {},
        Some(b) => {
            let place = computed_point(
                b.kind,
                parent_point,
                previous_sibling_kind,
                previous_sibling_point,
                previous_sibling_size,
            );
            let point = LayoutPoint { x: place.0 as i64, y: place.1 as i64 };
            lemma_positioned(b.first_child, point, LayoutObjectKind::Block, None, None);
            lemma_positioned(b.next_sibling, parent_point, b.kind, Some(point), Some(b.size));
        },
    }
}

/// The sizing pass: gives every box of a forest its size, below a box of the
/// given size.
fn calculate_node_size(node: &mut Option<Box<LayoutObject>>, parent_size: LayoutSize)
    requires
        fresh(layout_model(*old(node))),
        styled(layout_model(*old(node))),
        0 <= parent_size.width <= CONTENT_AREA_WIDTH,
        layout_weight(layout_model(*old(node))) <= LAYOUT_LIMIT,
    ensures
        layout_model(*final(node)) == sized(layout_model(*old(node)), parent_size.width as int),
        tidy(layout_model(*final(node))),
        styled(layout_model(*final(node))),
        layout_weight(layout_model(*final(node))) == layout_weight(layout_model(*old(node))),
        box_count(layout_model(*final(node))) == box_count(layout_model(*old(node))),
    decreases box_count(layout_model(*old(node))),
{
    match node {
        None => {},
        Some(n) => {
            if n.kind() == LayoutObjectKind::Block {
                proof {
                    lemma_fresh(layout_model(n.first_child));
                }
                n.compute_size(parent_size);
            }
            let own_size = n.size();
            calculate_node_size(&mut n.first_child, own_size);
            calculate_node_size(&mut n.next_sibling, parent_size);
            proof {
                lemma_tidy(layout_model(n.first_child));
                lemma_sums_nonnegative(layout_model(n.first_child));
                assert(CONTENT_AREA_WIDTH == 590);
                assert(LAYOUT_LIMIT * 590 <= i64::MAX);
                match n.node@ {
                    NodeKindModel::Text(t) => {
                        lemma_text_size(t, n.style);
                    },
                    _ => {},
                }
            }
            n.compute_size(parent_size);
        },
    }
}

/// The positioning pass: gives every box of a forest its place, below a box
/// at `parent_point` and after a box of the given kind, place and size.
fn calculate_node_position(
    node: &mut Option<Box<LayoutObject>>,
    parent_point: LayoutPoint,
    previous_sibling_kind: LayoutObjectKind,
    previous_sibling_point: Option<LayoutPoint>,
    previous_sibling_size: Option<LayoutSize>,
)
    requires
        tidy(layout_model(*old(node))),
        previous_sibling_size is Some ==> 0 <= previous_sibling_size->0.width && 0
            <= previous_sibling_size->0.height,
        reach(parent_point, previous_sibling_point, previous_sibling_size).0 + CONTENT_AREA_WIDTH
            * layout_weight(layout_model(*old(node))) <= i64::MAX,
        reach(parent_point, previous_sibling_point, previous_sibling_size).1 + 60 * layout_weight(
            layout_model(*old(node)),
        ) <= i64::MAX,
    ensures
        layout_model(*final(node)) == positioned(
            layout_model(*old(node)),
            parent_point,
            previous_sibling_kind,
            previous_sibling_point,
            previous_sibling_size,
        ),
        points_below(
            layout_model(*final(node)),
            reach(parent_point, previous_sibling_point, previous_sibling_size).0
                + CONTENT_AREA_WIDTH * layout_weight(layout_model(*old(node))),
            reach(parent_point, previous_sibling_point, previous_sibling_size).1 + 60
                * layout_weight(layout_model(*old(node))),
        ),
        styled(layout_model(*old(node))) ==> styled(layout_model(*final(node))),
        layout_weight(layout_model(*final(node))) == layout_weight(layout_model(*old(node))),
        box_count(layout_model(*final(node))) == box_count(layout_model(*old(node))),
    decreases box_count(layout_model(*old(node))),
{
    match node {
        None => {},
        Some(n) => {
            let ghost far = reach(parent_point, previous_sibling_point, previous_sibling_size);
            let ghost below = layout_weight(layout_model(n.first_child));
            let ghost after = layout_weight(layout_model(n.next_sibling));
            let ghost whole = layout_weight(layout_model(*old(node)));
            proof {
                assert(CONTENT_AREA_WIDTH == 590);
                lemma_tidy(layout_model(n.first_child));
                lemma_tidy(layout_model(n.next_sibling));
            }
            n.compute_position(
                parent_point,
                previous_sibling_kind,
                previous_sibling_point,
                previous_sibling_size,
            );
            let point = n.point();
            let size = n.size();
            let kind = n.kind();
            calculate_node_position(
                &mut n.first_child,
                point,
                LayoutObjectKind::Block,
                None,
                None,
            );
            calculate_node_position(
                &mut n.next_sibling,
                parent_point,
                kind,
                Some(point),
                Some(size),
            );
            proof {
                lemma_points_below(
                    layout_model(n.first_child),
                    point.x + CONTENT_AREA_WIDTH * below,
                    point.y + 60 * below,
                    far.0 + CONTENT_AREA_WIDTH * whole,
                    far.1 + 60 * whole,
                );
                lemma_points_below(
                    layout_model(n.next_sibling),
                    reach(parent_point, Some(point), Some(size)).0 + CONTENT_AREA_WIDTH * after,
                    reach(parent_point, Some(point), Some(size)).1 + 60 * after,
                    far.0 + CONTENT_AREA_WIDTH * whole,
                    far.1 + 60 * whole,
                );
            }
        },
    }
}

/// Adds the paint instructions of a forest to a list, in document order.
fn paint_node(node: &Option<Box<LayoutObject>>, display_items: &mut Vec<DisplayItem>)
    requires
        paintable(layout_model(*node)),
    ensures
        items_model(final(display_items)@) == items_model(old(display_items)@) + painted_chain(
            layout_model(*node),
        ),
    decreases *node,
{
    match node {
        None => {
            assert(items_model(display_items@) + Seq::empty() =~= items_model(display_items@));
        },
        Some(n) => {
            let ghost start = items_model(display_items@);
            let mut own = n.paint();
            let ghost own_items = items_model(own@);
            display_items.append(&mut own);
            assert(items_model(display_items@) =~= start + own_items);
            paint_node(&n.first_child, display_items);
            paint_node(&n.next_sibling, display_items);
            assert(start + own_items + painted_chain(layout_model(n.first_child)) + painted_chain(
                layout_model(n.next_sibling),
            ) =~= start + (own_items + painted_chain(layout_model(n.first_child)) + painted_chain(
                layout_model(n.next_sibling),
            )));
        },
    }
}

/// The weight of a forest of nodes, or `cap` if that is less.
fn capped_weight(chain: &Option<Box<Node>>, cap: u64) -> (r: u64)
    requires
        cap <= 0x1000_0000_0000_0000,
    ensures
        r == if dom_weight(chain_model(*chain)) <= cap {
            dom_weight(chain_model(*chain))
        } else {
            cap as nat
        },
    decreases *chain,
{
    match chain {
        None => 0,
        Some(n) => {
            let length: u64 = match &n.kind {
                NodeKind::Text(t) => t.as_str().unicode_len() as u64,
                _ => 0,
            };
            if length >= cap {
                return cap;
            }
            let below = capped_weight(&n.first_child, cap);
            let after = capped_weight(&n.next_sibling, cap);
            let total = 1 + length + below + after;
            if total >= cap {
                cap
            } else {
                total
            }
        },
    }
}

/// Whether a document is light enough to be laid out.
pub fn within_layout_limit(root: &Node) -> (r: bool)
    ensures
        r == (dom_weight(root@.first_child) <= LAYOUT_LIMIT),
{
    capped_weight(&root.first_child, LAYOUT_LIMIT + 1) <= LAYOUT_LIMIT
}

/// The layout tree of a document, with every box sized and placed.
#[derive(Debug, PartialEq, Eq)]
pub struct LayoutView {
    pub root: Option<Box<LayoutObject>>,
}

impl LayoutView {
    /// Whether the view is as `new` makes it: every box styled, no box with
    /// a negative extent, and every box so placed that it can be painted
    /// within 64 bits.
    pub open spec fn well_formed(self) -> bool {
        &&& styled(layout_model(self.root))
        &&& tidy(layout_model(self.root))
        &&& paintable(layout_model(self.root))
    }

    /// Builds the layout tree of a document and lays it out.
    ///
    /// Only what starts at the first `body` element has boxes; there is no
    /// tree where the document has no such element.
    pub fn new(root: &Node, cssom: &StyleSheet) -> (view: Self)
        requires
            root@.is_document_root(),
            dom_weight(root@.first_child) <= LAYOUT_LIMIT,
        ensures
            layout_model(view.root) == layout_tree(root@, cssom@),
            view.well_formed(),
    {
        let body_root = get_target_element_node(&root.first_child, ElementKind::Body);
        proof {
            lemma_find_element(root@.first_child, ElementKind::Body.name());
            lemma_layout_of(chain_model(*body_root), None, cssom@);
        }
        let mut tree = Self { root: build_layout_tree(body_root, None, cssom) };
        tree.update_layout();
        tree
    }

    pub fn root(&self) -> (r: &Option<Box<LayoutObject>>)
        ensures
            *r == self.root,
    {
        &self.root
    }

    /// Runs the two passes over a tree that has not been laid out.
    fn update_layout(&mut self)
        requires
            fresh(layout_model(old(self).root)),
            styled(layout_model(old(self).root)),
            layout_weight(layout_model(old(self).root)) <= LAYOUT_LIMIT,
        ensures
            layout_model(final(self).root) == positioned(
                sized(layout_model(old(self).root), CONTENT_AREA_WIDTH as int),
                origin(),
                LayoutObjectKind::Block,
                None,
                None,
            ),
            final(self).well_formed(),
    {
        calculate_node_size(&mut self.root, LayoutSize::new(CONTENT_AREA_WIDTH, 0));
        let ghost weight = layout_weight(layout_model(self.root));
        proof {
            lemma_positioned(
                layout_model(self.root),
                origin(),
                LayoutObjectKind::Block,
                None,
                None,
            );
            assert(CONTENT_AREA_WIDTH == 590);
            assert(LAYOUT_LIMIT * 590 <= i64::MAX);
        }
        calculate_node_position(
            &mut self.root,
            LayoutPoint::new(0, 0),
            LayoutObjectKind::Block,
            None,
            None,
        );
        proof {
            lemma_paintable(
                layout_model(self.root),
                CONTENT_AREA_WIDTH * weight,
                60 * (weight as int),
                weight as int,
            );
        }
    }

    /// The paint instructions for the whole tree, in document order.
    pub fn paint(&self) -> (r: Vec<DisplayItem>)
        requires
            self.well_formed(),
        ensures
            items_model(r@) == painted_chain(layout_model(self.root)),
    {
        let mut display_items: Vec<DisplayItem> = Vec::new();
        assert(items_model(display_items@) =~= Seq::empty());
        paint_node(&self.root, &mut display_items);
        assert(Seq::<DisplayItemModel>::empty() + painted_chain(layout_model(self.root))
            =~= painted_chain(layout_model(self.root)));
        display_items
    }
}

/// A node that is not displayed has no box, and nothing below it has one: in
/// the layout of a forest, the boxes of the nodes that follow such a node
/// stand where its box would.
pub proof fn lemma_hidden_node(
    node: NodeModel,
    parent: Option<ComputedStyle>,
    sheet: StyleSheetModel,
)
    requires
        box_for(node.kind, parent, sheet) is None,
    ensures
        layout_of(Some(Box::new(node)), parent, sheet) == layout_of(
            node.next_sibling,
            parent,
            sheet,
        ),
{
}

} // verus!
