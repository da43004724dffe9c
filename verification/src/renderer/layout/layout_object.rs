//! A box of the layout tree: what it shows, how it is styled, where it lies.
//!
//! Like a node, a box owns its first child and its next sibling, so a box
//! together with what it owns is a forest.

use crate::constants::{BLACK, CHAR_HEIGHT_WITH_PADDING, CHAR_WIDTH, CONTENT_AREA_WIDTH, WHITE};
use crate::display_item::{items_model, DisplayItem, DisplayItemModel};
use crate::renderer::css::cssom::{
    declarations_model, rules_model, ComponentValue, Declaration, DeclarationModel,
    QualifiedRuleModel, Selector, SelectorModel, StyleSheet, StyleSheetModel,
};
use crate::renderer::css::token::CssTokenModel;
use crate::renderer::dom::node::{ElementModel, Node, NodeKind, NodeKindModel};
use crate::renderer::html::attribute::{has_attribute, has_attribute_with};
use crate::renderer::layout::computed_style::{
    color_of_code, color_of_name, defaulted, display_of_name, Color, ComputedStyle, DisplayType,
};
use crate::renderer::layout::line_break::{
    collapse, collapse_whitespace, lemma_collapse_length, lemma_line_count, lines_model,
    split_lines, split_text,
};
use crate::text::str_is;
use vstd::prelude::*;

verus! {

#[derive(Debug, Clone, Copy, PartialEq, Eq, Structural)]
pub struct LayoutPoint {
    pub x: i64,
    pub y: i64,
}

impl LayoutPoint {
    pub fn new(x: i64, y: i64) -> (p: Self)
        ensures
            p == (LayoutPoint { x, y }),
    {
        Self { x, y }
    }

    pub fn x(&self) -> (r: i64)
        ensures
            r == self.x,
    {
        self.x
    }

    pub fn y(&self) -> (r: i64)
        ensures
            r == self.y,
    {
        self.y
    }

    pub fn set_x(&mut self, x: i64)
        ensures
            *final(self) == (LayoutPoint { x, y: old(self).y }),
    {
        self.x = x;
    }

    pub fn set_y(&mut self, y: i64)
        ensures
            *final(self) == (LayoutPoint { x: old(self).x, y }),
    {
        self.y = y;
    }
}

/// The width and the height of a box. Neither is negative in a box that has
/// been laid out.
#[derive(Debug, Clone, Copy, PartialEq, Eq, Structural)]
pub struct LayoutSize {
    pub width: i64,
    pub height: i64,
}

impl LayoutSize {
    pub fn new(width: i64, height: i64) -> (s: Self)
        ensures
            s == (LayoutSize { width, height }),
    {
        Self { width, height }
    }

    pub fn width(&self) -> (r: i64)
        ensures
            r == self.width,
    {
        self.width
    }

    pub fn height(&self) -> (r: i64)
        ensures
            r == self.height,
    {
        self.height
    }

    pub fn set_width(&mut self, width: i64)
        ensures
            *final(self) == (LayoutSize { width, height: old(self).height }),
    {
        self.width = width;
    }

    pub fn set_height(&mut self, height: i64)
        ensures
            *final(self) == (LayoutSize { width: old(self).width, height }),
    {
        self.height = height;
    }
}

/// How a box flows: stacked, within a line, or as a run of text.
#[derive(Debug, Clone, Copy, PartialEq, Eq, Structural)]
pub enum LayoutObjectKind {
    Block,
    Inline,
    Text,
}

/// A box with the forest it owns.
///
/// The width and the height of a box are never negative: a new box has
/// neither, and layout gives every box a width and a height of at least 0.
/// The functions that add the sizes of boxes up ask for that.
#[derive(Debug, PartialEq, Eq)]
pub struct LayoutObject {
    pub kind: LayoutObjectKind,
    pub node: NodeKind,
    pub first_child: Option<Box<LayoutObject>>,
    pub next_sibling: Option<Box<LayoutObject>>,
    pub style: ComputedStyle,
    pub point: LayoutPoint,
    pub size: LayoutSize,
}

pub struct LayoutModel {
    pub kind: LayoutObjectKind,
    pub node: NodeKindModel,
    pub first_child: Option<Box<LayoutModel>>,
    pub next_sibling: Option<Box<LayoutModel>>,
    pub style: ComputedStyle,
    pub point: LayoutPoint,
    pub size: LayoutSize,
}

/// The model of a chain of boxes: of its first box, which holds the rest.
pub open spec fn layout_model(chain: Option<Box<LayoutObject>>) -> Option<Box<LayoutModel>>
    decreases chain,
{
    match chain {
        None => None,
        Some(b) => Some(
            Box::new(
                LayoutModel {
                    kind: b.kind,
                    node: b.node@,
                    first_child: layout_model(b.first_child),
                    next_sibling: layout_model(b.next_sibling),
                    style: b.style,
                    point: b.point,
                    size: b.size,
                },
            ),
        ),
    }
}

impl View for LayoutObject {
    type V = LayoutModel;

    open spec fn view(&self) -> LayoutModel {
        LayoutModel {
            kind: self.kind,
            node: self.node@,
            first_child: layout_model(self.first_child),
            next_sibling: layout_model(self.next_sibling),
            style: self.style,
            point: self.point,
            size: self.size,
        }
    }
}

/// Whether a selector matches a node.
///
/// Only elements are matched: by a type selector with their tag name, by a
/// class or id selector that is, as a whole, the value of one of their `class`
/// or `id` attributes.
pub open spec fn selects(selector: SelectorModel, kind: NodeKindModel) -> bool {
    match kind {
        NodeKindModel::Element(e) => match selector {
            SelectorModel::TypeSelector(name) => e.tag == name,
            SelectorModel::ClassSelector(name) => has_attribute(e.attributes, "class"@, name),
            SelectorModel::IdSelector(name) => has_attribute(e.attributes, "id"@, name),
            SelectorModel::UnknownSelector => false,
        },
        _ => false,
    }
}

/// The colour that a value names, or `fallback` where it names none that is
/// known; `None` where the value is neither an identifier nor a hash token.
pub open spec fn color_value(value: CssTokenModel, fallback: u32) -> Option<Color> {
    match value {
        CssTokenModel::Ident(name) => Some(
            Color {
                code: match color_of_name(name) {
                    Some(c) => c,
                    None => fallback,
                },
            },
        ),
        CssTokenModel::HashToken(code) => Some(
            Color {
                code: match color_of_code(code) {
                    Some(c) => c,
                    None => fallback,
                },
            },
        ),
        _ => None,
    }
}

/// The style after one declaration has been applied to it.
///
/// `background-color`, `color` and `display` are the properties that count. An
/// unknown colour is white for the background and black for the text; an
/// unknown display is none.
pub open spec fn apply_declaration(style: ComputedStyle, d: DeclarationModel) -> ComputedStyle {
    if d.property == "background-color"@ {
        match color_value(d.value, WHITE) {
            Some(c) => ComputedStyle { background_color: Some(c), ..style },
            None => style,
        }
    } else if d.property == "color"@ {
        match color_value(d.value, BLACK) {
            Some(c) => ComputedStyle { color: Some(c), ..style },
            None => style,
        }
    } else if d.property == "display"@ {
        match d.value {
            CssTokenModel::Ident(name) => ComputedStyle {
                display: Some(
                    match display_of_name(name) {
                        Some(display) => display,
                        None => DisplayType::DisplayNone,
                    },
                ),
                ..style
            },
            _ => style,
        }
    } else {
        style
    }
}

/// The style after the declarations have been applied in order.
pub open spec fn cascade(style: ComputedStyle, declarations: Seq<DeclarationModel>) -> ComputedStyle
    decreases declarations.len(),
{
    if declarations.len() == 0 {
        style
    } else {
        apply_declaration(cascade(style, declarations.drop_last()), declarations.last())
    }
}

/// The style in which no property is set.
pub open spec fn unset_style() -> ComputedStyle {
    ComputedStyle {
        background_color: None,
        color: None,
        display: None,
        font_size: None,
        text_decoration: None,
        height: None,
        width: None,
    }
}

/// The style that the rules give a node: those that match it are applied in
/// the order written, so that a later one overrides an earlier one.
pub open spec fn cascaded(kind: NodeKindModel, rules: Seq<QualifiedRuleModel>) -> ComputedStyle
    decreases rules.len(),
{
    if rules.len() == 0 {
        unset_style()
    } else {
        let before = cascaded(kind, rules.drop_last());
        if selects(rules.last().selector, kind) {
            cascade(before, rules.last().declarations)
        } else {
            before
        }
    }
}

/// The resolved style of a node under a stylesheet, below a box with the
/// given style.
pub open spec fn box_style(
    kind: NodeKindModel,
    parent: Option<ComputedStyle>,
    sheet: StyleSheetModel,
) -> ComputedStyle {
    defaulted(cascaded(kind, sheet.rules), kind, parent)
}

/// The kind of the box of a node with a resolved style.
pub open spec fn box_kind(kind: NodeKindModel, style: ComputedStyle) -> LayoutObjectKind {
    match kind {
        NodeKindModel::Text(_) => LayoutObjectKind::Text,
        _ => if style.display == Some(DisplayType::Inline) {
            LayoutObjectKind::Inline
        } else {
            LayoutObjectKind::Block
        },
    }
}

pub open spec fn origin() -> LayoutPoint {
    LayoutPoint { x: 0, y: 0 }
}

pub open spec fn no_size() -> LayoutSize {
    LayoutSize { width: 0, height: 0 }
}

/// The box of a node, without children and siblings and not yet laid out;
/// `None` where the node is not displayed.
pub open spec fn box_for(
    kind: NodeKindModel,
    parent: Option<ComputedStyle>,
    sheet: StyleSheetModel,
) -> Option<LayoutModel> {
    let style = box_style(kind, parent, sheet);
    if style.display == Some(DisplayType::DisplayNone) {
        None
    } else {
        Some(
            LayoutModel {
                kind: box_kind(kind, style),
                node: kind,
                first_child: None,
                next_sibling: None,
                style,
                point: origin(),
                size: no_size(),
            },
        )
    }
}

/// The sum of the widths of the boxes of a chain.
pub open spec fn widths_sum(chain: Option<Box<LayoutModel>>) -> int
    decreases chain,
{
    match chain {
        None => 0,
        Some(b) => b.size.width + widths_sum(b.next_sibling),
    }
}

/// The sum of the heights of the boxes of a chain.
pub open spec fn heights_sum(chain: Option<Box<LayoutModel>>) -> int
    decreases chain,
{
    match chain {
        None => 0,
        Some(b) => b.size.height + heights_sum(b.next_sibling),
    }
}

/// The height of a chain of boxes stacked in a block when the box before the
/// chain has the kind `previous`: a box adds its height if it or the box
/// before it is a block; boxes that follow one another in a line do not.
pub open spec fn stacked_height(chain: Option<Box<LayoutModel>>, previous: LayoutObjectKind) -> int
    decreases chain,
{
    match chain {
        None => 0,
        Some(b) => (if previous == LayoutObjectKind::Block || b.kind == LayoutObjectKind::Block {
            b.size.height as int
        } else {
            0
        }) + stacked_height(b.next_sibling, b.kind),
    }
}

/// Whether no box of a chain has a negative width or height.
pub open spec fn sizes_nonnegative(chain: Option<Box<LayoutModel>>) -> bool
    decreases chain,
{
    match chain {
        None => true,
        Some(b) => 0 <= b.size.width && 0 <= b.size.height && sizes_nonnegative(b.next_sibling),
    }
}

/// The width of a font's glyph.
pub open spec fn glyph_width(style: ComputedStyle) -> int {
    CHAR_WIDTH * (style.font_size->0).spec_ratio()
}

/// The height of a font's line.
pub open spec fn line_height(style: ComputedStyle) -> int {
    CHAR_HEIGHT_WITH_PADDING * (style.font_size->0).spec_ratio()
}

/// The width and the height of a run of text: those of one line where the
/// text fits the content area, else the width of that area and the height of
/// the lines into which the text is broken.
pub open spec fn text_size(text: Seq<char>, style: ComputedStyle) -> (int, int) {
    let width = glyph_width(style) * text.len();
    if width > CONTENT_AREA_WIDTH {
        (
            CONTENT_AREA_WIDTH as int,
            line_height(style) * split_lines(text, glyph_width(style)).len(),
        )
    } else {
        (width, line_height(style))
    }
}

impl LayoutModel {
    /// The width and the height of the box, from its kind, the width of its
    /// parent and the sizes of its children.
    pub open spec fn computed_size(self, parent_width: int) -> (int, int) {
        match self.kind {
            LayoutObjectKind::Block => (
                parent_width,
                stacked_height(self.first_child, LayoutObjectKind::Block),
            ),
            LayoutObjectKind::Inline => (
                widths_sum(self.first_child),
                heights_sum(self.first_child),
            ),
            LayoutObjectKind::Text => match self.node {
                NodeKindModel::Text(t) => text_size(t, self.style),
                _ => (0, 0),
            },
        }
    }

    /// Whether the size of the box can be computed in 64 bits.
    pub open spec fn size_fits(self, parent_width: int) -> bool {
        &&& sizes_nonnegative(self.first_child)
        &&& self.kind == LayoutObjectKind::Inline ==> widths_sum(self.first_child) <= i64::MAX
            && heights_sum(self.first_child) <= i64::MAX
        &&& self.kind == LayoutObjectKind::Block ==> heights_sum(self.first_child) <= i64::MAX
        &&& self.kind == LayoutObjectKind::Text ==> self.style.font_size is Some && (
        self.node matches NodeKindModel::Text(t) ==> 60 * (t.len() + 1) <= i64::MAX)
    }

    /// Whether the lines of the box, if it is a run of text, can be placed in
    /// 64 bits.
    pub open spec fn paint_fits(self) -> bool {
        self.kind == LayoutObjectKind::Text ==> self.style.font_size is Some && (
        self.node matches NodeKindModel::Text(t) ==> 60 * (t.len() + 1) <= i64::MAX
            && self.point.y + 60 * (t.len() + 1) <= i64::MAX)
    }

    /// What painting the box itself yields: a rectangle for a block over an
    /// element, one line of text after the other for a run of text, nothing
    /// for an inline box.
    pub open spec fn painted(self) -> Seq<DisplayItemModel> {
        if self.style.display == Some(DisplayType::DisplayNone) {
            Seq::empty()
        } else {
            match self.kind {
                LayoutObjectKind::Block => if self.node is Element {
                    seq![
                        DisplayItemModel::Rect {
                            style: self.style,
                            layout_point: self.point,
                            layout_size: self.size,
                        },
                    ]
                } else {
                    Seq::empty()
                },
                LayoutObjectKind::Inline => Seq::empty(),
                LayoutObjectKind::Text => match self.node {
                    NodeKindModel::Text(t) => text_items(
                        split_lines(collapse(t), glyph_width(self.style)),
                        self.style,
                        self.point,
                    ),
                    _ => Seq::empty(),
                },
            }
        }
    }
}

/// One text item for each line, each a line's height below the one before.
pub open spec fn text_items(
    lines: Seq<Seq<char>>,
    style: ComputedStyle,
    point: LayoutPoint,
) -> Seq<DisplayItemModel> {
    Seq::new(
        lines.len(),
        |i: int|
            DisplayItemModel::Text {
                text: lines[i],
                style,
                layout_point: LayoutPoint {
                    x: point.x,
                    y: (point.y + i * line_height(style)) as i64,
                },
            },
    )
}

/// Where a box lies, from its kind, the place of its parent and the kind,
/// place and size of the sibling before it.
///
/// A block, and a box after a block, starts a new line below the sibling, or
/// at the top of the parent where there is no sibling. An inline box after an
/// inline box goes on to the right of it. Every other box lies where its
/// parent does.
pub open spec fn computed_point(
    kind: LayoutObjectKind,
    parent_point: LayoutPoint,
    previous_sibling_kind: LayoutObjectKind,
    previous_sibling_point: Option<LayoutPoint>,
    previous_sibling_size: Option<LayoutSize>,
) -> (int, int) {
    if kind == LayoutObjectKind::Block || previous_sibling_kind == LayoutObjectKind::Block {
        match (previous_sibling_size, previous_sibling_point) {
            (Some(size), Some(pos)) => (parent_point.x as int, pos.y + size.height),
            _ => (parent_point.x as int, parent_point.y as int),
        }
    } else if kind == LayoutObjectKind::Inline && previous_sibling_kind
        == LayoutObjectKind::Inline {
        match (previous_sibling_size, previous_sibling_point) {
            (Some(size), Some(pos)) => (pos.x + size.width, pos.y as int),
            _ => (parent_point.x as int, parent_point.y as int),
        }
    } else {
        (parent_point.x as int, parent_point.y as int)
    }
}

pub open spec fn fits_i64(v: int) -> bool {
    i64::MIN <= v <= i64::MAX
}

/// A copy of a list of declarations.
pub fn clone_declarations(declarations: &Vec<Declaration>) -> (r: Vec<Declaration>)
    ensures
        declarations_model(r@) == declarations_model(declarations@),
{
    let mut r: Vec<Declaration> = Vec::new();
    let mut i: usize = 0;
    while i < declarations.len()
        invariant
            i <= declarations.len(),
            r.len() == i,
            forall|j: int| 0 <= j < i ==> r[j]@ == declarations[j]@,
        decreases declarations.len() - i,
    {
        r.push(declarations[i].clone());
        i += 1;
    }
    assert(declarations_model(r@) =~= declarations_model(declarations@));
    r
}

fn color_from(value: &ComponentValue, fallback: Color) -> (r: Option<Color>)
    ensures
        r == color_value(value@, fallback.code),
{
    match value {
        ComponentValue::Ident(name) => Some(
            match Color::from_name(name) {
                Ok(color) => color,
                Err(_) => fallback,
            },
        ),
        ComponentValue::HashToken(code) => Some(
            match Color::from_code(code) {
                Ok(color) => color,
                Err(_) => fallback,
            },
        ),
        _ => None,
    }
}

fn apply(style: &mut ComputedStyle, declaration: &Declaration)
    ensures
        *final(style) == apply_declaration(*old(style), declaration@),
{
    if str_is(&declaration.property, "background-color") {
        match color_from(&declaration.value, Color::white()) {
            Some(color) => style.set_background_color(color),
            None => {},
        }
    } else if str_is(&declaration.property, "color") {
        match color_from(&declaration.value, Color::black()) {
            Some(color) => style.set_color(color),
            None => {},
        }
    } else if str_is(&declaration.property, "display") {
        match &declaration.value {
            ComponentValue::Ident(value) => {
                let display_type = match DisplayType::from_str(value) {
                    Ok(display_type) => display_type,
                    Err(_) => DisplayType::DisplayNone,
                };
                style.set_display(display_type);
            },
            _ => {},
        }
    }
}

impl LayoutObject {
    /// A block for the node, with an unset style, at the origin, without
    /// extent, children or siblings.
    pub fn new(node: NodeKind) -> (r: Self)
        ensures
            r@ == (LayoutModel {
                kind: LayoutObjectKind::Block,
                node: node@,
                first_child: None,
                next_sibling: None,
                style: unset_style(),
                point: origin(),
                size: no_size(),
            }),
    {
        Self {
            kind: LayoutObjectKind::Block,
            node,
            first_child: None,
            next_sibling: None,
            style: ComputedStyle::new(),
            point: LayoutPoint::new(0, 0),
            size: LayoutSize::new(0, 0),
        }
    }

    pub fn kind(&self) -> (r: LayoutObjectKind)
        ensures
            r == self.kind,
    {
        self.kind
    }

    pub fn node_kind(&self) -> (r: NodeKind)
        ensures
            r@ == self@.node,
    {
        self.node.clone()
    }

    pub fn set_first_child(&mut self, first_child: Option<Box<LayoutObject>>)
        ensures
            final(self)@ == (LayoutModel { first_child: layout_model(first_child), ..old(self)@ }),
    {
        self.first_child = first_child;
    }

    pub fn first_child(&self) -> (r: &Option<Box<LayoutObject>>)
        ensures
            *r == self.first_child,
    {
        &self.first_child
    }

    pub fn set_next_sibling(&mut self, next_sibling: Option<Box<LayoutObject>>)
        ensures
            final(self)@ == (LayoutModel {
                next_sibling: layout_model(next_sibling),
                ..old(self)@
            }),
    {
        self.next_sibling = next_sibling;
    }

    pub fn next_sibling(&self) -> (r: &Option<Box<LayoutObject>>)
        ensures
            *r == self.next_sibling,
    {
        &self.next_sibling
    }

    pub fn style(&self) -> (r: ComputedStyle)
        ensures
            r == self.style,
    {
        self.style
    }

    pub fn point(&self) -> (r: LayoutPoint)
        ensures
            r == self.point,
    {
        self.point
    }

    pub fn size(&self) -> (r: LayoutSize)
        ensures
            r == self.size,
    {
        self.size
    }

    /// Whether the selector matches the node of the box.
    pub fn is_node_selected(&self, selector: &Selector) -> (r: bool)
        ensures
            r == selects(selector@, self@.node),
    {
        match &self.node {
            NodeKind::Element(e) => match selector {
                Selector::TypeSelector(tag_name) => e.tag == *tag_name,
                Selector::ClassSelector(class_name) => has_attribute_with(
                    &e.attributes,
                    "class",
                    class_name,
                ),
                Selector::IdSelector(id_name) => has_attribute_with(&e.attributes, "id", id_name),
                Selector::UnknownSelector => false,
            },
            _ => false,
        }
    }

    /// Applies the declarations to the style of the box, in order.
    pub fn cascading_style(&mut self, declarations: Vec<Declaration>)
        ensures
            final(self)@ == (LayoutModel {
                style: cascade(old(self)@.style, declarations_model(declarations@)),
                ..old(self)@
            }),
    {
        let ghost model = declarations_model(declarations@);
        let ghost start = self.style;
        let mut i: usize = 0;
        while i < declarations.len()
            invariant
                i <= declarations.len(),
                model == declarations_model(declarations@),
                self.style == cascade(start, model.take(i as int)),
                self@ == (LayoutModel { style: self.style, ..old(self)@ }),
            decreases declarations.len() - i,
        {
            assert(model.take(i + 1).drop_last() =~= model.take(i as int));
            assert(model[i as int] == declarations[i as int]@);
            apply(&mut self.style, &declarations[i]);
            i += 1;
        }
        assert(model.take(i as int) =~= model);
    }

    /// Gives every property of the style that is still unset its value.
    pub fn defaulting_style(&mut self, node: &NodeKind, parent_style: Option<ComputedStyle>)
        requires
            parent_style is Some ==> (parent_style->0).is_resolved(),
        ensures
            final(self)@ == (LayoutModel {
                style: defaulted(old(self)@.style, node@, parent_style),
                ..old(self)@
            }),
            final(self).style.is_resolved(),
    {
        self.style.defaulting(node, parent_style);
    }

    /// Sets the kind of the box from its node and its display.
    pub fn update_kind(&mut self)
        requires
            !(old(self).node is Document),
            old(self).style.display is Some,
            old(self).style.display != Some(DisplayType::DisplayNone),
        ensures
            final(self)@ == (LayoutModel {
                kind: box_kind(old(self)@.node, old(self)@.style),
                ..old(self)@
            }),
    {
        match &self.node {
            NodeKind::Text(_) => {
                self.kind = LayoutObjectKind::Text;
            },
            _ => {
                let display = self.style.display();
                match display {
                    DisplayType::Inline => {
                        self.kind = LayoutObjectKind::Inline;
                    },
                    _ => {
                        self.kind = LayoutObjectKind::Block;
                    },
                }
            },
        }
    }

    /// Computes the size of the box from the sizes of its children.
    pub fn compute_size(&mut self, parent_size: LayoutSize)
        requires
            old(self)@.size_fits(parent_size.width as int),
        ensures
            final(self)@ == (LayoutModel {
                size: LayoutSize {
                    width: old(self)@.computed_size(parent_size.width as int).0 as i64,
                    height: old(self)@.computed_size(parent_size.width as int).1 as i64,
                },
                ..old(self)@
            }),
            fits_i64(old(self)@.computed_size(parent_size.width as int).0),
            fits_i64(old(self)@.computed_size(parent_size.width as int).1),
    {
        let mut size = LayoutSize::new(0, 0);
        match self.kind {
            LayoutObjectKind::Block => {
                size.set_width(parent_size.width());
                let mut height: i64 = 0;
                let mut child = &self.first_child;
                let mut previous_child_kind = LayoutObjectKind::Block;
                let ghost children = layout_model(self.first_child);
                while child.is_some()
                    invariant
                        sizes_nonnegative(layout_model(*child)),
                        0 <= height,
                        height + heights_sum(layout_model(*child)) <= i64::MAX,
                        stacked_height(children, LayoutObjectKind::Block) == height
                            + stacked_height(layout_model(*child), previous_child_kind),
                    decreases *child,
                {
                    match child {
                        Some(c) => {
                            proof {
                                lemma_sums_nonnegative(layout_model(c.next_sibling));
                            }
                            if previous_child_kind == LayoutObjectKind::Block || c.kind
                                == LayoutObjectKind::Block {
                                height += c.size.height();
                            }
                            previous_child_kind = c.kind;
                            child = &c.next_sibling;
                        },
                        None => {},
                    }
                }
                size.set_height(height);
            },
            LayoutObjectKind::Inline => {
                let mut width: i64 = 0;
                let mut height: i64 = 0;
                let mut child = &self.first_child;
                let ghost children = layout_model(self.first_child);
                while child.is_some()
                    invariant
                        sizes_nonnegative(layout_model(*child)),
                        0 <= height,
                        0 <= width,
                        widths_sum(children) == width + widths_sum(layout_model(*child)),
                        heights_sum(children) == height + heights_sum(layout_model(*child)),
                        widths_sum(children) <= i64::MAX,
                        heights_sum(children) <= i64::MAX,
                    decreases *child,
                {
                    match child {
                        Some(c) => {
                            proof {
                                lemma_sums_nonnegative(layout_model(c.next_sibling));
                            }
                            width += c.size.width();
                            height += c.size.height();
                            child = &c.next_sibling;
                        },
                        None => {},
                    }
                }
                size.set_width(width);
                size.set_height(height);
            },
            LayoutObjectKind::Text => {
                match &self.node {
                    NodeKind::Text(t) => {
                        let ratio = self.style.font_size().ratio();
                        let length = t.as_str().unicode_len();
                        proof {
                            lemma_line_count(t@, glyph_width(self.style));
                        }
                        let glyph: i64 = CHAR_WIDTH * ratio;
                        let line: i64 = CHAR_HEIGHT_WITH_PADDING * ratio;
                        assert(glyph * length <= 24 * length) by (nonlinear_arith)
                            requires
                                0 <= glyph <= 24,
                                0 <= length,
                        ;
                        let width = glyph * (length as i64);
                        if width > CONTENT_AREA_WIDTH {
                            size.set_width(CONTENT_AREA_WIDTH);
                            let lines = split_text(t.clone(), glyph);
                            let line_num = lines.len();
                            assert(line_num == split_lines(t@, glyph_width(self.style)).len()) by {
                                assert(lines_model(lines@).len() == lines@.len());
                            }
                            assert(0 <= line * line_num <= 60 * line_num) by (nonlinear_arith)
                                requires
                                    0 <= line <= 60,
                                    0 <= line_num,
                            ;
                            size.set_height(line * (line_num as i64));
                        } else {
                            size.set_width(width);
                            size.set_height(CHAR_HEIGHT_WITH_PADDING * ratio);
                        }
                    },
                    _ => {},
                }
            },
        }
        self.size = size;
    }

    /// Computes the place of the box.
    pub fn compute_position(
        &mut self,
        parent_point: LayoutPoint,
        previous_sibling_kind: LayoutObjectKind,
        previous_sibling_point: Option<LayoutPoint>,
        previous_sibling_size: Option<LayoutSize>,
    )
        requires
            fits_i64(
                computed_point(
                    old(self).kind,
                    parent_point,
                    previous_sibling_kind,
                    previous_sibling_point,
                    previous_sibling_size,
                ).0,
            ),
            fits_i64(
                computed_point(
                    old(self).kind,
                    parent_point,
                    previous_sibling_kind,
                    previous_sibling_point,
                    previous_sibling_size,
                ).1,
            ),
        ensures
            final(self)@ == (LayoutModel {
                point: LayoutPoint {
                    x: computed_point(
                        old(self).kind,
                        parent_point,
                        previous_sibling_kind,
                        previous_sibling_point,
                        previous_sibling_size,
                    ).0 as i64,
                    y: computed_point(
                        old(self).kind,
                        parent_point,
                        previous_sibling_kind,
                        previous_sibling_point,
                        previous_sibling_size,
                    ).1 as i64,
                },
                ..old(self)@
            }),
    {
        let mut point = LayoutPoint::new(0, 0);
        if self.kind == LayoutObjectKind::Block || previous_sibling_kind
            == LayoutObjectKind::Block {
            match (previous_sibling_size, previous_sibling_point) {
                (Some(size), Some(pos)) => {
                    point.set_y(pos.y() + size.height());
                },
                _ => {
                    point.set_y(parent_point.y());
                },
            }
            point.set_x(parent_point.x());
        } else if self.kind == LayoutObjectKind::Inline && previous_sibling_kind
            == LayoutObjectKind::Inline {
            match (previous_sibling_size, previous_sibling_point) {
                (Some(size), Some(pos)) => {
                    point.set_x(pos.x() + size.width());
                    point.set_y(pos.y());
                },
                _ => {
                    point.set_x(parent_point.x());
                    point.set_y(parent_point.y());
                },
            }
        } else {
            point.set_x(parent_point.x());
            point.set_y(parent_point.y());
        }
        self.point = point;
    }

    /// The paint instructions for the box itself.
    pub fn paint(&self) -> (r: Vec<DisplayItem>)
        requires
            self.style.display is Some,
            self@.paint_fits(),
        ensures
            items_model(r@) == self@.painted(),
    {
        let mut v: Vec<DisplayItem> = Vec::new();
        assert(items_model(v@) =~= Seq::empty());
        if self.style.display() == DisplayType::DisplayNone {
            return v;
        }
        match self.kind {
            LayoutObjectKind::Block => {
                match &self.node {
                    NodeKind::Element(_e) => {
                        v.push(
                            DisplayItem::Rect {
                                style: self.style(),
                                layout_point: self.point(),
                                layout_size: self.size(),
                            },
                        );
                        assert(items_model(v@) =~= self@.painted());
                    },
                    _ => {},
                }
            },
            LayoutObjectKind::Inline => {},
            LayoutObjectKind::Text => {
                match &self.node {
                    NodeKind::Text(t) => {
                        let ratio = self.style.font_size().ratio();
                        let plain_text = collapse_whitespace(t);
                        let lines = split_text(plain_text, CHAR_WIDTH * ratio);
                        let ghost parts = split_lines(collapse(t@), glyph_width(self.style));
                        proof {
                            lemma_collapse_length(t@, 0);
                            lemma_line_count(collapse(t@), glyph_width(self.style));
                            assert(lines_model(lines@).len() == lines@.len());
                        }
                        let mut i: usize = 0;
                        while i < lines.len()
                            invariant
                                i <= lines.len(),
                                1 <= ratio <= 3,
                                ratio == (self.style.font_size->0).spec_ratio(),
                                parts == lines_model(lines@),
                                parts.len() == lines.len(),
                                parts.len() <= t@.len() + 1,
                                self.point.y + 60 * (t@.len() + 1) <= i64::MAX,
                                60 * (t@.len() + 1) <= i64::MAX,
                                items_model(v@) =~= text_items(parts, self.style, self.point).take(
                                    i as int,
                                ),
                            decreases lines.len() - i,
                        {
                            let ghost before = items_model(v@);
                            let line: i64 = CHAR_HEIGHT_WITH_PADDING * ratio;
                            assert(0 <= i * line <= 60 * i) by (nonlinear_arith)
                                requires
                                    0 <= line <= 60,
                                    0 <= i,
                            ;
                            let offset: i64 = (i as i64) * line;
                            let item = DisplayItem::Text {
                                text: lines[i].clone(),
                                style: self.style(),
                                layout_point: LayoutPoint::new(
                                    self.point().x(),
                                    self.point().y() + offset,
                                ),
                            };
                            proof {
                                assert(parts[i as int] == lines[i as int]@);
                                assert(item@ == text_items(
                                    parts,
                                    self.style,
                                    self.point,
                                )[i as int]);
                            }
                            v.push(item);
                            proof {
                                assert(items_model(v@) =~= before.push(item@));
                            }
                            i += 1;
                        }
                        assert(text_items(parts, self.style, self.point).take(i as int)
                            =~= text_items(parts, self.style, self.point));
                    },
                    _ => {},
                }
            },
        }
        v
    }
}

/// The sums over a chain of boxes without negative sizes are not negative,
/// and the height of the chain stacked is at most the sum of its heights.
pub proof fn lemma_sums_nonnegative(chain: Option<Box<LayoutModel>>)
    requires
        sizes_nonnegative(chain),
    ensures
        0 <= widths_sum(chain),
        0 <= heights_sum(chain),
        forall|k: LayoutObjectKind| 0 <= #[trigger] stacked_height(chain, k) <= heights_sum(chain),
    decreases chain,
{
    match chain {
        None => {},
        Some(b) => {
            lemma_sums_nonnegative(b.next_sibling);
            assert forall|k: LayoutObjectKind| 0 <= #[trigger] stacked_height(chain, k)
                <= heights_sum(chain) by {
                assert(0 <= stacked_height(b.next_sibling, b.kind) <= heights_sum(
                    b.next_sibling,
                ));
            }
        },
    }
}

/// Makes the box of a node: applies the rules that match the node, gives the
/// rest of the style its values, and sets the kind of the box. There is no
/// box where there is no node or where the node is not displayed.
pub fn create_layout_object(
    node: &Option<Box<Node>>,
    parent_obj: Option<&LayoutObject>,
    cssom: &StyleSheet,
) -> (r: Option<LayoutObject>)
    requires
        node is Some ==> !(node->0.kind is Document),
        parent_obj is Some ==> parent_obj->0.style.is_resolved(),
    ensures
        match *node {
            None => r is None,
            Some(n) => match box_for(
                n.kind@,
                match parent_obj {
                    Some(p) => Some(p.style),
                    None => None,
                },
                cssom@,
            ) {
                Some(b) => r is Some && r->0@ == b,
                None => r is None,
            },
        },
        r is Some ==> r->0.style.is_resolved(),
{
    match node {
        Some(n) => {
            let mut layout_object = LayoutObject::new(n.kind.clone());
            let ghost rules = rules_model(cssom.rules@);
            let mut i: usize = 0;
            while i < cssom.rules.len()
                invariant
                    i <= cssom.rules.len(),
                    rules == rules_model(cssom.rules@),
                    layout_object@ == (LayoutModel {
                        kind: LayoutObjectKind::Block,
                        node: n.kind@,
                        first_child: None,
                        next_sibling: None,
                        style: cascaded(n.kind@, rules.take(i as int)),
                        point: origin(),
                        size: no_size(),
                    }),
                decreases cssom.rules.len() - i,
            {
                assert(rules.take(i + 1).drop_last() =~= rules.take(i as int));
                assert(rules[i as int] == cssom.rules[i as int]@);
                let rule = &cssom.rules[i];
                if layout_object.is_node_selected(&rule.selector) {
                    layout_object.cascading_style(clone_declarations(&rule.declarations));
                }
                i += 1;
            }
            assert(rules.take(i as int) =~= rules);
            let parent_style = match parent_obj {
                Some(parent) => Some(parent.style()),
                None => None,
            };
            layout_object.defaulting_style(&n.kind, parent_style);
            if layout_object.style().display() == DisplayType::DisplayNone {
                return None;
            }
            layout_object.update_kind();
            Some(layout_object)
        },
        None => None,
    }
}

/// A class selector matches an element exactly if the whole value of one of
/// its `class` attributes is the name of the selector: a value that holds the
/// name among others does not count.
pub proof fn lemma_class_selector(name: Seq<char>, element: ElementModel)
    ensures
        selects(SelectorModel::ClassSelector(name), NodeKindModel::Element(element)) <==> exists|
            i: int,
        |
            0 <= i < element.attributes.len() && (#[trigger] element.attributes[i]).name
                == "class"@ && element.attributes[i].value == name,
{
}

/// A declaration of a display that is no known keyword sets the display to
/// none.
pub proof fn lemma_unknown_display(style: ComputedStyle, name: Seq<char>)
    requires
        display_of_name(name) is None,
    ensures
        apply_declaration(
            style,
            DeclarationModel { property: "display"@, value: CssTokenModel::Ident(name) },
        ).display == Some(DisplayType::DisplayNone),
{
    reveal_strlit("display");
    reveal_strlit("color");
    reveal_strlit("background-color");
    assert("display"@ != "color"@) by {
        assert("display"@.len() != "color"@.len());
    }
    assert("display"@ != "background-color"@) by {
        assert("display"@.len() != "background-color"@.len());
    }
}

/// A node that a rule with nothing but such a declaration matches has no
/// box, whatever is around it.
pub proof fn lemma_unknown_display_removes_box(
    kind: NodeKindModel,
    parent: Option<ComputedStyle>,
    selector: SelectorModel,
    name: Seq<char>,
)
    requires
        selects(selector, kind),
        display_of_name(name) is None,
    ensures
        box_for(
            kind,
            parent,
            StyleSheetModel {
                rules: seq![
                    QualifiedRuleModel {
                        selector,
                        declarations: seq![
                            DeclarationModel {
                                property: "display"@,
                                value: CssTokenModel::Ident(name),
                            },
                        ],
                    },
                ],
            },
        ) is None,
{
    let declaration = DeclarationModel { property: "display"@, value: CssTokenModel::Ident(name) };
    let declarations = seq![declaration];
    let rule = QualifiedRuleModel { selector, declarations };
    let rules = seq![rule];
    lemma_unknown_display(unset_style(), name);
    assert(declarations.drop_last() =~= Seq::<DeclarationModel>::empty());
    assert(cascade(unset_style(), declarations) == apply_declaration(
        cascade(unset_style(), declarations.drop_last()),
        declarations.last(),
    ));
    assert(cascade(unset_style(), Seq::<DeclarationModel>::empty()) == unset_style());
    assert(rules.drop_last() =~= Seq::<QualifiedRuleModel>::empty());
    assert(cascaded(kind, rules) == cascade(cascaded(kind, rules.drop_last()), rule.declarations));
    assert(cascaded(kind, Seq::<QualifiedRuleModel>::empty()) == unset_style());
}

} // verus!
