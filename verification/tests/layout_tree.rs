use saba_core::constants::{CHAR_HEIGHT_WITH_PADDING, CHAR_WIDTH, CONTENT_AREA_WIDTH};
use saba_core::display_item::DisplayItem;
use saba_core::renderer::css::cssom::{CssParser, Declaration, Selector};
use saba_core::renderer::css::token::{CssToken, CssTokenizer};
use saba_core::renderer::dom::api::get_style_content;
use saba_core::renderer::dom::node::{Element, NodeKind};
use saba_core::renderer::html::attribute::Attribute;
use saba_core::renderer::html::parser::HtmlParser;
use saba_core::renderer::html::token::HtmlTokenizer;
use saba_core::renderer::layout::computed_style::{
    Color, ComputedStyle, DisplayType, FontSize, TextDecoration,
};
use saba_core::renderer::layout::layout_object::{
    LayoutObject, LayoutObjectKind, LayoutPoint, LayoutSize,
};
use saba_core::renderer::layout::layout_object::LayoutObjectKind::{Block, Inline, Text};
use saba_core::renderer::layout::layout_view::{
    build_layout_tree, find_next_box, within_layout_limit, LayoutView,
};

fn layout(html: &str) -> LayoutView {
    let window = HtmlParser::new(HtmlTokenizer::new(html.to_string())).construct_tree();
    let dom = window.document();
    let style = get_style_content(dom.first_child());
    let cssom = CssParser::new(CssTokenizer::new(style))
        .parse_stylesheet()
        .expect("the stylesheet should parse");
    assert!(within_layout_limit(dom));
    LayoutView::new(dom, &cssom)
}

fn page(style: &str, body: &str) -> String {
    format!(
        "<html><head><style>{}</style></head><body>{}</body></html>",
        style, body
    )
}

/// For each box in document order: its depth, kind, place and size.
fn geometry(
    chain: &Option<Box<LayoutObject>>,
    depth: usize,
    out: &mut Vec<(usize, LayoutObjectKind, (i64, i64), (i64, i64))>,
) {
    if let Some(b) = chain {
        out.push((
            depth,
            b.kind(),
            (b.point().x(), b.point().y()),
            (b.size().width(), b.size().height()),
        ));
        geometry(b.first_child(), depth + 1, out);
        geometry(b.next_sibling(), depth, out);
    }
}

fn geometry_of(view: &LayoutView) -> Vec<(usize, LayoutObjectKind, (i64, i64), (i64, i64))> {
    let mut out = Vec::new();
    geometry(view.root(), 0, &mut out);
    out
}

/// The boxes of a forest in document order.
fn boxes<'a>(chain: &'a Option<Box<LayoutObject>>, out: &mut Vec<&'a LayoutObject>) {
    if let Some(b) = chain {
        out.push(b);
        boxes(b.first_child(), out);
        boxes(b.next_sibling(), out);
    }
}

fn style(
    background: Color,
    color: Color,
    display: DisplayType,
) -> ComputedStyle {
    let mut s = ComputedStyle::new();
    s.set_background_color(background);
    s.set_color(color);
    s.set_display(display);
    s.set_font_size(FontSize::Medium);
    s.set_text_decoration(TextDecoration::NoDecoration);
    s.set_height(0);
    s.set_width(0);
    s
}

fn color(code: u32) -> Color {
    Color::from_code(&format!("#{:06x}", code)).expect("a colour code")
}

#[test]
fn test_body_has_no_children() {
    let view = layout("<html><head></head><body></body>");
    let root = view.root().as_ref().expect("root should exist");
    assert_eq!(root.kind(), LayoutObjectKind::Block);
    assert_eq!(
        root.node_kind(),
        NodeKind::Element(Element::new("body", Vec::new()))
    );
    assert!(root.first_child().is_none());
    assert!(root.next_sibling().is_none());
}

#[test]
fn test_text_is_the_only_child() {
    let view = layout("<html><head></head><body>text</body>");
    let root = view.root().as_ref().expect("root should exist");
    let text = root.first_child().as_ref().expect("text should exist");
    assert_eq!(text.kind(), LayoutObjectKind::Text);
    assert_eq!(text.node_kind(), NodeKind::Text("text".to_string()));
    assert!(text.first_child().is_none());
    assert!(text.next_sibling().is_none());
}

#[test]
fn test_no_body_no_tree() {
    assert!(layout("<html><head></head><p>x</p></html>").root().is_none());
}

#[test]
fn test_display_none_removes_the_subtree() {
    let view = layout(&page(
        ".foo { display: bogus; }",
        "<div class=\"foo\"><p>inner</p>text</div><p>after</p>",
    ));
    let mut all = Vec::new();
    boxes(view.root(), &mut all);
    let kinds: Vec<NodeKind> = all.iter().map(|b| b.node_kind()).collect();
    assert_eq!(
        kinds,
        vec![
            NodeKind::Element(Element::new("body", Vec::new())),
            NodeKind::Element(Element::new("p", Vec::new())),
            NodeKind::Text("after".to_string()),
        ]
    );
}

#[test]
fn test_display_none_in_the_middle_leaves_no_gap() {
    let view = layout(&page(
        ".gone { display: none; }",
        "<p>a</p><p class=gone>b</p><p class=gone>c</p><p>d</p><p class=gone>e</p>",
    ));
    let mut all = Vec::new();
    boxes(view.root(), &mut all);
    let texts: Vec<String> = all
        .iter()
        .filter_map(|b| match b.node_kind() {
            NodeKind::Text(t) => Some(t),
            _ => None,
        })
        .collect();
    assert_eq!(texts, vec!["a".to_string(), "d".to_string()]);
    assert_eq!(all.len(), 5);
}

#[test]
fn test_display_none_on_the_body_leaves_no_tree() {
    let view = layout(&page("body { display: none; }", "<p>a</p>"));
    assert!(view.root().is_none());
    assert_eq!(view.paint(), Vec::new());
}

#[test]
fn test_a_class_selector_matches_the_whole_value_only() {
    let view = layout(&page(
        ".foo { color: red; }",
        "<p class=\"foo bar\">x</p><p class=\"foo\">y</p>",
    ));
    let mut all = Vec::new();
    boxes(view.root(), &mut all);
    assert_eq!(all[1].style().color(), Color::black());
    assert_eq!(all[3].style().color(), color(0xff0000));

    let mut attribute = Attribute::new();
    for c in "class".chars() {
        attribute.add_char(c, true);
    }
    for c in "foo bar".chars() {
        attribute.add_char(c, false);
    }
    let element = LayoutObject::new(NodeKind::Element(Element::new("p", vec![attribute])));
    assert!(!element.is_node_selected(&Selector::ClassSelector("foo".to_string())));
    assert!(!element.is_node_selected(&Selector::ClassSelector("bar".to_string())));
    assert!(element.is_node_selected(&Selector::ClassSelector("foo bar".to_string())));
    assert!(element.is_node_selected(&Selector::TypeSelector("p".to_string())));
    assert!(!element.is_node_selected(&Selector::IdSelector("foo bar".to_string())));
    assert!(!element.is_node_selected(&Selector::UnknownSelector));
    let text = LayoutObject::new(NodeKind::Text("p".to_string()));
    assert!(!text.is_node_selected(&Selector::TypeSelector("p".to_string())));
}

#[test]
fn test_later_rules_win_and_unknown_values_fall_back() {
    let view = layout(&page(
        "p { color: red; background-color: #00ff00; } #b { color: blue; } \
         .c { color: nocolor; background-color: nocolor; } .d { color: #12; width: 3; } \
         p { display: inline; } .e { display: block; }",
        "<p>1</p><p id=b>2</p><p class=c>3</p><p class=d>4</p><p class=e>5</p>",
    ));
    let mut all = Vec::new();
    boxes(view.root(), &mut all);
    let green = color(0x00ff00);
    assert_eq!(
        all[1].style(),
        style(green, color(0xff0000), DisplayType::Inline)
    );
    assert_eq!(all[1].kind(), LayoutObjectKind::Inline);
    assert_eq!(
        all[3].style(),
        style(green, color(0x0000ff), DisplayType::Inline)
    );
    assert_eq!(
        all[5].style(),
        style(Color::white(), Color::black(), DisplayType::Inline)
    );
    assert_eq!(
        all[7].style(),
        style(green, Color::black(), DisplayType::Inline)
    );
    assert_eq!(
        all[9].style(),
        style(green, color(0xff0000), DisplayType::Block)
    );
    assert_eq!(all[9].kind(), LayoutObjectKind::Block);
}

#[test]
fn test_the_text_colour_is_inherited_and_the_background_is_not() {
    let view = layout(&page(
        "body { color: blue; background-color: gray; } a { color: red; }",
        "<p>x</p><a>y</a>z",
    ));
    let mut all = Vec::new();
    boxes(view.root(), &mut all);
    let blue = color(0x0000ff);
    let red = color(0xff0000);
    // body, p, x, a, y, z
    assert_eq!(
        all[0].style(),
        style(color(0x808080), blue, DisplayType::Block)
    );
    assert_eq!(all[1].style(), style(Color::white(), blue, DisplayType::Block));
    assert_eq!(all[2].style(), style(Color::white(), blue, DisplayType::Inline));
    assert_eq!(all[3].style(), style(Color::white(), red, DisplayType::Inline));
    assert_eq!(all[4].style(), style(Color::white(), red, DisplayType::Inline));
    assert_eq!(all[5].style(), style(Color::white(), blue, DisplayType::Inline));
}

#[test]
fn test_blocks_stack() {
    let view = layout("<html><head></head><body><p>ab</p><p>cd</p></body></html>");
    assert_eq!(
        geometry_of(&view),
        vec![
            (0, Block, (0, 0), (590, 40)),
            (1, Block, (0, 0), (590, 20)),
            (2, Text, (0, 0), (16, 20)),
            (1, Block, (0, 20), (590, 20)),
            (2, Text, (0, 20), (16, 20)),
        ]
    );
    assert_eq!(CONTENT_AREA_WIDTH, 590);
    assert_eq!(CHAR_WIDTH, 8);
    assert_eq!(CHAR_HEIGHT_WITH_PADDING, 20);
}

#[test]
fn test_inline_boxes_share_a_line() {
    let view = layout("<body><a>x</a><a>yz</a><p>q</p><a>r</a></body>");
    assert_eq!(
        geometry_of(&view),
        vec![
            (0, Block, (0, 0), (590, 60)),
            (1, Inline, (0, 0), (8, 20)),
            (2, Text, (0, 0), (8, 20)),
            (1, Inline, (8, 0), (16, 20)),
            (2, Text, (8, 0), (16, 20)),
            (1, Block, (0, 20), (590, 20)),
            (2, Text, (0, 20), (8, 20)),
            (1, Inline, (0, 40), (8, 20)),
            (2, Text, (0, 40), (8, 20)),
        ]
    );
}

#[test]
fn test_text_between_boxes() {
    let view = layout("<body>t<a>x</a>u</body>");
    assert_eq!(
        geometry_of(&view),
        vec![
            (0, Block, (0, 0), (590, 20)),
            (1, Text, (0, 0), (8, 20)),
            (1, Inline, (0, 0), (8, 20)),
            (2, Text, (0, 0), (8, 20)),
            (1, Text, (0, 0), (8, 20)),
        ]
    );
}

#[test]
fn test_a_block_in_an_inline_box_has_no_width() {
    let view = layout("<body><a><p>x</p></a></body>");
    assert_eq!(
        geometry_of(&view),
        vec![
            (0, Block, (0, 0), (590, 20)),
            (1, Inline, (0, 0), (0, 20)),
            (2, Block, (0, 0), (0, 20)),
            (3, Text, (0, 0), (8, 20)),
        ]
    );
}

#[test]
fn test_long_text_wraps() {
    let text = "a".repeat(100);
    let view = layout(&format!("<body><p>{}</p></body>", text));
    assert_eq!(
        geometry_of(&view),
        vec![
            (0, Block, (0, 0), (590, 40)),
            (1, Block, (0, 0), (590, 40)),
            (2, Text, (0, 0), (590, 40)),
        ]
    );
    let items = view.paint();
    let plain = style(Color::white(), Color::black(), DisplayType::Block);
    let inline = style(Color::white(), Color::black(), DisplayType::Inline);
    assert_eq!(
        items,
        vec![
            DisplayItem::Rect {
                style: plain,
                layout_point: LayoutPoint::new(0, 0),
                layout_size: LayoutSize::new(590, 40),
            },
            DisplayItem::Rect {
                style: plain,
                layout_point: LayoutPoint::new(0, 0),
                layout_size: LayoutSize::new(590, 40),
            },
            DisplayItem::Text {
                text: "a".repeat(75),
                style: inline,
                layout_point: LayoutPoint::new(0, 0),
            },
            DisplayItem::Text {
                text: "a".repeat(25),
                style: inline,
                layout_point: LayoutPoint::new(0, 20),
            },
        ]
    );
}

#[test]
fn test_text_that_just_exceeds_the_content_area_is_one_line() {
    // 74 characters are 592 wide: more than the content area, less than the
    // window.
    let text = "a".repeat(74);
    let view = layout(&format!("<body>{}</body>", text));
    assert_eq!(
        geometry_of(&view),
        vec![(0, Block, (0, 0), (590, 20)), (1, Text, (0, 0), (590, 20)),]
    );
}

#[test]
fn test_painting_follows_document_order() {
    let view = layout(&page(
        "p { background-color: yellow; }",
        "<p>one\n  two</p><a>link</a><p>three</p>",
    ));
    let body = style(Color::white(), Color::black(), DisplayType::Block);
    let p = style(color(0xffff00), Color::black(), DisplayType::Block);
    let words = style(Color::white(), Color::black(), DisplayType::Inline);
    assert_eq!(
        view.paint(),
        vec![
            DisplayItem::Rect {
                style: body,
                layout_point: LayoutPoint::new(0, 0),
                layout_size: LayoutSize::new(590, 60),
            },
            DisplayItem::Rect {
                style: p,
                layout_point: LayoutPoint::new(0, 0),
                layout_size: LayoutSize::new(590, 20),
            },
            DisplayItem::Text {
                text: "one two".to_string(),
                style: words,
                layout_point: LayoutPoint::new(0, 0),
            },
            DisplayItem::Text {
                text: "link".to_string(),
                style: words,
                layout_point: LayoutPoint::new(0, 20),
            },
            DisplayItem::Rect {
                style: p,
                layout_point: LayoutPoint::new(0, 40),
                layout_size: LayoutSize::new(590, 20),
            },
            DisplayItem::Text {
                text: "three".to_string(),
                style: words,
                layout_point: LayoutPoint::new(0, 40),
            },
        ]
    );
}

#[test]
fn test_the_font_size_scales_text() {
    let mut text = LayoutObject::new(NodeKind::Text("abc".to_string()));
    let mut large = style(Color::white(), Color::black(), DisplayType::Inline);
    large.set_font_size(FontSize::XLarge);
    text.style = large;
    text.kind = LayoutObjectKind::Text;
    text.compute_size(LayoutSize::new(590, 0));
    assert_eq!(text.size(), LayoutSize::new(48, 40));

    let mut long = LayoutObject::new(NodeKind::Text("b".repeat(60)));
    let mut huge = style(Color::white(), Color::black(), DisplayType::Inline);
    huge.set_font_size(FontSize::XXLarge);
    long.style = huge;
    long.kind = LayoutObjectKind::Text;
    long.compute_size(LayoutSize::new(590, 0));
    assert_eq!(long.size(), LayoutSize::new(590, 180));
    long.compute_position(LayoutPoint::new(3, 4), LayoutObjectKind::Block, None, None);
    assert_eq!(long.point(), LayoutPoint::new(3, 4));
    assert_eq!(
        long.paint(),
        vec![
            DisplayItem::Text {
                text: "b".repeat(25),
                style: huge,
                layout_point: LayoutPoint::new(3, 4),
            },
            DisplayItem::Text {
                text: "b".repeat(25),
                style: huge,
                layout_point: LayoutPoint::new(3, 64),
            },
            DisplayItem::Text {
                text: "b".repeat(10),
                style: huge,
                layout_point: LayoutPoint::new(3, 124),
            },
        ]
    );
}

#[test]
fn test_the_place_of_a_box_follows_its_sibling() {
    let mut b = LayoutObject::new(NodeKind::Element(Element::new("p", Vec::new())));
    let parent = LayoutPoint::new(10, 20);
    let before = Some(LayoutPoint::new(30, 40));
    let extent = Some(LayoutSize::new(5, 6));
    b.kind = LayoutObjectKind::Block;
    b.compute_position(parent, LayoutObjectKind::Inline, before, extent);
    assert_eq!(b.point(), LayoutPoint::new(10, 46));
    b.compute_position(parent, LayoutObjectKind::Inline, None, None);
    assert_eq!(b.point(), LayoutPoint::new(10, 20));
    b.kind = LayoutObjectKind::Inline;
    b.compute_position(parent, LayoutObjectKind::Block, before, extent);
    assert_eq!(b.point(), LayoutPoint::new(10, 46));
    b.compute_position(parent, LayoutObjectKind::Inline, before, extent);
    assert_eq!(b.point(), LayoutPoint::new(35, 40));
    b.compute_position(parent, LayoutObjectKind::Inline, None, None);
    assert_eq!(b.point(), LayoutPoint::new(10, 20));
    b.compute_position(parent, LayoutObjectKind::Text, before, extent);
    assert_eq!(b.point(), LayoutPoint::new(10, 20));
    b.kind = LayoutObjectKind::Text;
    b.compute_position(parent, LayoutObjectKind::Inline, before, extent);
    assert_eq!(b.point(), LayoutPoint::new(10, 20));
}

#[test]
fn test_declarations_are_applied_in_order() {
    let mut b = LayoutObject::new(NodeKind::Element(Element::new("p", Vec::new())));
    let mut declarations = Vec::new();
    for (property, value) in [
        ("color", CssToken::Ident("red".to_string())),
        ("color", CssToken::Ident("green".to_string())),
        ("display", CssToken::Ident("bogus".to_string())),
        ("display", CssToken::Number("1".to_string())),
        ("background-color", CssToken::HashToken("#ABCDEF".to_string())),
        ("margin", CssToken::Ident("red".to_string())),
        ("color", CssToken::StringToken("blue".to_string())),
    ] {
        let mut d = Declaration::new();
        d.set_property(property.to_string());
        d.set_value(value);
        declarations.push(d);
    }
    b.cascading_style(declarations);
    let mut expected = ComputedStyle::new();
    expected.set_color(color(0x008000));
    expected.set_display(DisplayType::DisplayNone);
    expected.set_background_color(color(0xabcdef));
    assert_eq!(b.style(), expected);
    assert!(!b.style().resolved());
    b.defaulting_style(&NodeKind::Text("t".to_string()), None);
    assert!(b.style().resolved());
    assert_eq!(b.style().font_size(), FontSize::Medium);
    assert_eq!(b.style().text_decoration(), TextDecoration::NoDecoration);
    assert_eq!(b.style().display(), DisplayType::DisplayNone);
    assert_eq!(b.style().height(), 0);
    assert_eq!(b.style().width(), 0);
}

#[test]
fn test_points_and_sizes() {
    let mut p = LayoutPoint::new(1, 2);
    assert_eq!((p.x(), p.y()), (1, 2));
    p.set_x(-3);
    p.set_y(4);
    assert_eq!(p, LayoutPoint::new(-3, 4));
    let mut s = LayoutSize::new(5, 6);
    assert_eq!((s.width(), s.height()), (5, 6));
    s.set_width(7);
    s.set_height(8);
    assert_eq!(s, LayoutSize::new(7, 8));
}

#[test]
fn test_the_next_box_is_that_of_the_first_node_that_is_displayed() {
    let html = page(
        ".gone { display: none; }",
        "<p class=gone>a</p><b class=gone>b</b><i>c</i><p>d</p>",
    );
    let window = HtmlParser::new(HtmlTokenizer::new(html)).construct_tree();
    let dom = window.document();
    let cssom = CssParser::new(CssTokenizer::new(get_style_content(dom.first_child())))
        .parse_stylesheet()
        .expect("the stylesheet should parse");
    let body = saba_core::renderer::dom::api::get_target_element_node(
        dom.first_child(),
        saba_core::renderer::dom::node::ElementKind::Body,
    );
    let children = body.as_ref().unwrap().first_child();
    let (found, place) = find_next_box(children, None, &cssom);
    let found = found.expect("a box");
    assert_eq!(found.kind(), Inline);
    assert_eq!(
        found.node_kind(),
        NodeKind::Element(Element::new("i", Vec::new()))
    );
    assert!(found.first_child().is_none());
    assert!(found.next_sibling().is_none());
    assert_eq!(place.as_ref().unwrap().kind(), &found.node_kind());
    assert_eq!(found.point(), LayoutPoint::new(0, 0));
    assert_eq!(found.size(), LayoutSize::new(0, 0));

    let tree = build_layout_tree(children, None, &cssom);
    let mut all = Vec::new();
    boxes(&tree, &mut all);
    let kinds: Vec<LayoutObjectKind> = all.iter().map(|b| b.kind()).collect();
    assert_eq!(kinds, vec![Inline, Text, Block, Text]);

    let (nothing, end) = find_next_box(&None, None, &cssom);
    assert!(nothing.is_none());
    assert!(end.is_none());
}
