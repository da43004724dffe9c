use saba_core::renderer::css::cssom::{CssParser, StyleSheet};
use saba_core::renderer::css::token::CssTokenizer;
use saba_core::renderer::dom::api::get_style_content;
use saba_core::renderer::dom::node::{Element, NodeKind};
use saba_core::renderer::html::parser::HtmlParser;
use saba_core::renderer::html::token::HtmlTokenizer;
use saba_core::renderer::layout::layout_object::LayoutObjectKind;
use saba_core::renderer::layout::layout_view::{within_layout_limit, LayoutView};

fn create_layout_view(html: String) -> LayoutView {
    let t = HtmlTokenizer::new(html);
    let window = HtmlParser::new(t).construct_tree();
    let dom = window.document();
    let style = get_style_content(dom.first_child());
    let css_tokenizer = CssTokenizer::new(style);
    let cssom: StyleSheet = CssParser::new(css_tokenizer)
        .parse_stylesheet()
        .expect("the stylesheet should parse");
    assert!(within_layout_limit(dom));
    LayoutView::new(dom, &cssom)
}

#[test]
fn layout_view_test_empty() {
    let layout_view = create_layout_view("".to_string());
    assert_eq!(&None, layout_view.root());
}

#[test]
fn test_body() {
    let html = "<html><head></head><body></body>".to_string();
    let layout_view = create_layout_view(html);

    let root = layout_view.root();
    assert!(root.is_some());
    assert_eq!(
        LayoutObjectKind::Block,
        root.as_ref().expect("root should exist").kind()
    );
    assert_eq!(
        NodeKind::Element(Element::new("body", Vec::new())),
        root.as_ref().expect("root should exist").node_kind()
    );
}

#[test]
fn test_text() {
    let html = "<html><head></head><body>text</body>".to_string();
    let layout_view = create_layout_view(html);

    let root = layout_view.root();
    assert!(root.is_some());
    assert_eq!(
        LayoutObjectKind::Block,
        root.as_ref().expect("root should exist").kind()
    );
    assert_eq!(
        NodeKind::Element(Element::new("body", Vec::new())),
        root.as_ref().expect("root should exist").node_kind()
    );

    let text = root.as_ref().expect("root should exist").first_child();
    assert!(text.is_some());
    assert_eq!(
        LayoutObjectKind::Text,
        text.as_ref().expect("text should exist").kind()
    );
    assert_eq!(
        NodeKind::Text("text".to_string()),
        text.as_ref().expect("text should exist").node_kind()
    );
}
