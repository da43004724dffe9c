use saba_core::renderer::dom::api::{
    get_element_by_id, get_style_content, is_document_root, set_text_content,
};
use saba_core::renderer::dom::node::{Element, ElementKind, Node, NodeKind, Window};
use saba_core::renderer::dom::api::get_target_element_node;
use saba_core::renderer::html::attribute::Attribute;
use saba_core::renderer::html::parser::HtmlParser;
use saba_core::renderer::html::token::{HtmlToken, HtmlTokenizer};

fn build(html: &str) -> Window {
    HtmlParser::new(HtmlTokenizer::new(html.to_string())).construct_tree()
}

fn element(tag: &str) -> NodeKind {
    NodeKind::Element(Element::new(tag, Vec::new()))
}

fn text(s: &str) -> NodeKind {
    NodeKind::Text(s.to_string())
}

/// The kinds of the nodes of a forest in document order, each with its depth.
fn outline(chain: &Option<Box<Node>>, depth: usize, out: &mut Vec<(usize, NodeKind)>) {
    if let Some(n) = chain {
        out.push((depth, n.kind().clone()));
        outline(n.first_child(), depth + 1, out);
        outline(n.next_sibling(), depth, out);
    }
}

fn outline_of(window: &Window) -> Vec<(usize, NodeKind)> {
    let mut out = Vec::new();
    out.push((0, window.document().kind().clone()));
    outline(window.document().first_child(), 1, &mut out);
    out
}

/// The text of a forest in document order.
fn text_of(chain: &Option<Box<Node>>, out: &mut String) {
    if let Some(n) = chain {
        if let NodeKind::Text(t) = n.kind() {
            out.push_str(t);
        }
        text_of(n.first_child(), out);
        text_of(n.next_sibling(), out);
    }
}

#[test]
fn an_empty_document() {
    let window = build("");
    assert_eq!(outline_of(&window), vec![(0, NodeKind::Document)]);
    assert!(window.document().next_sibling().is_none());
}

#[test]
fn elements_nest_as_their_tags_do() {
    let window = build("<html><head></head><body><p>a</p><p>b</p></body></html>");
    assert_eq!(
        outline_of(&window),
        vec![
            (0, NodeKind::Document),
            (1, element("html")),
            (2, element("head")),
            (2, element("body")),
            (3, element("p")),
            (4, text("a")),
            (3, element("p")),
            (4, text("b")),
        ]
    );
}

#[test]
fn characters_coalesce_into_one_text_node() {
    let window = build("<p>one two</p>tail");
    assert_eq!(
        outline_of(&window),
        vec![
            (0, NodeKind::Document),
            (1, element("p")),
            (2, text("one two")),
            (1, text("tail")),
        ]
    );
}

#[test]
fn text_around_an_element_stays_apart() {
    let window = build("<p>a<b>c</b>d</p>");
    assert_eq!(
        outline_of(&window),
        vec![
            (0, NodeKind::Document),
            (1, element("p")),
            (2, text("a")),
            (2, element("b")),
            (3, text("c")),
            (2, text("d")),
        ]
    );
}

#[test]
fn a_self_closing_element_is_not_opened() {
    let window = build("<p><br/>x</p>");
    assert_eq!(
        outline_of(&window),
        vec![
            (0, NodeKind::Document),
            (1, element("p")),
            (2, element("br")),
            (2, text("x")),
        ]
    );
}

#[test]
fn an_end_tag_closes_what_is_open_inside() {
    let window = build("<div><p><b>x</div>y");
    assert_eq!(
        outline_of(&window),
        vec![
            (0, NodeKind::Document),
            (1, element("div")),
            (2, element("p")),
            (3, element("b")),
            (4, text("x")),
            (1, text("y")),
        ]
    );
}

#[test]
fn an_unmatched_end_tag_is_ignored() {
    let window = build("<p>a</div>b</p>c");
    assert_eq!(
        outline_of(&window),
        vec![
            (0, NodeKind::Document),
            (1, element("p")),
            (2, text("ab")),
            (1, text("c")),
        ]
    );
}

#[test]
fn unclosed_elements_are_accepted() {
    let window = build("<html><body><p>text");
    assert_eq!(
        outline_of(&window),
        vec![
            (0, NodeKind::Document),
            (1, element("html")),
            (2, element("body")),
            (3, element("p")),
            (4, text("text")),
        ]
    );
}

#[test]
fn attributes_are_kept_in_order() {
    let window = build("<p class=\"a\" id=b>x</p>");
    let p = window.document().first_child().as_ref().unwrap();
    match p.kind() {
        NodeKind::Element(e) => {
            assert_eq!(e.tag(), "p");
            let attributes: Vec<Attribute> = e.attributes();
            assert_eq!(attributes.len(), 2);
            assert_eq!(attributes[0].name(), "class");
            assert_eq!(attributes[0].value(), "a");
            assert_eq!(attributes[1].name(), "id");
            assert_eq!(attributes[1].value(), "b");
            assert_eq!(e.kind(), Some(ElementKind::P));
        }
        other => panic!("an element was expected, not {:?}", other),
    }
}

#[test]
fn the_text_of_the_tree_is_the_characters_of_the_tokens() {
    let html = "lead<div>a<p>b<b>c</b>d</p>e<br/>f</div>g</x>h<i>j";
    let mut tokenizer = HtmlTokenizer::new(html.to_string());
    let mut expected = String::new();
    while let Some(token) = tokenizer.next() {
        if let HtmlToken::Char(c) = token {
            expected.push(c);
        }
    }
    assert_eq!(expected, "leadabcdefghj");
    let window = build(html);
    let mut actual = String::new();
    text_of(window.document().first_child(), &mut actual);
    assert_eq!(actual, expected);
}

#[test]
fn text_without_markup_comes_back_as_it_is() {
    let html = "just some text\nin two lines";
    let window = build(html);
    let mut actual = String::new();
    text_of(window.document().first_child(), &mut actual);
    assert_eq!(actual, html);
}

#[test]
fn the_first_element_of_a_kind_is_found() {
    let window = build("<html><head></head><body><p>a</p><p id=x>b</p></body></html>");
    let body = get_target_element_node(window.document().first_child(), ElementKind::Body);
    assert_eq!(body.as_ref().unwrap().kind(), &element("body"));
    let p = get_target_element_node(window.document().first_child(), ElementKind::P);
    assert_eq!(
        p.as_ref().unwrap().first_child().as_ref().unwrap().kind(),
        &text("a")
    );
    let none = get_target_element_node(window.document().first_child(), ElementKind::H1);
    assert!(none.is_none());
}

#[test]
fn the_style_content_is_the_text_of_the_style_element() {
    let window = build("<html><head><style>p { color: red; }</style></head><body></body></html>");
    assert_eq!(
        get_style_content(window.document().first_child()),
        "p { color: red; }"
    );
    let window = build("<html><head></head><body></body></html>");
    assert_eq!(get_style_content(window.document().first_child()), "");
    let window = build("<style><b>x</b></style>");
    assert_eq!(get_style_content(window.document().first_child()), "");
}

#[test]
fn an_element_is_found_by_its_id_and_given_a_text() {
    let mut window = build("<body><p id=a><b>old</b>er</p><p id=b>keep</p></body>");
    let id = "a".to_string();
    assert!(get_element_by_id(window.document().first_child(), &id).is_some());
    assert!(get_element_by_id(window.document().first_child(), &"zz".to_string()).is_none());
    assert!(set_text_content(
        &mut window.document.first_child,
        &id,
        &"new".to_string()
    ));
    assert_eq!(
        outline_of(&window),
        vec![
            (0, NodeKind::Document),
            (1, element_with_id("body", None)),
            (2, element_with_id("p", Some("a"))),
            (3, text("new")),
            (2, element_with_id("p", Some("b"))),
            (3, text("keep")),
        ]
    );
    assert!(!set_text_content(
        &mut window.document.first_child,
        &"zz".to_string(),
        &"new".to_string()
    ));
}

fn element_with_id(tag: &str, id: Option<&str>) -> NodeKind {
    let mut attributes = Vec::new();
    if let Some(id) = id {
        let mut a = Attribute::new();
        for c in "id".chars() {
            a.add_char(c, true);
        }
        for c in id.chars() {
            a.add_char(c, false);
        }
        attributes.push(a);
    }
    NodeKind::Element(Element::new(tag, attributes))
}

#[test]
fn the_tree_of_a_document_is_a_document_root() {
    let window = build("<html><body><p>a</p></body></html>");
    assert!(is_document_root(window.document()));
    let inner = window.document().first_child().as_ref().unwrap();
    assert!(!is_document_root(inner));
    let mut odd = Node::new(NodeKind::Document);
    odd.set_first_child(Some(Box::new(Node::new(NodeKind::Document))));
    assert!(!is_document_root(&odd));
}

#[test]
fn the_text_of_a_document_is_what_lies_outside_its_tags() {
    let window = build("a<b c=d e>f</b>g<br/>h<p\n>j");
    let mut actual = String::new();
    text_of(window.document().first_child(), &mut actual);
    assert_eq!(actual, "afghj");
    let window = build("a<b c=\"d>e\" f='g\"h'  i = j/>k</b\n>l<m n=o\"p>q");
    let mut actual = String::new();
    text_of(window.document().first_child(), &mut actual);
    assert_eq!(actual, "aklq");
    let window = build("<p>one</p><p>two</p> three");
    let mut actual = String::new();
    text_of(window.document().first_child(), &mut actual);
    assert_eq!(actual, "onetwo three");
}

/// Whether some text node of a forest has a text node as its next sibling.
fn has_neighbouring_texts(chain: &Option<Box<Node>>) -> bool {
    match chain {
        None => false,
        Some(n) => {
            let both = matches!(n.kind(), NodeKind::Text(_))
                && matches!(n.next_sibling(), Some(m) if matches!(m.kind(), NodeKind::Text(_)));
            both || has_neighbouring_texts(n.first_child())
                || has_neighbouring_texts(n.next_sibling())
        }
    }
}

#[test]
fn a_run_of_characters_is_one_text_node() {
    for html in [
        "abc",
        "a<b>c</b>d</x>e<br/>f",
        "<p>a</div>b</p>c",
        "<script>a<b</c</script>x</y>z",
        "<div><p><b>x</div>y<i>z",
    ] {
        let window = build(html);
        assert!(
            !has_neighbouring_texts(window.document().first_child()),
            "{}",
            html
        );
    }
}
