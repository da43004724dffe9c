use saba_core::display_item::DisplayItem;
use saba_core::http::HttpResponse;
use saba_core::renderer::css::cssom::CssParser;
use saba_core::renderer::css::token::CssTokenizer;
use saba_core::renderer::dom::api::{get_style_content, is_document_root};
use saba_core::renderer::html::parser::HtmlParser;
use saba_core::renderer::html::token::HtmlTokenizer;
use saba_core::renderer::layout::layout_view::{within_layout_limit, LayoutView};

const RESPONSE: &str = r#"
HTTP/1.1 200 OK
Data: xx xx xx

<html>
<head></head>
<body>
  <h1 id="title">H1 title</h1>
  <h2 class="class">H2 title</h2>
  <p>Test text.</p>
  <p>
  <a href= "example.com">Link1</a>
  <a href= "example.com">Link2</a>
  </p>
</body>
</html>
"#;

fn summary(items: &[DisplayItem]) -> Vec<String> {
    items
        .iter()
        .map(|item| match item {
            DisplayItem::Rect {
                layout_point,
                layout_size,
                ..
            } => format!(
                "rect {},{} {}x{}",
                layout_point.x(),
                layout_point.y(),
                layout_size.width(),
                layout_size.height()
            ),
            DisplayItem::Text {
                text, layout_point, ..
            } => format!("text {},{} {:?}", layout_point.x(), layout_point.y(), text),
        })
        .collect()
}

#[test]
fn a_response_becomes_paint_instructions() {
    let response = HttpResponse::new(RESPONSE.to_string()).expect("a response");
    assert_eq!(response.status_code(), 200);
    let window = HtmlParser::new(HtmlTokenizer::new(response.body())).construct_tree();
    let dom = window.document();
    assert!(is_document_root(dom));
    assert!(within_layout_limit(dom));
    let cssom = CssParser::new(CssTokenizer::new(get_style_content(dom.first_child())))
        .parse_stylesheet()
        .expect("a stylesheet");
    let view = LayoutView::new(dom, &cssom);
    let items = view.paint();
    assert_eq!(
        summary(&items),
        vec![
            "rect 0,0 590x180",
            "text 0,0 \"\"",
            "rect 0,20 590x20",
            "text 0,20 \"H1 title\"",
            "text 0,40 \"\"",
            "rect 0,60 590x20",
            "text 0,60 \"H2 title\"",
            "text 0,80 \"\"",
            "rect 0,100 590x20",
            "text 0,100 \"Test text.\"",
            "text 0,120 \"\"",
            "rect 0,140 590x20",
            "text 0,140 \"\"",
            "text 0,140 \"Link1\"",
            "text 0,140 \"\"",
            "text 0,140 \"Link2\"",
            "text 0,140 \"\"",
            "text 0,160 \"\"",
            "text 0,180 \"\"",
        ]
    );
}
