use saba_core::renderer::html::attribute::Attribute;
use saba_core::renderer::html::token::{HtmlToken, HtmlTokenizer};

fn all_tokens(html: &str) -> Vec<HtmlToken> {
    let mut t = HtmlTokenizer::new(html.to_string());
    let mut tokens = Vec::new();
    while let Some(token) = t.next() {
        tokens.push(token);
    }
    assert!(t.next().is_none());
    tokens
}

fn start(tag: &str, self_closing: bool, attributes: Vec<(&str, &str)>) -> HtmlToken {
    let mut list = Vec::new();
    for (name, value) in attributes {
        let mut a = Attribute::new();
        for c in name.chars() {
            a.add_char(c, true);
        }
        for c in value.chars() {
            a.add_char(c, false);
        }
        list.push(a);
    }
    HtmlToken::StartTag {
        tag: tag.to_string(),
        self_closing,
        attributes: list,
    }
}

fn end(tag: &str) -> HtmlToken {
    HtmlToken::EndTag {
        tag: tag.to_string(),
    }
}

#[test]
fn html_token_test_empty() {
    let mut t = HtmlTokenizer::new("".to_string());
    assert!(t.next().is_none());
}

#[test]
fn start_and_end_tag() {
    assert_eq!(
        all_tokens("<body></body>"),
        vec![start("body", false, vec![]), end("body")]
    );
}

#[test]
fn attributes_in_every_form() {
    assert_eq!(
        all_tokens("<p class=\"A\" id='B' foo=bar></p>"),
        vec![
            start(
                "p",
                false,
                vec![("class", "A"), ("id", "B"), ("foo", "bar")]
            ),
            end("p")
        ]
    );
}

#[test]
fn an_attribute_without_a_value() {
    assert_eq!(
        all_tokens("<input disabled>"),
        vec![start("input", false, vec![("disabled", "")])]
    );
}

#[test]
fn a_self_closing_tag() {
    assert_eq!(
        all_tokens("<img />"),
        vec![start("img", true, vec![])]
    );
    assert_eq!(
        all_tokens("<img src=a.png/>"),
        vec![start("img", false, vec![("src", "a.png/")])]
    );
}

#[test]
fn names_are_lowered() {
    assert_eq!(
        all_tokens("<DIV CLASS=Big></DIV>"),
        vec![start("div", false, vec![("class", "Big")]), end("div")]
    );
}

#[test]
fn characters_between_tags() {
    assert_eq!(
        all_tokens("a<b>c d</b>"),
        vec![
            HtmlToken::Char('a'),
            start("b", false, vec![]),
            HtmlToken::Char('c'),
            HtmlToken::Char(' '),
            HtmlToken::Char('d'),
            end("b"),
        ]
    );
}

#[test]
fn the_end_of_the_input_in_a_tag_is_a_token() {
    assert_eq!(all_tokens("ab<p"), vec![
        HtmlToken::Char('a'),
        HtmlToken::Char('b'),
        HtmlToken::Eof,
    ]);
    assert_eq!(all_tokens("<p class=\"x"), vec![HtmlToken::Eof]);
    assert_eq!(all_tokens("</"), vec![HtmlToken::Eof]);
}

#[test]
fn raw_text_is_not_markup() {
    assert_eq!(
        all_tokens("<script>a<b</c</script>x"),
        vec![
            start("script", false, vec![]),
            HtmlToken::Char('a'),
            HtmlToken::Char('<'),
            HtmlToken::Char('b'),
            HtmlToken::Char('<'),
            HtmlToken::Char('/'),
            HtmlToken::Char('c'),
            end("script"),
            HtmlToken::Char('x'),
        ]
    );
}

#[test]
fn raw_text_ends_at_an_end_tag() {
    assert_eq!(
        all_tokens("<script>1 < 2</script><p>"),
        vec![
            start("script", false, vec![]),
            HtmlToken::Char('1'),
            HtmlToken::Char(' '),
            HtmlToken::Char('<'),
            HtmlToken::Char(' '),
            HtmlToken::Char('2'),
            end("script"),
            start("p", false, vec![]),
        ]
    );
}
