use saba_core::error::Error;
use saba_core::renderer::css::cssom::{
    CssParser, Declaration, QualifiedRule, Selector, StyleSheet,
};
use saba_core::renderer::css::token::{CssToken, CssTokenizer};

fn parse(style: &str) -> Result<StyleSheet, Error> {
    CssParser::new(CssTokenizer::new(style.to_string())).parse_stylesheet()
}

fn rule(selector: Selector, declarations: Vec<(&str, CssToken)>) -> QualifiedRule {
    let mut r = QualifiedRule::new();
    r.set_selector(selector);
    let mut list = Vec::new();
    for (property, value) in declarations {
        let mut d = Declaration::new();
        d.set_property(property.to_string());
        d.set_value(value);
        list.push(d);
    }
    r.set_declarations(list);
    r
}

fn ident(s: &str) -> CssToken {
    CssToken::Ident(s.to_string())
}

#[test]
fn an_empty_stylesheet_has_no_rules() {
    assert_eq!(parse("").unwrap().rules, Vec::new());
}

#[test]
fn a_type_selector_rule() {
    let sheet = parse("p { color: red; }").unwrap();
    assert_eq!(
        sheet.rules,
        vec![rule(
            Selector::TypeSelector("p".to_string()),
            vec![("color", ident("red"))]
        )]
    );
}

#[test]
fn class_and_id_selectors() {
    let sheet = parse(".cls { color: red; } #id { color: #00ff00 }").unwrap();
    assert_eq!(
        sheet.rules,
        vec![
            rule(
                Selector::ClassSelector("cls".to_string()),
                vec![("color", ident("red"))]
            ),
            rule(
                Selector::IdSelector("id".to_string()),
                vec![("color", CssToken::HashToken("#00ff00".to_string()))]
            ),
        ]
    );
}

#[test]
fn several_declarations_keep_their_order() {
    let sheet = parse("p { content: \"Hey\"; width: 10; color: blue }").unwrap();
    assert_eq!(
        sheet.rules,
        vec![rule(
            Selector::TypeSelector("p".to_string()),
            vec![
                ("content", CssToken::StringToken("Hey".to_string())),
                ("width", CssToken::Number("10".to_string())),
                ("color", ident("blue")),
            ]
        )]
    );
}

#[test]
fn a_pseudo_class_degrades_to_the_type_selector() {
    let sheet = parse("a:hover { color: red; }").unwrap();
    assert_eq!(
        sheet.rules,
        vec![rule(
            Selector::TypeSelector("a".to_string()),
            vec![("color", ident("red"))]
        )]
    );
}

#[test]
fn an_at_rule_is_read_and_dropped() {
    let sheet = parse("@media screen { color: red; } p { color: blue; }").unwrap();
    assert_eq!(
        sheet.rules,
        vec![rule(
            Selector::TypeSelector("p".to_string()),
            vec![("color", ident("blue"))]
        )]
    );
}

#[test]
fn other_tokens_give_an_unknown_selector() {
    let sheet = parse("1 2 { color: red; }").unwrap();
    assert_eq!(
        sheet.rules,
        vec![rule(Selector::UnknownSelector, vec![("color", ident("red"))])]
    );
}

#[test]
fn the_start_of_a_block_is_never_passed_over() {
    for style in [". { color: red; }", "1 { color: red; }", ", { color: red; }"] {
        let sheet = parse(style).unwrap();
        assert_eq!(
            sheet.rules,
            vec![rule(Selector::UnknownSelector, vec![("color", ident("red"))])],
            "{}",
            style
        );
    }
}

#[test]
fn the_end_of_a_block_is_never_passed_over() {
    let sheet = parse("p { color } a { x: y; }").unwrap();
    assert_eq!(
        sheet.rules,
        vec![
            rule(Selector::TypeSelector("p".to_string()), vec![]),
            rule(
                Selector::TypeSelector("a".to_string()),
                vec![("x", ident("y"))]
            ),
        ]
    );
    let sheet = parse("p { color; x: y } a { b: c d } i { e f: g; h }").unwrap();
    assert_eq!(
        sheet.rules,
        vec![
            rule(
                Selector::TypeSelector("p".to_string()),
                vec![("x", ident("y"))]
            ),
            rule(
                Selector::TypeSelector("a".to_string()),
                vec![("b", ident("c"))]
            ),
            rule(Selector::TypeSelector("i".to_string()), vec![]),
        ]
    );
}

#[test]
fn the_last_selector_before_the_block_counts() {
    let sheet = parse("h1 p { color: red; }").unwrap();
    assert_eq!(
        sheet.rules,
        vec![rule(
            Selector::TypeSelector("p".to_string()),
            vec![("color", ident("red"))]
        )]
    );
}

#[test]
fn a_malformed_declaration_is_skipped() {
    let sheet = parse("p { color red; display: ; color: blue; }").unwrap();
    assert_eq!(
        sheet.rules,
        vec![rule(
            Selector::TypeSelector("p".to_string()),
            vec![("color", ident("blue"))]
        )]
    );
}

#[test]
fn a_rule_cut_short_is_not_emitted() {
    let sheet = parse("p { color: red; } h1 { color: blue;").unwrap();
    assert_eq!(
        sheet.rules,
        vec![rule(
            Selector::TypeSelector("p".to_string()),
            vec![("color", ident("red"))]
        )]
    );
    assert_eq!(parse("p").unwrap().rules.len(), 0);
    assert_eq!(parse("p {").unwrap().rules.len(), 0);
}

#[test]
fn an_unsupported_character_is_an_error() {
    assert_eq!(
        parse("p { color: red; } * { }"),
        Err(Error::UnexpectedInput(
            "char * is not supported yet".to_string()
        ))
    );
}
