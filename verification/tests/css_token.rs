use saba_core::renderer::css::token::{CssToken, CssTokenizer};

#[test]
fn token_test_empty() {
    let style = "".to_string();
    let mut t = CssTokenizer::new(style);
    assert!(t.next().is_none());
}

#[test]
fn test_one_rule() {
    let style = "p { color: red; }".to_string();
    let mut t = CssTokenizer::new(style);
    let expected = [
        CssToken::Ident("p".to_string()),
        CssToken::OpenCurly,
        CssToken::Ident("color".to_string()),
        CssToken::Colon,
        CssToken::Ident("red".to_string()),
        CssToken::SemiColon,
        CssToken::CloseCurly,
    ];
    for e in expected {
        assert_eq!(Some(e.clone()), t.next());
    }
    assert!(t.next().is_none());
}

fn all_tokens(style: &str) -> (Vec<CssToken>, Option<char>) {
    let mut t = CssTokenizer::new(style.to_string());
    let mut tokens = Vec::new();
    while let Some(token) = t.next() {
        tokens.push(token);
    }
    (tokens, t.rejected())
}

#[test]
fn punctuation_is_one_token_each() {
    let (tokens, rejected) = all_tokens("(){}:;,.");
    assert_eq!(
        tokens,
        vec![
            CssToken::OpenParenthesis,
            CssToken::CloseParenthesis,
            CssToken::OpenCurly,
            CssToken::CloseCurly,
            CssToken::Colon,
            CssToken::SemiColon,
            CssToken::Delim(','),
            CssToken::Delim('.'),
        ]
    );
    assert_eq!(rejected, None);
}

#[test]
fn whitespace_is_skipped_and_never_emitted() {
    let (tokens, _) = all_tokens("  \n a \n\n b  ");
    assert_eq!(
        tokens,
        vec![
            CssToken::Ident("a".to_string()),
            CssToken::Ident("b".to_string())
        ]
    );
}

#[test]
fn a_number_has_at_most_one_point() {
    let (tokens, _) = all_tokens("12.5 7 1.2.3");
    assert_eq!(
        tokens,
        vec![
            CssToken::Number("12.5".to_string()),
            CssToken::Number("7".to_string()),
            CssToken::Number("1.2".to_string()),
            CssToken::Delim('.'),
            CssToken::Number("3".to_string()),
        ]
    );
}

#[test]
fn nothing_is_dropped_after_a_number() {
    let (tokens, _) = all_tokens("10px;");
    assert_eq!(
        tokens,
        vec![
            CssToken::Number("10".to_string()),
            CssToken::Ident("px".to_string()),
            CssToken::SemiColon,
        ]
    );
}

#[test]
fn a_string_ends_at_the_matching_quote_or_at_the_end() {
    let (tokens, _) = all_tokens("\"a'b\" 'c\"d' \"open");
    assert_eq!(
        tokens,
        vec![
            CssToken::StringToken("a'b".to_string()),
            CssToken::StringToken("c\"d".to_string()),
            CssToken::StringToken("open".to_string()),
        ]
    );
}

#[test]
fn a_hash_token_keeps_its_hash() {
    let (tokens, _) = all_tokens("#title #ff0000");
    assert_eq!(
        tokens,
        vec![
            CssToken::HashToken("#title".to_string()),
            CssToken::HashToken("#ff0000".to_string()),
        ]
    );
}

#[test]
fn identifiers_may_start_with_a_hyphen_or_underscore() {
    let (tokens, _) = all_tokens("-webkit-box _x a1-b_c");
    assert_eq!(
        tokens,
        vec![
            CssToken::Ident("-webkit-box".to_string()),
            CssToken::Ident("_x".to_string()),
            CssToken::Ident("a1-b_c".to_string()),
        ]
    );
}

#[test]
fn an_identifier_may_end_the_text() {
    let (tokens, rejected) = all_tokens("p");
    assert_eq!(tokens, vec![CssToken::Ident("p".to_string())]);
    assert_eq!(rejected, None);
}

#[test]
fn an_at_sign_needs_three_identifier_characters() {
    let (tokens, _) = all_tokens("@import @ab @");
    assert_eq!(
        tokens,
        vec![
            CssToken::AtKeyword("import".to_string()),
            CssToken::Delim('@'),
            CssToken::Ident("ab".to_string()),
            CssToken::Delim('@'),
        ]
    );
}

#[test]
fn an_unsupported_character_stops_the_scan() {
    let mut t = CssTokenizer::new("a * b".to_string());
    assert_eq!(t.next(), Some(CssToken::Ident("a".to_string())));
    assert_eq!(t.rejected(), Some('*'));
    assert_eq!(t.next(), None);
    assert_eq!(t.next(), None);
    assert_eq!(t.rejected(), Some('*'));
}
