use saba_core::error::Error;
use saba_core::renderer::js::ast::{JsParser, Node};
use saba_core::renderer::js::token::{JsLexer, Token};

fn all_tokens(js: &str) -> (Vec<Token>, Option<char>) {
    let mut lexer = JsLexer::new(js.to_string());
    let mut tokens = Vec::new();
    while let Some(token) = lexer.next() {
        tokens.push(token);
    }
    (tokens, lexer.rejected())
}

#[test]
fn js_token_test_empty() {
    let mut lexer = JsLexer::new("".to_string());
    assert!(lexer.next().is_none());
    assert_eq!(lexer.rejected(), None);
}

#[test]
fn test_numbers_and_punctuators() {
    let (tokens, rejected) = all_tokens("1 + 20-3;");
    assert_eq!(
        tokens,
        vec![
            Token::Number(1),
            Token::Punctuator('+'),
            Token::Number(20),
            Token::Punctuator('-'),
            Token::Number(3),
            Token::Punctuator(';'),
        ]
    );
    assert_eq!(rejected, None);
}

#[test]
fn test_words_and_texts() {
    let (tokens, _) = all_tokens("var foo=\"a b\"; function f_1($x) { return variable; }");
    assert_eq!(
        tokens,
        vec![
            Token::Keyword("var".to_string()),
            Token::Identifier("foo".to_string()),
            Token::Punctuator('='),
            Token::StringLiteral("a b".to_string()),
            Token::Punctuator(';'),
            Token::Keyword("function".to_string()),
            Token::Identifier("f_1".to_string()),
            Token::Punctuator('('),
            Token::Identifier("$x".to_string()),
            Token::Punctuator(')'),
            Token::Punctuator('{'),
            Token::Keyword("return".to_string()),
            Token::Identifier("variable".to_string()),
            Token::Punctuator(';'),
            Token::Punctuator('}'),
        ]
    );
}

#[test]
fn test_the_greatest_number() {
    let (tokens, rejected) = all_tokens("18446744073709551615 0007");
    assert_eq!(
        tokens,
        vec![Token::Number(u64::MAX), Token::Number(7)]
    );
    assert_eq!(rejected, None);
    let (tokens, rejected) = all_tokens("1 18446744073709551616 2");
    assert_eq!(tokens, vec![Token::Number(1)]);
    assert_eq!(rejected, Some('1'));
}

#[test]
fn test_an_unsupported_character_stops_the_scan() {
    let (tokens, rejected) = all_tokens("a * b");
    assert_eq!(tokens, vec![Token::Identifier("a".to_string())]);
    assert_eq!(rejected, Some('*'));
    let mut parser = JsParser::new(JsLexer::new("a * b".to_string()));
    assert_eq!(
        parser.parse_ast(),
        Err(Error::UnexpectedInput(
            "char * is not supported yet".to_string()
        ))
    );
}

#[test]
fn test_the_tree_of_a_declaration() {
    let mut parser = JsParser::new(JsLexer::new("var foo=1+2;".to_string()));
    let program = parser.parse_ast().expect("the script should parse");
    assert_eq!(
        program.body(),
        &vec![Node::VariableDeclaration {
            declarations: vec![Some(Box::new(Node::VariableDeclarator {
                id: Some(Box::new(Node::Identifier("foo".to_string()))),
                init: Some(Box::new(Node::AdditiveExpression {
                    operator: '+',
                    left: Some(Box::new(Node::NumericLiteral(1))),
                    right: Some(Box::new(Node::NumericLiteral(2))),
                })),
            }))],
        }]
    );
}

#[test]
fn test_the_tree_of_a_function_and_a_call() {
    let mut parser = JsParser::new(JsLexer::new(
        "function f(a) { return a; } document.getElementById(\"x\").y".to_string(),
    ));
    let program = parser.parse_ast().expect("the script should parse");
    assert_eq!(
        program.body()[0],
        Node::FunctionDeclaration {
            id: Some(Box::new(Node::Identifier("f".to_string()))),
            params: vec![Some(Box::new(Node::Identifier("a".to_string())))],
            body: Some(Box::new(Node::BlockStatement {
                body: vec![Some(Box::new(Node::ReturnStatement {
                    argument: Some(Box::new(Node::Identifier("a".to_string()))),
                }))],
            })),
        }
    );
    assert_eq!(
        program.body()[1],
        Node::ExpressionStatement(Some(Box::new(Node::CallExpression {
            callee: Some(Box::new(Node::MemberExpression {
                object: Some(Box::new(Node::Identifier("document".to_string()))),
                property: Some(Box::new(Node::Identifier("getElementById".to_string()))),
            })),
            arguments: vec![Some(Box::new(Node::StringLiteral("x".to_string())))],
        })))
    );
}

#[test]
fn test_a_script_that_breaks_off_is_read_as_far_as_it_goes() {
    for script in ["function", "function f(", "function f(a, b", "function f() {", "f(1,", "var", "var a =", "a.", "1 +", "return"] {
        let mut parser = JsParser::new(JsLexer::new(script.to_string()));
        assert!(parser.parse_ast().is_ok(), "{}", script);
    }
}
