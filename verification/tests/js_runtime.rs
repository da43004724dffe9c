use saba_core::renderer::dom::node::{Node as DomNode, NodeKind as DomNodeKind};
use saba_core::renderer::js::ast::JsParser;
use saba_core::renderer::html::parser::HtmlParser;
use saba_core::renderer::html::token::HtmlTokenizer;
use saba_core::renderer::js::runtime::{Environment, JsRuntime, RuntimeValue};
use saba_core::renderer::js::token::JsLexer;

fn run(input: &str) -> Vec<Option<RuntimeValue>> {
    let dom = DomNode::new(DomNodeKind::Document);
    let lexer = JsLexer::new(input.to_string());
    let mut parser = JsParser::new(lexer);
    let ast = parser.parse_ast().expect("the script should parse");
    let mut runtime = JsRuntime::new(dom);
    let mut results = Vec::new();
    for node in ast.body() {
        results.push(runtime.eval(node));
    }
    results
}

#[test]
fn test_num() {
    let dom = DomNode::new(DomNodeKind::Document);
    let input = "42".to_string();
    let lexer = JsLexer::new(input);
    let mut parser = JsParser::new(lexer);
    let ast = parser.parse_ast().expect("the script should parse");
    let mut runtime = JsRuntime::new(dom);
    let expected = [Some(RuntimeValue::Number(42))];
    let mut i = 0;

    for node in ast.body() {
        let result = runtime.eval(node);
        assert_eq!(expected[i], result);
        i += 1;
    }
    assert_eq!(i, expected.len());
}

#[test]
fn test_add_nums() {
    let dom = DomNode::new(DomNodeKind::Document);
    let input = "1 + 2".to_string();
    let lexer = JsLexer::new(input);
    let mut parser = JsParser::new(lexer);
    let ast = parser.parse_ast().expect("the script should parse");
    let mut runtime = JsRuntime::new(dom);
    let expected = [Some(RuntimeValue::Number(3))];
    let mut i = 0;

    for node in ast.body() {
        let result = runtime.eval(node);
        assert_eq!(expected[i], result);
        i += 1;
    }
    assert_eq!(i, expected.len());
}

#[test]
fn test_sub_nums() {
    let dom = DomNode::new(DomNodeKind::Document);
    let input = "2 - 1".to_string();
    let lexer = JsLexer::new(input);
    let mut parser = JsParser::new(lexer);
    let ast = parser.parse_ast().expect("the script should parse");
    let mut runtime = JsRuntime::new(dom);
    let expected = [Some(RuntimeValue::Number(1))];
    let mut i = 0;

    for node in ast.body() {
        let result = runtime.eval(node);
        assert_eq!(expected[i], result);
        i += 1;
    }
    assert_eq!(i, expected.len());
}

#[test]
fn test_assign_variable() {
    let dom = DomNode::new(DomNodeKind::Document);
    let input = "var foo=42;".to_string();
    let lexer = JsLexer::new(input);
    let mut parser = JsParser::new(lexer);
    let ast = parser.parse_ast().expect("the script should parse");
    let mut runtime = JsRuntime::new(dom);
    let expected = [None];
    let mut i = 0;

    for node in ast.body() {
        let result = runtime.eval(node);
        assert_eq!(expected[i], result);
        i += 1;
    }
    assert_eq!(i, expected.len());
}

#[test]
fn test_add_variable_and_num() {
    let dom = DomNode::new(DomNodeKind::Document);
    let input = "var foo=42; foo+1".to_string();
    let lexer = JsLexer::new(input);
    let mut parser = JsParser::new(lexer);
    let ast = parser.parse_ast().expect("the script should parse");
    let mut runtime = JsRuntime::new(dom);
    let expected = [None, Some(RuntimeValue::Number(43))];
    let mut i = 0;

    for node in ast.body() {
        let result = runtime.eval(node);
        assert_eq!(expected[i], result);
        i += 1;
    }
    assert_eq!(i, expected.len());
}

#[test]
fn test_reassign_variable() {
    let dom = DomNode::new(DomNodeKind::Document);
    let input = "var foo=42; foo=1; foo".to_string();
    let lexer = JsLexer::new(input);
    let mut parser = JsParser::new(lexer);
    let ast = parser.parse_ast().expect("the script should parse");
    let mut runtime = JsRuntime::new(dom);
    let expected = [None, None, Some(RuntimeValue::Number(1))];
    let mut i = 0;

    for node in ast.body() {
        let result = runtime.eval(node);
        assert_eq!(expected[i], result);
        i += 1;
    }
    assert_eq!(i, expected.len());
}

#[test]
fn test_add_function_and_num() {
    let dom = DomNode::new(DomNodeKind::Document);
    let input = "function foo() { return 42; } foo()+1".to_string();
    let lexer = JsLexer::new(input);
    let mut parser = JsParser::new(lexer);
    let ast = parser.parse_ast().expect("the script should parse");
    let mut runtime = JsRuntime::new(dom);
    let expected = [None, Some(RuntimeValue::Number(43))];
    let mut i = 0;

    for node in ast.body() {
        let result = runtime.eval(node);
        assert_eq!(expected[i], result);
        i += 1;
    }
    assert_eq!(i, expected.len());
}

#[test]
fn test_add_function_and_num_with_args() {
    let dom = DomNode::new(DomNodeKind::Document);
    let input = "function foo(a, b) { return a + b; } foo(1, 2) + 3".to_string();
    let lexer = JsLexer::new(input);
    let mut parser = JsParser::new(lexer);
    let ast = parser.parse_ast().expect("the script should parse");
    let mut runtime = JsRuntime::new(dom);
    let expected = [None, Some(RuntimeValue::Number(6))];
    let mut i = 0;

    for node in ast.body() {
        let result = runtime.eval(node);
        assert_eq!(expected[i], result);
        i += 1;
    }
    assert_eq!(i, expected.len());
}

#[test]
fn test_local_variable() {
    let dom = DomNode::new(DomNodeKind::Document);
    let input = "var a=42; function foo() { var a=1; return a; } foo()+a".to_string();
    let lexer = JsLexer::new(input);
    let mut parser = JsParser::new(lexer);
    let ast = parser.parse_ast().expect("the script should parse");
    let mut runtime = JsRuntime::new(dom);
    let expected = [None, None, Some(RuntimeValue::Number(43))];
    let mut i = 0;

    for node in ast.body() {
        let result = runtime.eval(node);
        assert_eq!(expected[i], result);
        i += 1;
    }
    assert_eq!(i, expected.len());
}

#[test]
fn string_concatenation_and_saturation() {
    assert_eq!(
        run("\"a\" + 1"),
        vec![Some(RuntimeValue::StringLiteral("a1".to_string()))]
    );
    assert_eq!(run("1 - 2"), vec![Some(RuntimeValue::Number(0))]);
    assert_eq!(
        run("18446744073709551615 + 1"),
        vec![Some(RuntimeValue::Number(u64::MAX))]
    );
    assert_eq!(run("\"a\" - 1"), vec![Some(RuntimeValue::Number(0))]);
}

#[test]
fn test_a_script_gives_an_element_a_text() {
    let html = "<html><head></head><body><h1 id=\"target\"><b>old</b></h1><p id=other>stay</p></body></html>";
    let window = HtmlParser::new(HtmlTokenizer::new(html.to_string())).construct_tree();
    let lexer = JsLexer::new(
        "var target=document.getElementById(\"target\"); target.textContent=\"foo\"+1; \
         var none=document.getElementById(\"nothing\"); none.textContent=\"bar\";"
            .to_string(),
    );
    let program = JsParser::new(lexer)
        .parse_ast()
        .expect("the script should parse");
    let mut runtime = JsRuntime::new(window.document);
    runtime.execute(&program);
    let dom = runtime.dom_root();
    assert_eq!(dom.kind(), &DomNodeKind::Document);
    let html = dom.first_child().as_ref().unwrap();
    let body = html
        .first_child()
        .as_ref()
        .unwrap()
        .next_sibling()
        .as_ref()
        .unwrap();
    let h1 = body.first_child().as_ref().unwrap();
    let text = h1.first_child().as_ref().unwrap();
    assert_eq!(text.kind(), &DomNodeKind::Text("foo1".to_string()));
    assert!(text.first_child().is_none());
    assert!(text.next_sibling().is_none());
    let p = h1.next_sibling().as_ref().unwrap();
    assert_eq!(
        p.first_child().as_ref().unwrap().kind(),
        &DomNodeKind::Text("stay".to_string())
    );
}

#[test]
fn test_values_as_text() {
    assert_eq!(RuntimeValue::Number(0).to_string(), "0");
    assert_eq!(RuntimeValue::Number(1203).to_string(), "1203");
    assert_eq!(
        RuntimeValue::Number(u64::MAX).to_string(),
        "18446744073709551615"
    );
    assert_eq!(
        RuntimeValue::StringLiteral("x y".to_string()).to_string(),
        "x y"
    );
    assert_eq!(
        RuntimeValue::HtmlElement {
            object: "id".to_string(),
            property: None
        }
        .to_string(),
        "HtmlElement: id"
    );
    assert_eq!(
        RuntimeValue::Number(2).add(RuntimeValue::StringLiteral("x".to_string())),
        RuntimeValue::StringLiteral("2x".to_string())
    );
    assert_eq!(
        RuntimeValue::Number(2).sub(RuntimeValue::Number(2)),
        RuntimeValue::Number(0)
    );
}

#[test]
fn test_variables_of_a_scope_and_of_the_scope_around_it() {
    let mut outer = Environment::new(None);
    outer.add_variable("a".to_string(), Some(RuntimeValue::Number(1)));
    outer.add_variable("b".to_string(), Some(RuntimeValue::Number(2)));
    outer.add_variable("a".to_string(), Some(RuntimeValue::Number(3)));
    assert_eq!(
        outer.get_variable("a".to_string()),
        Some(RuntimeValue::Number(1))
    );
    outer.update_variable("a".to_string(), Some(RuntimeValue::Number(4)));
    assert_eq!(
        outer.get_variable("a".to_string()),
        Some(RuntimeValue::Number(3))
    );
    outer.update_variable("zz".to_string(), Some(RuntimeValue::Number(9)));
    assert_eq!(outer.get_variable("zz".to_string()), None);
    let mut inner = Environment::new(Some(Box::new(outer)));
    assert_eq!(
        inner.get_variable("b".to_string()),
        Some(RuntimeValue::Number(2))
    );
    inner.add_variable("b".to_string(), None);
    assert_eq!(inner.get_variable("b".to_string()), None);
    inner.add_variable("c".to_string(), Some(RuntimeValue::Number(5)));
    assert_eq!(
        inner.get_variable("c".to_string()),
        Some(RuntimeValue::Number(5))
    );
    assert_eq!(inner.get_variable("d".to_string()), None);
}

#[test]
fn test_calls_that_cannot_be_made_have_no_value() {
    assert_eq!(run("nothing()"), vec![None]);
    assert_eq!(run("function f(a) { return a; } f()"), vec![None, None]);
    assert_eq!(
        run("function f() { return f(); } f()"),
        vec![None, None]
    );
    assert_eq!(run("document.getElementById(\"x\")"), vec![None]);
    assert_eq!(run("document.getElementById()"), vec![None]);
}
