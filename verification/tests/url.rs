use saba_core::url::Url;

#[test]
fn test_url_with_port_path_and_searchpart() {
    let url = "http://example.com:8888/index.html?a=1".to_string();
    let parsed = Url::new(url).parse().expect("the address should parse");
    assert_eq!(parsed.host(), "example.com");
    assert_eq!(parsed.port(), "8888");
    assert_eq!(parsed.path(), "/index.html");
    assert_eq!(parsed.searchpart(), "a=1");
}

#[test]
fn test_url_without_port() {
    let parsed = Url::new("http://example.com/index.html".to_string())
        .parse()
        .expect("the address should parse");
    assert_eq!(parsed.host(), "example.com");
    assert_eq!(parsed.port(), "80");
    assert_eq!(parsed.path(), "/index.html");
    assert_eq!(parsed.searchpart(), "");
}

#[test]
fn test_url_without_path() {
    let parsed = Url::new("http://example.com".to_string())
        .parse()
        .expect("the address should parse");
    assert_eq!(parsed.host(), "example.com");
    assert_eq!(parsed.port(), "80");
    assert_eq!(parsed.path(), "/");
    assert_eq!(parsed.searchpart(), "");
    let parsed = Url::new("http://example.com:8888".to_string())
        .parse()
        .expect("the address should parse");
    assert_eq!(parsed.host(), "example.com");
    assert_eq!(parsed.port(), "8888");
    assert_eq!(parsed.path(), "/");
    assert_eq!(parsed.searchpart(), "");
}

#[test]
fn test_url_with_deep_path_and_several_marks() {
    let parsed = Url::new("http://a.b:1/x/y.html?a=1?b=2".to_string())
        .parse()
        .expect("the address should parse");
    assert_eq!(parsed.host(), "a.b");
    assert_eq!(parsed.port(), "1");
    assert_eq!(parsed.path(), "/x/y.html");
    assert_eq!(parsed.searchpart(), "a=1?b=2");
}

#[test]
fn test_parse_sets_the_parts_of_the_address_itself() {
    let mut url = Url::new("http://example.com:8888/index.html?a=1".to_string());
    assert_eq!(url.host(), "");
    let parsed = url.parse().expect("the address should parse");
    assert_eq!(parsed, url);
    assert_eq!(url.host(), "example.com");
}

#[test]
fn test_other_schemes_are_refused() {
    let mut url = Url::new("https://example.com:8888/index.html".to_string());
    assert_eq!(
        url.parse(),
        Err("Only HTTP schema is supported.".to_string())
    );
    assert_eq!(url.host(), "");
    assert_eq!(
        Url::new("example.com".to_string()).parse(),
        Err("Only HTTP schema is supported.".to_string())
    );
    assert_eq!(
        Url::new("".to_string()).parse(),
        Err("Only HTTP schema is supported.".to_string())
    );
}

#[test]
fn test_the_scheme_is_the_start_of_the_address() {
    for address in [
        "ftp://a/http://b",
        " http://example.com",
        "xhttp://example.com",
        "http:/example.com",
        "HTTP://example.com",
        "example.com?u=http://b",
    ] {
        let mut url = Url::new(address.to_string());
        assert_eq!(
            url.parse(),
            Err("Only HTTP schema is supported.".to_string()),
            "{}",
            address
        );
        assert_eq!(url, Url::new(address.to_string()));
    }
}

#[test]
fn test_the_scheme_is_taken_off_once() {
    let parsed = Url::new("http://http://b/c".to_string())
        .parse()
        .expect("the address should parse");
    assert_eq!(parsed.host(), "http");
    assert_eq!(parsed.port(), "");
    assert_eq!(parsed.path(), "//b/c");
    assert_eq!(parsed.searchpart(), "");
    let parsed = Url::new("http://a/http://b?c".to_string())
        .parse()
        .expect("the address should parse");
    assert_eq!(parsed.host(), "a");
    assert_eq!(parsed.port(), "80");
    assert_eq!(parsed.path(), "/http://b");
    assert_eq!(parsed.searchpart(), "c");
}
