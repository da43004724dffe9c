use saba_core::error::Error;
use saba_core::http::{Header, HttpClient, HttpResponse};

#[test]
fn test_the_text_of_a_request() {
    let client = HttpClient::new();
    assert_eq!(
        client.request(&"example.com".to_string(), &"index.html".to_string()),
        "GET /index.html HTTP/1.1\nHost: example.com\nAccept: text/html\nConnection: close\n\n"
    );
}

#[test]
fn test_the_parts_of_a_response() {
    let response = HttpResponse::from_parts(
        "HTTP/1.1".to_string(),
        302,
        "Found".to_string(),
        vec![
            Header::new("Date".to_string(), "xx xx xx".to_string()),
            Header::new("Location".to_string(), "http://a/b".to_string()),
            Header::new("Location".to_string(), "http://c/d".to_string()),
        ],
        "<html></html>".to_string(),
    );
    assert_eq!(response.version(), "HTTP/1.1");
    assert_eq!(response.status_code(), 302);
    assert_eq!(response.reason(), "Found");
    assert_eq!(response.body(), "<html></html>");
    assert_eq!(
        response.header_value(&"Location".to_string()),
        Some("http://a/b".to_string())
    );
    assert_eq!(response.header_value(&"location".to_string()), None);
}

#[test]
fn test_the_message_of_an_error() {
    assert_eq!(Error::Network("a".to_string()).message(), "a");
    assert_eq!(Error::UnexpectedInput("b".to_string()).message(), "b");
    assert_eq!(Error::InvalidUI("c".to_string()).message(), "c");
    assert_eq!(Error::Other("d".to_string()).message(), "d");
    assert_eq!(Error::Other("d".to_string()).clone(), Error::Other("d".to_string()));
}

#[test]
fn test_a_response_is_read_from_text() {
    let raw = "\n  HTTP/1.1 302 Found here\r\nDate: xx xx xx\r\nLocation :  http://a/b:c \r\nEmpty\r\n\r\n<html>\r\n<body></body>\n\n</html>\n";
    let response = HttpResponse::new(raw.to_string()).expect("a response");
    assert_eq!(
        response,
        HttpResponse::from_parts(
            "HTTP/1.1".to_string(),
            302,
            "Found".to_string(),
            vec![
                Header::new("Date".to_string(), "xx xx xx".to_string()),
                Header::new("Location".to_string(), "http://a/b:c".to_string()),
                Header::new("Empty".to_string(), "".to_string()),
            ],
            "<html>\n<body></body>\n\n</html>\n".to_string(),
        )
    );
    assert_eq!(
        response.header_value(&"Location".to_string()),
        Some("http://a/b:c".to_string())
    );
}

#[test]
fn test_a_response_without_headers() {
    let response = HttpResponse::new("HTTP/1.1 200 OK\n<html></html>".to_string()).unwrap();
    assert_eq!(
        response,
        HttpResponse::from_parts(
            "HTTP/1.1".to_string(),
            200,
            "OK".to_string(),
            Vec::new(),
            "<html></html>".to_string(),
        )
    );
    let response = HttpResponse::new("HTTP/1.1 200 OK\n\n<html></html>".to_string()).unwrap();
    assert_eq!(response.headers.len(), 0);
    assert_eq!(response.body(), "\n<html></html>");
    let response = HttpResponse::new("HTTP/1.1 200 OK\n\n\n<html></html>".to_string()).unwrap();
    assert_eq!(
        response.headers,
        vec![Header::new("".to_string(), "".to_string())]
    );
    assert_eq!(response.body(), "<html></html>");
}

#[test]
fn test_an_odd_status_line() {
    for (line, version, status, reason) in [
        ("HTTP/1.1", "HTTP/1.1", 404, ""),
        ("HTTP/1.1 200", "HTTP/1.1", 200, ""),
        ("HTTP/1.1 abc OK", "HTTP/1.1", 404, "OK"),
        ("HTTP/1.1  200 OK", "HTTP/1.1", 404, "200"),
        ("HTTP/1.1 4294967295 x", "HTTP/1.1", 4294967295, "x"),
        ("HTTP/1.1 4294967296 x", "HTTP/1.1", 404, "x"),
        ("HTTP/1.1 99999999999999999999999 x", "HTTP/1.1", 404, "x"),
    ] {
        let response = HttpResponse::new(format!("{}\nbody", line)).unwrap();
        assert_eq!(response.version(), version, "{}", line);
        assert_eq!(response.status_code(), status, "{}", line);
        assert_eq!(response.reason(), reason, "{}", line);
        assert_eq!(response.body(), "body", "{}", line);
    }
}

#[test]
fn test_one_line_is_no_response() {
    assert_eq!(
        HttpResponse::new("  HTTP/1.1 200 OK".to_string()),
        Err(Error::Network(
            "invalid http response: HTTP/1.1 200 OK".to_string()
        ))
    );
    assert_eq!(
        HttpResponse::new("".to_string()),
        Err(Error::Network("invalid http response: ".to_string()))
    );
}
