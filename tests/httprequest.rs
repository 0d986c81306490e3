use http::request::{process_header_line, process_request_line};
use http::{HttpRequest, Method, Resource, Version};
use std::collections::HashMap;

fn header_map(req: &HttpRequest) -> HashMap<String, String> {
    req.headers.iter().cloned().collect()
}

#[test]
fn test_method_into() {
    let m: Method = "GET".into();
    assert_eq!(m, Method::Get);
}

#[test]
fn test_version_into() {
    let v: Version = "HTTP/1.1".into();
    assert_eq!(v, Version::V1_1);
}

#[test]
fn test_read_http() {
    let raw_request = String::from(
        "GET / HTTP/1.1\r\n
            Host: example.com\r\n
            Connection: keep-alive\r\n
            \r\n",
    );
    let mut headers_expected: HashMap<String, String> = HashMap::new();
    headers_expected.insert("Host".into(), "example.com".into());
    headers_expected.insert("Connection".into(), "keep-alive".into());
    let req: HttpRequest = raw_request.into();
    assert_eq!(Method::Get, req.method);
    assert_eq!(Version::V1_1, req.version);
    assert_eq!(Resource::Path("/".to_string()), req.resource);
    assert_eq!(headers_expected, header_map(&req));
}

#[test]
fn full_request_with_crlf() {
    let req: HttpRequest = String::from(
        "GET / HTTP/1.1\r\nHost: example.com\r\nConnection: keep-alive\r\n\r\n",
    )
    .into();
    let mut expected: HashMap<String, String> = HashMap::new();
    expected.insert("Host".into(), "example.com".into());
    expected.insert("Connection".into(), "keep-alive".into());
    assert_eq!(req.method, Method::Get);
    assert_eq!(req.version, Version::V1_1);
    assert_eq!(req.resource, Resource::Path("/".to_string()));
    assert_eq!(header_map(&req), expected);
    assert_eq!(req.headers.len(), 2);
    assert_eq!(req.body, "");
}

#[test]
fn method_from_tokens() {
    assert_eq!(Method::from("POST"), Method::Post);
    assert_eq!(Method::from("get"), Method::Uninitialized);
    assert_eq!(Method::from(""), Method::Uninitialized);
    assert_eq!(Method::from("GETS"), Method::Uninitialized);
}

#[test]
fn version_from_tokens() {
    assert_eq!(Version::from("HTTP/2.0"), Version::Uninitialized);
    assert_eq!(Version::from("HTTP/1.1 "), Version::Uninitialized);
    assert_eq!(Version::from(""), Version::Uninitialized);
}

#[test]
fn post_request_line() {
    let req = HttpRequest::parse("POST /submit HTTP/1.1\n");
    assert_eq!(req.method, Method::Post);
    assert_eq!(req.version, Version::V1_1);
    assert_eq!(req.resource, Resource::Path("/submit".to_string()));
}

#[test]
fn unknown_method_and_version() {
    let req = HttpRequest::parse("PUT /x HTTP/2.0\r\n");
    assert_eq!(req.method, Method::Uninitialized);
    assert_eq!(req.version, Version::Uninitialized);
    assert_eq!(req.resource, Resource::Path("/x".to_string()));
}

#[test]
fn no_request_line() {
    let req = HttpRequest::parse("Host: a\r\n\r\nhello");
    assert_eq!(req.method, Method::Uninitialized);
    assert_eq!(req.version, Version::Uninitialized);
    assert_eq!(req.resource, Resource::Path(String::new()));
    assert_eq!(req.body, "hello");
}

#[test]
fn empty_input() {
    let req = HttpRequest::parse("");
    assert_eq!(req.method, Method::Uninitialized);
    assert_eq!(req.version, Version::Uninitialized);
    assert_eq!(req.resource, Resource::Path(String::new()));
    assert!(req.headers.is_empty());
    assert_eq!(req.body, "");
}

#[test]
fn request_line_missing_tokens() {
    let (m, r, v) = process_request_line("HTTP");
    assert_eq!(m, Method::Uninitialized);
    assert_eq!(r, Resource::Path(String::new()));
    assert_eq!(v, Version::Uninitialized);
    let (m, r, v) = process_request_line("GET HTTP");
    assert_eq!(m, Method::Get);
    assert_eq!(r, Resource::Path("HTTP".to_string()));
    assert_eq!(v, Version::Uninitialized);
}

#[test]
fn request_line_extra_tokens_and_spacing() {
    let (m, r, v) = process_request_line("  GET \t /a/b   HTTP/1.1  extra");
    assert_eq!(m, Method::Get);
    assert_eq!(r, Resource::Path("/a/b".to_string()));
    assert_eq!(v, Version::V1_1);
}

#[test]
fn last_request_line_wins() {
    let req = HttpRequest::parse("GET /first HTTP/1.1\nPOST /second HTTP/1.0\n");
    assert_eq!(req.method, Method::Post);
    assert_eq!(req.version, Version::Uninitialized);
    assert_eq!(req.resource, Resource::Path("/second".to_string()));
}

#[test]
fn header_key_and_value_trimmed() {
    let (k, v) = process_header_line("  Host  :  example.com  ");
    assert_eq!(k, "Host");
    assert_eq!(v, "example.com");
}

#[test]
fn header_unicode_whitespace_trimmed() {
    let (k, v) = process_header_line("\u{3000}Host\u{a0}:\u{2003}x\u{85}");
    assert_eq!(k, "Host");
    assert_eq!(v, "x");
}

#[test]
fn header_value_keeps_later_colons() {
    let (k, v) = process_header_line("Host: example.com:8080");
    assert_eq!(k, "Host");
    assert_eq!(v, "example.com:8080");
}

#[test]
fn header_empty_key_and_value() {
    assert_eq!(process_header_line(": v"), (String::new(), "v".to_string()));
    assert_eq!(process_header_line("k:"), ("k".to_string(), String::new()));
    assert_eq!(process_header_line("no colon"), ("no colon".to_string(), String::new()));
}

#[test]
fn duplicate_header_later_wins() {
    let req = HttpRequest::parse("GET / HTTP/1.1\r\nX: one\r\nY: y\r\nX: two\r\n\r\n");
    let map = header_map(&req);
    assert_eq!(req.headers.len(), 2);
    assert_eq!(map.get("X").map(String::as_str), Some("two"));
    assert_eq!(map.get("Y").map(String::as_str), Some("y"));
}

#[test]
fn body_empty_without_fallback_line() {
    let req = HttpRequest::parse("GET / HTTP/1.1\r\nA: b\r\n\r\n\r\n");
    assert_eq!(req.body, "");
}

#[test]
fn single_fallback_line_is_body_verbatim() {
    let req = HttpRequest::parse("GET / HTTP/1.1\r\nA: b\r\n\r\n  hello world  ");
    assert_eq!(req.body, "  hello world  ");
}

#[test]
fn last_fallback_line_is_body() {
    let req = HttpRequest::parse("GET / HTTP/1.1\r\n\r\nfirst\r\nsecond\r\n");
    assert_eq!(req.body, "second");
}

#[test]
fn bare_carriage_return_at_end_kept() {
    let req = HttpRequest::parse("GET / HTTP/1.1\nfoo\r");
    assert_eq!(req.body, "foo\r");
}

#[test]
fn blank_lines_do_not_change_result() {
    let a = HttpRequest::parse("GET /p HTTP/1.1\r\nK: v\r\nbody");
    let b = HttpRequest::parse("\r\n\nGET /p HTTP/1.1\r\n\r\n\nK: v\n\r\n\nbody\n\n");
    assert_eq!(a.method, b.method);
    assert_eq!(a.version, b.version);
    assert_eq!(a.resource, b.resource);
    assert_eq!(header_map(&a), header_map(&b));
    assert_eq!(a.body, b.body);
    assert_eq!(b.body, "body");
}
