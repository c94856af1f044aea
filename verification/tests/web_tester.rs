use aiprog::test_support::web_tester::{build_response, parse_request, RequestSnapshot, TestServerBuilder};
use aiprog::Error;

fn message(e: Error) -> String {
    match e {
        Error::Custom(m) => m,
        Error::CustomAndCause(c, k) => format!("{c}: {k}"),
    }
}

#[test]
fn test_parse_request_basic() {
    let raw = b"POST /api/items HTTP/1.1\r\nHost: localhost\r\nContent-Type: application/json\r\nContent-Length: 7\r\n\r\n{\"a\":1}";
    let req = parse_request(raw).ok().expect("should parse");
    assert_eq!(req.method, "POST");
    assert_eq!(req.path, "/api/items");
    assert_eq!(req.header("host").as_deref(), Some("localhost"));
    assert_eq!(req.header("content-type").as_deref(), Some("application/json"));
    assert_eq!(req.header("Host"), None);
    assert_eq!(req.body, "{\"a\":1}");
    assert_eq!(req.headers.len(), 3);
}

#[test]
fn test_parse_request_body_bounds() {
    // Fewer bytes than announced: the body is what is there.
    let short = b"PUT /x HTTP/1.1\r\nContent-Length: 100\r\n\r\nabc";
    assert_eq!(parse_request(short).ok().unwrap().body, "abc");
    // More bytes than announced: the body is cut.
    let long = b"PUT /x HTTP/1.1\r\ncontent-length: 2\r\n\r\nabcdef";
    assert_eq!(parse_request(long).ok().unwrap().body, "ab");
    // No or unreadable length: no body.
    let none = b"PUT /x HTTP/1.1\r\n\r\nabc";
    assert_eq!(parse_request(none).ok().unwrap().body, "");
    let bad = b"PUT /x HTTP/1.1\r\nContent-Length: x1\r\n\r\nabc";
    assert_eq!(parse_request(bad).ok().unwrap().body, "");
    // Invalid UTF-8 in the body is replaced.
    let lossy = b"PUT /x HTTP/1.1\r\nContent-Length: 2\r\n\r\na\xff";
    assert_eq!(parse_request(lossy).ok().unwrap().body, "a\u{FFFD}");
}

#[test]
fn test_parse_request_headers_rules() {
    let raw = b"GET  /p   HTTP/1.1\r\n  X-Name :  one \r\nno colon here\r\nx-name: two\r\nA: b:c\r\n\r\n";
    let req = parse_request(raw).ok().unwrap();
    assert_eq!(req.method, "GET");
    assert_eq!(req.path, "/p");
    // A later value replaces an earlier one; names are lower case and trimmed.
    assert_eq!(req.header("x-name").as_deref(), Some("two"));
    // Only the first colon splits.
    assert_eq!(req.header("a").as_deref(), Some("b:c"));
    assert_eq!(req.headers.len(), 2);
}

#[test]
fn test_parse_request_errors() {
    assert_eq!(
        message(parse_request(b"GET / HTTP/1.1\r\nHost: x\r\n").err().unwrap()),
        "Invalid HTTP request: missing double CRLF"
    );
    assert_eq!(message(parse_request(b"\xff\xfe\r\n\r\n").err().unwrap()), "Non-UTF8 request headers");
    assert_eq!(message(parse_request(b"\r\n\r\n").err().unwrap()), "Empty request");
    assert_eq!(message(parse_request(b"   \r\n\r\n").err().unwrap()), "Missing method");
    assert_eq!(message(parse_request(b"GET\r\n\r\n").err().unwrap()), "Missing path");
}

#[test]
fn test_build_response() {
    let headers = vec![("Content-Type".to_string(), "text/plain".to_string())];
    let bytes = build_response(201, &headers, b"hello");
    assert_eq!(
        String::from_utf8(bytes).unwrap(),
        "HTTP/1.1 201 OK\r\nContent-Type: text/plain\r\nContent-Length: 5\r\n\r\nhello"
    );
    assert_eq!(build_response(200, &[], b""), b"HTTP/1.1 200 OK\r\nContent-Length: 0\r\n\r\n".to_vec());
}

#[test]
fn test_builder_configuration() {
    let builder = TestServerBuilder::new().status(404).header("X-A", "1").header("X-A", "2").body("nope");
    assert_eq!(
        builder.response(),
        b"HTTP/1.1 404 OK\r\nX-A: 1\r\nX-A: 2\r\nContent-Length: 4\r\n\r\nnope".to_vec()
    );
    let builder = builder.body_bytes(vec![0u8, 1, 2]).validate(|req: &RequestSnapshot| {
        assert_eq!(req.method, "GET");
    });
    let (status, headers, body, validator) = builder.into_parts();
    assert_eq!(status, 404);
    assert_eq!(headers.len(), 2);
    assert_eq!(body, vec![0u8, 1, 2]);
    let req = parse_request(b"GET / HTTP/1.1\r\n\r\n").ok().unwrap();
    (validator.expect("validator set"))(&req);
}

#[test]
fn test_builder_defaults() {
    let (status, headers, body, validator) = TestServerBuilder::new().into_parts();
    assert_eq!(status, 200);
    assert!(headers.is_empty());
    assert!(body.is_empty());
    assert!(validator.is_none());
}
