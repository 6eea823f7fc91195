//! Request parsing: request line, headers, body bounding, error taxonomy.

use http_server::http_types::{HttpError, Method, Version};
use http_server::request::{Request, RequestParser};

#[test]
fn unrecognized_method_defaults_to_get() {
    assert_eq!(RequestParser::parse_method("PATCH").unwrap(), Method::GET);
    assert_eq!(RequestParser::parse_method("get").unwrap(), Method::GET);
    assert_eq!(RequestParser::parse_method("DELETE").unwrap(), Method::DELETE);
    assert_eq!(RequestParser::parse_method("OPTIONS").unwrap(), Method::OPTIONS);
}

#[test]
fn unrecognized_version_defaults_to_http11() {
    assert_eq!(RequestParser::parse_version("HTTP/9.9").unwrap(), Version::HTTP1_1);
    assert_eq!(RequestParser::parse_version("HTTP/1.0").unwrap(), Version::HTTP1_0);
    assert_eq!(RequestParser::parse_version("HTTP/2.0").unwrap(), Version::HTTP2_0);
}

#[test]
fn request_line_defaults_apply_to_whole_parse() {
    let mut request = Request::new();
    request.parse("PATCH /x HTTP/1.1\r\n\r\n").unwrap();
    assert_eq!(request.method(), Method::GET);
    assert_eq!(*request.version(), Version::HTTP1_1);
    assert_eq!(request.uri().path, "x");
}

#[test]
fn request_line_must_have_three_tokens() {
    let mut request = Request::new();
    let err = request.parse("GET /\r\n\r\n").unwrap_err();
    assert_eq!(err, HttpError::MalformedRequest);

    let mut request = Request::new();
    let err = request.parse("GET / HTTP/1.1 extra\r\n\r\n").unwrap_err();
    assert_eq!(err, HttpError::MalformedRequest);
}

#[test]
fn invalid_uri_is_a_distinct_error() {
    let mut request = Request::new();
    let err = request.parse("GET /a-b HTTP/1.1\r\n\r\n").unwrap_err();
    assert_eq!(err, HttpError::InvalidUri);
}

#[test]
fn header_line_parses_to_lowercase_key() {
    let (key, value) = RequestParser::parse_header("Content-Type: text/html").unwrap();
    assert_eq!(key, "content-type");
    assert_eq!(value, "text/html");
}

#[test]
fn header_line_without_separator_is_dropped() {
    let mut request = Request::new();
    request
        .parse("GET / HTTP/1.1\r\nHost: here\r\nNoSeparator\r\n\r\n")
        .unwrap();
    assert_eq!(request.headers.get("host"), Some("here".to_string()));
    assert_eq!(request.headers.get("noseparator"), None);
    assert_eq!(request.headers.len(), 1);
}

#[test]
fn later_header_occurrence_wins() {
    let mut request = Request::new();
    request
        .parse("GET / HTTP/1.1\r\nX-A: one\r\nX-A: two\r\n\r\n")
        .unwrap();
    assert_eq!(request.headers.get("x-a"), Some("two".to_string()));
    assert_eq!(request.headers.len(), 1);
}

#[test]
fn body_bounded_by_content_length() {
    let mut request = Request::new();
    request
        .parse("POST /x HTTP/1.1\r\nContent-Length: 5\r\n\r\nhello world")
        .unwrap();
    assert_eq!(request.body, "hello");
}

#[test]
fn body_shorter_than_content_length_taken_whole() {
    let mut request = Request::new();
    request
        .parse("POST /x HTTP/1.1\r\nContent-Length: 50\r\n\r\nshort")
        .unwrap();
    assert_eq!(request.body, "short");
}

#[test]
fn missing_content_length_means_empty_body() {
    let mut request = Request::new();
    request.parse("POST /x HTTP/1.1\r\n\r\nignored").unwrap();
    assert_eq!(request.body, "");
}

#[test]
fn unparsable_content_length_is_malformed() {
    let mut request = Request::new();
    let err = request
        .parse("POST /x HTTP/1.1\r\nContent-Length: abc\r\n\r\nhello")
        .unwrap_err();
    assert_eq!(err, HttpError::MalformedRequest);
}

#[test]
fn close_line_is_version_status_text() {
    let request = Request::new();
    assert_eq!(request.close_line(400, "Bad Request"), "HTTP/1.1 400 Bad Request");
}
