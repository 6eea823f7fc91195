//! Response building, serialization, and file-path resolution policy.

use http_server::http_types::HttpError;
use http_server::request::Request;
use http_server::response::Response;

#[test]
fn existing_file_serves_200_with_byte_length() {
    let request = Request::new();
    let mut response = Response::new(&request);
    let raw = response
        .prepare(Some("hello".to_string()), None)
        .unwrap();
    assert_eq!(response.status(), 200);
    assert_eq!(response.body(), "hello");
    assert_eq!(
        raw,
        "HTTP/1.1 200 OK\r\nContent-Type: text/html\r\nServer: Rust Server\r\nContent-Length: 5\r\n\r\n\r\nhello"
    );
}

#[test]
fn missing_file_serves_not_found_document() {
    let request = Request::new();
    let mut response = Response::new(&request);
    let raw = response
        .prepare(None, Some("gone".to_string()))
        .unwrap();
    assert_eq!(response.status(), 404);
    assert_eq!(response.body(), "gone");
    assert_eq!(
        raw,
        "HTTP/1.1 404 Not Found\r\nContent-Type: text/html\r\nServer: Rust Server\r\nContent-Length: 4\r\n\r\n\r\ngone"
    );
}

#[test]
fn unreadable_fallback_is_fatal() {
    let request = Request::new();
    let mut response = Response::new(&request);
    let err = response.prepare(None, None).unwrap_err();
    assert_eq!(err, HttpError::FatalFallback);
}

#[test]
fn content_length_counts_bytes_not_chars() {
    let request = Request::new();
    let mut response = Response::new(&request);
    let raw = response.prepare(Some("héllo".to_string()), None).unwrap();
    assert!(raw.contains("Content-Length: 6\r\n"));
}

#[test]
fn status_text_lookup() {
    let request = Request::new();
    let mut response = Response::new(&request);
    assert_eq!(response.status_text(), "OK");
    response.status_code = 404;
    assert_eq!(response.status_text(), "Not Found");
    response.status_code = 500;
    assert_eq!(response.status_text(), "Internal Server Error");
    response.status_code = 999;
    assert_eq!(response.status_text(), "OK");
}

#[test]
fn usable_candidate_stands() {
    assert_eq!(
        Response::build_file_path("root", "sub/page.html", "index.html", true),
        "root/sub/page.html"
    );
}

#[test]
fn empty_path_resolves_directly_to_index() {
    assert_eq!(
        Response::build_file_path("root", "", "index.html", false),
        "root/index.html"
    );
}

#[test]
fn directory_path_falls_back_to_its_index() {
    assert_eq!(
        Response::build_file_path("root", "docs", "index.html", false),
        "root/docs/index.html"
    );
}
