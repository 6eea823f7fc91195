//! URI validation and decomposition.

use http_server::request::RequestParser;
use http_server::uri::parse_query_params;

#[test]
fn root_always_validates() {
    let uri = RequestParser::parse_uri("/").unwrap();
    assert_eq!(uri.path, "");
    assert_eq!(uri.params.len(), 0);
}

#[test]
fn path_and_query_decompose() {
    let uri = RequestParser::parse_uri("/a/b?x=1&y=2").unwrap();
    assert_eq!(uri.path, "a/b");
    assert_eq!(uri.params.len(), 2);
    assert_eq!(uri.params.get("x"), Some("1".to_string()));
    assert_eq!(uri.params.get("y"), Some("2".to_string()));
}

#[test]
fn extension_paths_validate() {
    let uri = RequestParser::parse_uri("/styles/main.css?v=2").unwrap();
    assert_eq!(uri.path, "styles/main.css");
    assert_eq!(uri.params.get("v"), Some("2".to_string()));

    let uri = RequestParser::parse_uri("index.html").unwrap();
    assert_eq!(uri.path, "index.html");
}

#[test]
fn duplicate_query_key_overwrites() {
    let uri = RequestParser::parse_uri("/a?x=1&x=2").unwrap();
    assert_eq!(uri.params.len(), 1);
    assert_eq!(uri.params.get("x"), Some("2".to_string()));
}

#[test]
fn empty_value_param_kept_empty() {
    let uri = RequestParser::parse_uri("/ab?x=").unwrap();
    assert_eq!(uri.path, "ab");
    assert_eq!(uri.params.len(), 1);
    assert_eq!(uri.params.get("x"), Some("".to_string()));

    let uri = RequestParser::parse_uri("/a?x=1&y=").unwrap();
    assert_eq!(uri.params.get("x"), Some("1".to_string()));
    assert_eq!(uri.params.get("y"), Some("".to_string()));

    let params = parse_query_params("x=");
    assert_eq!(params.len(), 1);
    assert_eq!(params.get("x"), Some("".to_string()));
}

#[test]
fn missing_equals_defaults_value_empty() {
    let params = parse_query_params("x");
    assert_eq!(params.len(), 1);
    assert_eq!(params.get("x"), Some("".to_string()));
}

#[test]
fn empty_key_param_dropped() {
    let params = parse_query_params("=v");
    assert_eq!(params.len(), 0);
    assert_eq!(params.get(""), None);
}

#[test]
fn narrow_grammar_rejects() {
    assert!(RequestParser::parse_uri("").is_err());
    assert!(RequestParser::parse_uri("/a b").is_err());
    assert!(RequestParser::parse_uri("/a-b").is_err());
    assert!(RequestParser::parse_uri("/a//b").is_err());
    assert!(RequestParser::parse_uri("/a/").is_err());
    assert!(RequestParser::parse_uri("/a..b").is_err());
    assert!(RequestParser::parse_uri("/a?").is_err());
    assert!(RequestParser::parse_uri("/a?=1").is_err());
    assert!(RequestParser::parse_uri("/a?x").is_err());
    assert!(RequestParser::parse_uri("/a?x=1&&y=2").is_err());
    assert!(RequestParser::parse_uri("/a?x=1?y=2").is_err());
}

#[test]
fn grammar_accepts_plain_segments() {
    assert!(RequestParser::parse_uri("/a").is_ok());
    assert!(RequestParser::parse_uri("a").is_ok());
    assert!(RequestParser::parse_uri("/a/b/c").is_ok());
    assert!(RequestParser::parse_uri("/a_1/b2?k_9=v_0").is_ok());
}

#[test]
fn outer_slashes_trimmed() {
    let uri = RequestParser::parse_uri("/deep/path").unwrap();
    assert_eq!(uri.path, "deep/path");
}
