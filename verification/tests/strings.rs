//! The string utilities under the parser.

use http_server::strutil::{
    ascii_lowercase, parse_usize, split_str, str_eq, trim_slashes_exec, usize_to_string,
};

#[test]
fn decimal_rendering() {
    assert_eq!(usize_to_string(0), "0");
    assert_eq!(usize_to_string(7), "7");
    assert_eq!(usize_to_string(10), "10");
    assert_eq!(usize_to_string(65535), "65535");
}

#[test]
fn decimal_parsing() {
    assert_eq!(parse_usize("0"), Ok(0));
    assert_eq!(parse_usize("5"), Ok(5));
    assert_eq!(parse_usize("00042"), Ok(42));
    assert!(parse_usize("").is_err());
    assert!(parse_usize("5a").is_err());
    assert!(parse_usize("-1").is_err());
    assert!(parse_usize("99999999999999999999999999").is_err());
}

#[test]
fn splitting_keeps_empty_pieces() {
    let pieces = split_str("a&&b&", '&');
    assert_eq!(pieces, vec!["a", "", "b", ""]);
    assert_eq!(split_str("", '&'), vec![""]);
    assert_eq!(split_str("plain", '&'), vec!["plain"]);
}

#[test]
fn lowercase_is_ascii_only() {
    assert_eq!(ascii_lowercase("Content-TYPE"), "content-type");
    assert_eq!(ascii_lowercase("x_9"), "x_9");
}

#[test]
fn slash_trimming() {
    assert_eq!(trim_slashes_exec("//a/b//"), "a/b");
    assert_eq!(trim_slashes_exec("/"), "");
    assert_eq!(trim_slashes_exec("ab"), "ab");
}

#[test]
fn string_equality() {
    assert!(str_eq("same", "same"));
    assert!(!str_eq("same", "sam"));
    assert!(!str_eq("same", "samX"));
}
