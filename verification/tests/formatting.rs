//! Checks of the English-list formatter and the text utilities.

use portkill::format::{port_strings, prettify_strings};
use portkill::text::{chars_of, contains_chars, parse_uint, string_of_chars, trim_chars};

fn strings(items: &[&str]) -> Vec<String> {
    items.iter().map(|s| s.to_string()).collect()
}

#[test]
fn prettify_empty() {
    assert_eq!(prettify_strings(strings(&[])), "");
}

#[test]
fn prettify_one() {
    assert_eq!(prettify_strings(strings(&["a"])), "a");
}

#[test]
fn prettify_two() {
    assert_eq!(prettify_strings(strings(&["a", "b"])), "a and b");
}

#[test]
fn prettify_three() {
    assert_eq!(prettify_strings(strings(&["a", "b", "c"])), "a, b, and c");
}

#[test]
fn prettify_four() {
    assert_eq!(prettify_strings(strings(&["a", "b", "c", "d"])), "a, b, c, and d");
}

#[test]
fn port_strings_render_decimals() {
    let rendered = port_strings(&vec![0, 8080, 65535]);
    assert_eq!(rendered, vec!["0", "8080", "65535"]);
}

#[test]
fn chars_round_trip() {
    let v = chars_of("ab cd");
    assert_eq!(v, vec!['a', 'b', ' ', 'c', 'd']);
    assert_eq!(string_of_chars(&v), "ab cd");
}

#[test]
fn trim_removes_surrounding_whitespace() {
    let t = trim_chars(&chars_of("\t  ab c \r\n"));
    assert_eq!(string_of_chars(&t), "ab c");
}

#[test]
fn contains_finds_substrings() {
    let hay = chars_of("TCP 0.0.0.0:8080 LISTENING");
    assert!(contains_chars(&hay, &chars_of(":8080 ")));
    assert!(!contains_chars(&hay, &chars_of(":80 ")));
    assert!(contains_chars(&hay, &chars_of("")));
}

#[test]
fn parse_uint_accepts_plain_and_signed() {
    assert_eq!(parse_uint(&chars_of("123"), u32::MAX), Some(123));
    assert_eq!(parse_uint(&chars_of("+123"), u32::MAX), Some(123));
    assert_eq!(parse_uint(&chars_of("0"), u32::MAX), Some(0));
    assert_eq!(parse_uint(&chars_of("4294967295"), u32::MAX), Some(u32::MAX));
}

#[test]
fn parse_uint_rejects_malformed_input() {
    assert_eq!(parse_uint(&chars_of(""), u32::MAX), None);
    assert_eq!(parse_uint(&chars_of("+"), u32::MAX), None);
    assert_eq!(parse_uint(&chars_of("1 2"), u32::MAX), None);
    assert_eq!(parse_uint(&chars_of("12a"), u32::MAX), None);
    assert_eq!(parse_uint(&chars_of("4294967296"), u32::MAX), None);
    assert_eq!(parse_uint(&chars_of("-1"), u32::MAX), None);
}

#[test]
fn parse_uint_honours_the_bound() {
    assert_eq!(parse_uint(&chars_of("65535"), 65535), Some(65535));
    assert_eq!(parse_uint(&chars_of("65536"), 65535), None);
}
