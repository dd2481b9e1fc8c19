use unleash_proxy::extract_key;
use unleash_proxy::text::{ends_with_char, starts_with_text, text_eq};

#[test]
fn properties() {
    assert_eq!("foo", extract_key("properties[foo]"));
    assert_eq!("", extract_key("properties[]"));
}

#[test]
fn extract_key_keeps_non_ascii_names() {
    assert_eq!("héllo wörld", extract_key("properties[héllo wörld]"));
    assert_eq!("]", extract_key("properties[]]"));
    assert_eq!("[x", extract_key("properties[[x]"));
}

#[test]
fn extract_key_cuts_by_bytes_only() {
    // Any key of twelve or more bytes is cut at byte 11 and before its last byte.
    assert_eq!("b", extract_key("abcdefghijkbz"));
}

#[test]
fn text_comparisons() {
    assert!(text_eq("appName", "appName"));
    assert!(!text_eq("appName", "appname"));
    assert!(!text_eq("é", "e"));
    assert!(starts_with_text("properties[x]", "properties["));
    assert!(!starts_with_text("propertie", "properties["));
    assert!(!starts_with_text("propertiesX", "properties["));
    assert!(ends_with_char("properties[x]", ']'));
    assert!(!ends_with_char("", ']'));
    assert!(!ends_with_char("a]b", ']'));
}
