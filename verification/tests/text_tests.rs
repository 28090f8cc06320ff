//! Tests of the verified text utilities.

use lumos::text::{canonical_model_name, decimal_string, parse, str_eq, str_has_prefix, to_hex,
    trim_str};

#[test]
fn trim_removes_surrounding_whitespace() {
    assert_eq!(trim_str("  hello  "), "hello");
    assert_eq!(trim_str("\r\ndata: x\n"), "data: x");
    assert_eq!(trim_str("\t \n"), "");
    assert_eq!(trim_str(""), "");
    assert_eq!(trim_str("inner  space"), "inner  space");
}

#[test]
fn str_eq_compares_characters() {
    assert!(str_eq("abc", "abc"));
    assert!(!str_eq("abc", "abd"));
    assert!(!str_eq("abc", "ab"));
    assert!(str_eq("", ""));
    assert!(str_eq("北京", "北京"));
}

#[test]
fn str_has_prefix_checks_prefixes() {
    assert!(str_has_prefix("data: x", "data: "));
    assert!(!str_has_prefix("dat", "data: "));
    assert!(!str_has_prefix("DATA: x", "data: "));
    assert!(str_has_prefix("anything", ""));
}

#[test]
fn parse_maps_first_hyphen_to_colon() {
    assert_eq!(parse("deepseek-chat"), "deepseek:chat");
    assert_eq!(parse("glm-4-plus"), "glm:4-plus");
    assert_eq!(parse("qwen25-72b-instuct"), "qwen25:72b-instuct");
    assert_eq!(parse("plain"), "plain");
}

#[test]
fn canonical_model_name_maps_first_colon_to_hyphen() {
    assert_eq!(canonical_model_name("deepseek:chat"), "deepseek-chat");
    assert_eq!(canonical_model_name("glm:4-plus"), "glm-4-plus");
    assert_eq!(canonical_model_name("deepseek-chat"), "deepseek-chat");
}

#[test]
fn hex_renders_two_lowercase_digits_per_byte() {
    assert_eq!(to_hex(&[]), "");
    assert_eq!(to_hex(&[0x00, 0x0f, 0xa5, 0xff]), "000fa5ff");
}

#[test]
fn decimal_renders_without_leading_zeros() {
    assert_eq!(decimal_string(0), "0");
    assert_eq!(decimal_string(7), "7");
    assert_eq!(decimal_string(401), "401");
    assert_eq!(decimal_string(65535), "65535");
}
