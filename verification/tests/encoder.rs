//! Tests of the custom percent-encoder.

use landscape_api::encode_rfc3986;

#[test]
fn test_encode_rfc3986() {
    let encoded = encode_rfc3986("test string with spaces");
    assert_eq!(encoded, "test%20string%20with%20spaces");
}

#[test]
fn test_encode_rfc3986_empty_string() {
    let encoded = encode_rfc3986("");
    assert_eq!(encoded, "");
}

#[test]
fn test_encode_unreserved_is_identity() {
    let input = "AZaz09-._~abcXYZ";
    assert_eq!(encode_rfc3986(input), input);
}

#[test]
fn test_encode_space_is_percent_20() {
    assert_eq!(encode_rfc3986(" "), "%20");
    assert_eq!(encode_rfc3986("a b"), "a%20b");
}

#[test]
fn test_encode_reserved_ascii() {
    assert_eq!(encode_rfc3986("a+b=c&d"), "a%2Bb%3Dc%26d");
    assert_eq!(encode_rfc3986("100%"), "100%25");
    assert_eq!(encode_rfc3986("/path?q"), "%2Fpath%3Fq");
}

#[test]
fn test_encode_by_code_point_not_by_byte() {
    // U+00E9 is two bytes in UTF-8 (C3 A9) but encodes as its scalar value
    assert_eq!(encode_rfc3986("\u{e9}"), "%E9");
    // U+20AC (three UTF-8 bytes) encodes as four hexadecimal digits
    assert_eq!(encode_rfc3986("\u{20ac}"), "%20AC");
}

#[test]
fn test_encode_pads_to_two_digits() {
    assert_eq!(encode_rfc3986("\n"), "%0A");
    assert_eq!(encode_rfc3986("\u{1}"), "%01");
}
