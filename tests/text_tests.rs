use meeting_mind::session::str_lt;
use meeting_mind::text::{chars_of, decimal_string, str_contains};

#[test]
fn decimal_rendering() {
    assert_eq!(decimal_string(0), "0");
    assert_eq!(decimal_string(7), "7");
    assert_eq!(decimal_string(1234567890), "1234567890");
    assert_eq!(decimal_string(u64::MAX), "18446744073709551615");
}

#[test]
fn substring_search() {
    assert!(str_contains("RESOURCE_EXHAUSTED", "EXHAUST"));
    assert!(str_contains("abc", ""));
    assert!(!str_contains("", "a"));
    assert!(!str_contains("ab", "abc"));
    assert!(str_contains("kal tak aana", "kal tak"));
}

#[test]
fn characters_of_unicode_text() {
    assert_eq!(chars_of("a⚠b"), vec!['a', '⚠', 'b']);
}

#[test]
fn text_ordering() {
    assert!(str_lt("2024-01-01", "2024-02-01"));
    assert!(!str_lt("2024-02-01", "2024-01-01"));
    assert!(str_lt("ab", "abc"));
    assert!(!str_lt("abc", "abc"));
}
