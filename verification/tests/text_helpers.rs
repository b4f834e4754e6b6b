use yomag_audio::text::{decimal_string, hex_chars, parse_u32, str_contains, str_equal};

#[test]
fn decimal_and_hex_formatting() {
    assert_eq!(decimal_string(0), "0");
    assert_eq!(decimal_string(1234567890123), "1234567890123");
    let h: String = hex_chars(48879).into_iter().collect();
    assert_eq!(h, "beef");
}

#[test]
fn parsing_follows_from_str() {
    let p = |s: &str| parse_u32(&s.chars().collect::<Vec<char>>());
    assert_eq!(p("42"), Some(42));
    assert_eq!(p("+42"), Some(42));
    assert_eq!(p("+"), None);
    assert_eq!(p(""), None);
    assert_eq!(p("-1"), None);
    assert_eq!(p("007"), Some(7));
    assert_eq!(p("4294967296"), None);
    for s in ["0", "17", "+5", "99999999999", "1 2"] {
        assert_eq!(p(s), s.parse::<u32>().ok());
    }
}

#[test]
fn substring_and_equality() {
    assert!(str_contains("hello world", "o w"));
    assert!(str_contains("abc", ""));
    assert!(!str_contains("abc", "abcd"));
    assert!(str_equal("é", "é"));
    assert!(!str_equal("a", "A"));
}
