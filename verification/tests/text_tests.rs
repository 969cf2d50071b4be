use pai::text::{
    chars_of, concat_str, decimal_string, hex_string, is_white_space_char, signed_decimal_string,
    str_eq, str_starts_with, string_of, trim_str,
};

#[test]
fn trim_removes_ascii_and_unicode_white_space() {
    assert_eq!(trim_str("  \t hello world \r\n"), "hello world");
    assert_eq!(trim_str("\u{3000}x\u{00A0}"), "x");
    assert_eq!(trim_str(" \n\t "), "");
    assert_eq!(trim_str(""), "");
    assert_eq!(trim_str("a b"), "a b");
}

#[test]
fn trim_matches_std_on_samples() {
    for s in ["", " ", "x", " x ", "\u{2000}a\u{200A}", "a\u{85}", "\u{1680}b c\u{205F}", "中 文 "] {
        assert_eq!(trim_str(s), s.trim());
    }
}

#[test]
fn trim_is_idempotent_on_samples() {
    for s in ["  a  ", "\t\n", "b\u{3000}", ""] {
        let once = trim_str(s);
        assert_eq!(trim_str(&once), once);
    }
}

#[test]
fn white_space_chars() {
    assert!(is_white_space_char(' '));
    assert!(is_white_space_char('\u{0B}'));
    assert!(is_white_space_char('\u{2028}'));
    assert!(!is_white_space_char('a'));
    assert!(!is_white_space_char('\u{200B}'));
}

#[test]
fn prefixes() {
    assert!(str_starts_with("https://x", "https://"));
    assert!(str_starts_with("abc", ""));
    assert!(!str_starts_with("ab", "abc"));
    assert!(!str_starts_with("http:/", "http://"));
}

#[test]
fn decimal_and_hex_spelling() {
    assert_eq!(decimal_string(0), "0");
    assert_eq!(decimal_string(1700000000), "1700000000");
    assert_eq!(decimal_string(u64::MAX), u64::MAX.to_string());
    assert_eq!(hex_string(0), "0");
    assert_eq!(hex_string(0xdeadbeef), "deadbeef");
    assert_eq!(hex_string(u64::MAX), "ffffffffffffffff");
    assert_eq!(signed_decimal_string(-1), "-1");
    assert_eq!(signed_decimal_string(i32::MIN), "-2147483648");
    assert_eq!(signed_decimal_string(128), "128");
}

#[test]
fn equality_and_concatenation() {
    assert!(str_eq("同步", "同步"));
    assert!(!str_eq("a", "ab"));
    assert_eq!(concat_str("ab", "cd"), "abcd");
    assert_eq!(string_of(&chars_of("héllo")), "héllo");
}
