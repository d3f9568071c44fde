use lsd::text::{contains_str, decimal_string, is_whitespace, find_char, is_blank, parse_i64, split_char, str_eq, trim, trim_start};

#[test]
fn str_eq_compares_characters() {
    assert!(str_eq("abc", "abc"));
    assert!(!str_eq("abc", "abd"));
    assert!(!str_eq("abc", "ab"));
    assert!(str_eq("", ""));
}

#[test]
fn trim_drops_surrounding_whitespace() {
    assert_eq!(trim("  hello world \t\n"), "hello world");
    assert_eq!(trim("\u{a0}x\u{2003}"), "x");
    assert_eq!(trim("   "), "");
    assert_eq!(trim("inner  space"), "inner  space");
}

#[test]
fn is_blank_on_whitespace_only() {
    assert!(is_blank(""));
    assert!(is_blank(" \t\r\n"));
    assert!(!is_blank(" a "));
}

#[test]
fn split_char_keeps_empty_pieces() {
    assert_eq!(split_char("a,b,,c", ','), vec!["a", "b", "", "c"]);
    assert_eq!(split_char("", ','), vec![""]);
    assert_eq!(split_char("x,", ','), vec!["x", ""]);
    assert_eq!(split_char("no separator", ','), vec!["no separator"]);
}

#[test]
fn find_char_gives_first_index() {
    assert_eq!(find_char("a/b/c", '/'), Some(1));
    assert_eq!(find_char("abc", '/'), None);
    assert_eq!(find_char("", '/'), None);
}

#[test]
fn trim_start_drops_leading_chars_only() {
    assert_eq!(trim_start("///e/x/", '/'), "e/x/");
    assert_eq!(trim_start("e/x", '/'), "e/x");
    assert_eq!(trim_start("////", '/'), "");
}

#[test]
fn parse_i64_reads_like_std() {
    for s in ["0", "42", "-17", "+5", "9223372036854775807", "-9223372036854775808", "007"] {
        assert_eq!(parse_i64(s), s.parse::<i64>().ok(), "{s}");
    }
    for s in ["", "+", "-", "1.5", " 1", "1 ", "1_000", "9223372036854775808", "-9223372036854775809", "abc", "--1"] {
        assert_eq!(parse_i64(s), None, "{s}");
        assert_eq!(s.parse::<i64>().ok(), None, "{s}");
    }
    assert_eq!(parse_i64("123"), Some(123));
    assert_eq!(parse_i64("-123"), Some(-123));
}

#[test]
fn decimal_string_writes_digits() {
    assert_eq!(decimal_string(0), "0");
    assert_eq!(decimal_string(4433), "4433");
    assert_eq!(decimal_string(u64::MAX), u64::MAX.to_string());
}

#[test]
fn contains_str_finds_substrings() {
    assert!(contains_str("/e/x/rsvp/manage", "manage"));
    assert!(!contains_str("/e/x/rsvp/attendees", "manage"));
    assert!(contains_str("abc", ""));
    assert!(!contains_str("ab", "abc"));
    assert!(contains_str("aab", "ab"));
}

#[test]
fn whitespace_is_the_unicode_set() {
    for n in 0..=0x10ffffu32 {
        if let Some(c) = char::from_u32(n) {
            assert_eq!(is_whitespace(c), c.is_whitespace(), "{n:#x}");
        }
    }
}
