use ana::text::parse_i32;
use ana::text::{
    decimal_string, hex_string, is_white_space_char, join_path_str, parse_u32, parse_u64,
    parse_usize, signed_decimal_string, split_char, split_lines, split_whitespace, trim,
};

#[test]
fn text_decimal_and_hex_numerals() {
    assert_eq!(decimal_string(0), "0");
    assert_eq!(decimal_string(1234567890), "1234567890");
    assert_eq!(decimal_string(u128::MAX), u128::MAX.to_string());
    assert_eq!(hex_string(0), "0");
    assert_eq!(hex_string(255), "ff");
    assert_eq!(hex_string(0x1a2b3c), "1a2b3c");
    assert_eq!(signed_decimal_string(-42), "-42");
    assert_eq!(signed_decimal_string(i64::MIN), i64::MIN.to_string());
    assert_eq!(signed_decimal_string(7), "7");
}

#[test]
fn text_parse_like_str_parse() {
    assert_eq!(parse_u64("42"), Some(42));
    assert_eq!(parse_u64("+42"), Some(42));
    assert_eq!(parse_u64("18446744073709551615"), Some(u64::MAX));
    assert_eq!(parse_u64("18446744073709551616"), None);
    assert_eq!(parse_u64(""), None);
    assert_eq!(parse_u64("+"), None);
    assert_eq!(parse_u64("-1"), None);
    assert_eq!(parse_u64(" 1"), None);
    assert_eq!(parse_u64("1a"), None);
    assert_eq!(parse_u32("4294967295"), Some(u32::MAX));
    assert_eq!(parse_u32("4294967296"), None);
    assert_eq!(parse_usize("007"), Some(7));
}

#[test]
fn text_decimal_parses_back() {
    for n in [0u64, 1, 9, 10, 99, 100, 12345, u64::MAX] {
        assert_eq!(parse_u64(&decimal_string(n as u128)), Some(n));
    }
}

#[test]
fn text_trim_and_white_space() {
    assert_eq!(trim("  a b \n"), "a b");
    assert_eq!(trim("\u{3000}x\u{a0}"), "x");
    assert_eq!(trim(" \t "), "");
    assert!(is_white_space_char('\u{2009}'));
    assert!(!is_white_space_char('\u{200b}'));
}

#[test]
fn text_words_lines_and_pieces() {
    assert_eq!(split_whitespace("  cpu user\tsystem \n"), vec!["cpu", "user", "system"]);
    assert_eq!(split_whitespace("   "), Vec::<&str>::new());
    assert_eq!(split_lines("a\r\nb\n\nc"), vec!["a", "b", "", "c"]);
    assert_eq!(split_lines("a\n"), vec!["a"]);
    assert_eq!(split_lines(""), Vec::<&str>::new());
    assert_eq!(split_lines("x\r"), vec!["x\r"]);
    assert_eq!(split_char("0-3,5", ','), vec!["0-3", "5"]);
    assert_eq!(split_char("", ','), vec![""]);
    assert_eq!(split_char(",", ','), vec!["", ""]);
}

#[test]
fn text_join_paths() {
    assert_eq!(join_path_str("/sys/fs/cgroup", "cpu"), "/sys/fs/cgroup/cpu");
    assert_eq!(join_path_str("/sys/fs/cgroup/", "cpu"), "/sys/fs/cgroup/cpu");
    assert_eq!(join_path_str("/a", "/b"), "/b");
    assert_eq!(join_path_str("", "b"), "b");
    assert_eq!(join_path_str("/a", ""), "/a/");
}

#[test]
fn text_parse_signed() {
    assert_eq!(parse_i32("-2147483648"), Some(i32::MIN));
    assert_eq!(parse_i32("2147483647"), Some(i32::MAX));
    assert_eq!(parse_i32("2147483648"), None);
    assert_eq!(parse_i32("-2147483649"), None);
    assert_eq!(parse_i32("+12"), Some(12));
    assert_eq!(parse_i32("-0"), Some(0));
    assert_eq!(parse_i32("-+1"), None);
    assert_eq!(parse_i32("-"), None);
    assert_eq!(parse_i32(""), None);
}
