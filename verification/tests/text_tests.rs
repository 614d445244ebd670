use microc::char_utils::{is_digit, is_expected, is_identifier_continue, is_whitespace, lookup};
use microc::text::{char_repeat, i32_to_string, str_to_chars, u32_to_string, u64_to_string,
    usize_to_string};

#[test]
fn decimal_rendering() {
    assert_eq!(u32_to_string(0), "0");
    assert_eq!(u32_to_string(7), "7");
    assert_eq!(u32_to_string(10), "10");
    assert_eq!(u32_to_string(4294967295), "4294967295");
    assert_eq!(u64_to_string(18446744073709551615), "18446744073709551615");
    assert_eq!(usize_to_string(636), "636");
}

#[test]
fn signed_decimal_rendering() {
    assert_eq!(i32_to_string(0), "0");
    assert_eq!(i32_to_string(2147483647), "2147483647");
    assert_eq!(i32_to_string(-1), "-1");
    assert_eq!(i32_to_string(-2147483648), "-2147483648");
}

#[test]
fn repeated_characters() {
    assert_eq!(char_repeat('^', 4), "^^^^");
    assert_eq!(char_repeat(' ', 0), "");
}

#[test]
fn string_to_characters() {
    let v = str_to_chars("ab\nc");
    assert_eq!(v, vec!['a', 'b', '\n', 'c']);
}

#[test]
fn whitespace_classification() {
    assert!(is_whitespace(' '));
    assert!(is_whitespace('\t'));
    assert!(is_whitespace('\n'));
    assert!(is_whitespace('\u{85}'));
    assert!(is_whitespace('\u{a0}'));
    assert!(is_whitespace('\u{1680}'));
    assert!(is_whitespace('\u{2028}'));
    assert!(is_whitespace('\u{3000}'));
    assert!(!is_whitespace('a'));
    assert!(!is_whitespace('_'));
    assert!(!is_whitespace('\u{2015}'));
}

#[test]
fn table_lookup() {
    assert!(lookup('\u{205f}'));
    assert!(lookup('\u{2000}'));
    assert!(lookup('\u{200a}'));
    assert!(!lookup('\u{200b}'));
    assert!(!lookup('\u{1681}'));
    assert!(!lookup('\u{3001}'));
}

#[test]
fn identifier_and_digit_classification() {
    assert!(is_identifier_continue('a'));
    assert!(is_identifier_continue('Z'));
    assert!(is_identifier_continue('0'));
    assert!(!is_identifier_continue('_'));
    assert!(!is_identifier_continue(' '));
    assert!(is_digit('5'));
    assert!(!is_digit('a'));
}

#[test]
fn expected_characters() {
    assert!(is_expected('x'));
    assert!(is_expected('='));
    assert!(is_expected('+'));
    assert!(is_expected('-'));
    assert!(is_expected('('));
    assert!(is_expected(')'));
    assert!(is_expected(';'));
    assert!(is_expected(','));
    assert!(is_expected(' '));
    assert!(!is_expected('*'));
    assert!(!is_expected(':'));
}
