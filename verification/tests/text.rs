use jobshell::text::{
    begins_with, chars_of, clone_strings, collapse_whitespace, contains_text, decimal, decimal_u64,
    digit_of, has_char, join, parse_decimal, same_text, split,
    stands_at, string_of,
};

fn chars(s: &str) -> Vec<char> {
    s.chars().collect()
}

#[test]
fn chars_and_strings_convert_both_ways() {
    assert_eq!(chars_of("añb"), vec!['a', 'ñ', 'b']);
    assert_eq!(string_of(&['a', 'ñ', 'b']), "añb");
    assert_eq!(chars_of(""), Vec::<char>::new());
}

#[test]
fn whitespace_and_letters_are_unicode() {
    assert_eq!(collapse_whitespace("a \u{a0}\tb"), "a b");
    assert_eq!(collapse_whitespace("a_b"), "a_b");
    assert!(jobshell::readline::line_buffer::is_vi_word_char("é"));
    assert!(jobshell::readline::line_buffer::is_vi_word_char("7"));
    assert!(!jobshell::readline::line_buffer::is_vi_word_char("-"));
}

#[test]
fn join_and_split_are_inverse_on_a_separator() {
    let parts = vec!["a".to_string(), "".to_string(), "bc".to_string()];
    assert_eq!(join(&parts, ":"), "a::bc");
    assert_eq!(split("a::bc", ':'), parts);
    assert_eq!(split("", ':'), vec!["".to_string()]);
    assert_eq!(split(":", ':'), vec!["".to_string(), "".to_string()]);
    assert_eq!(join(&[], ", "), "");
    assert_eq!(join(&["x".to_string()], ", "), "x");
}

#[test]
fn collapse_whitespace_joins_words_with_single_blanks() {
    assert_eq!(collapse_whitespace("  a \n\t b  c\n"), "a b c");
    assert_eq!(collapse_whitespace("nested\n"), "nested");
    assert_eq!(collapse_whitespace(" \n "), "");
    assert_eq!(collapse_whitespace(""), "");
}

#[test]
fn decimal_writes_and_parse_decimal_reads() {
    assert_eq!(decimal(0), "0");
    assert_eq!(decimal(42), "42");
    assert_eq!(decimal(-7), "-7");
    assert_eq!(decimal(i32::MAX), "2147483647");
    assert_eq!(decimal(i32::MIN), "-2147483648");
    assert_eq!(decimal_u64(18446744073709551615), "18446744073709551615");
    assert_eq!(parse_decimal("42"), Some(42));
    assert_eq!(parse_decimal("+42"), Some(42));
    assert_eq!(parse_decimal("-42"), Some(-42));
    assert_eq!(parse_decimal("007"), Some(7));
    assert_eq!(parse_decimal("2147483647"), Some(i32::MAX));
    assert_eq!(parse_decimal("-2147483648"), Some(i32::MIN));
    assert_eq!(parse_decimal("2147483648"), None);
    assert_eq!(parse_decimal("-2147483649"), None);
    assert_eq!(parse_decimal("99999999999999999999999"), None);
    assert_eq!(parse_decimal(""), None);
    assert_eq!(parse_decimal("-"), None);
    assert_eq!(parse_decimal("1a"), None);
    assert_eq!(parse_decimal(" 1"), None);
    assert_eq!(digit_of('7'), Some(7));
    assert_eq!(digit_of('x'), None);
}

#[test]
fn text_searches() {
    assert!(has_char("a\0b", '\0'));
    assert!(!has_char("ab", '\0'));
    assert!(same_text("abc", "abc"));
    assert!(!same_text("abc", "abd"));
    assert!(contains_text(&chars("hello world"), &chars("o w")));
    assert!(!contains_text(&chars("hello world"), &chars("ow")));
    assert!(contains_text(&chars("abc"), &chars("")));
    assert!(!contains_text(&chars("ab"), &chars("abc")));
    assert!(begins_with(&chars("hello"), &chars("he")));
    assert!(!begins_with(&chars("hello"), &chars("el")));
    assert!(stands_at(&chars("hello"), &chars("llo"), 2));
    assert!(!stands_at(&chars("hello"), &chars("llo"), 3));
    assert_eq!(clone_strings(&["a".to_string()]), vec!["a".to_string()]);
}

#[test]
fn whitespace_is_what_the_standard_library_says() {
    for n in 0..=0x10FFFFu32 {
        if let Some(c) = char::from_u32(n) {
            assert_eq!(jobshell::text::is_whitespace(c), c.is_whitespace(), "U+{:04X}", n);
        }
    }
}
