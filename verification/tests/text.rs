use sqlparser::text::{
    ascii_upper, chars_of, eq_ignore_case, is_digit, is_ident_part, is_ident_start, is_letter,
    is_whitespace, parse_int_literal, string_of,
};
use sqlparser::token::same_text;

#[test]
fn character_classes() {
    for c in [' ', '\t', '\n'] {
        assert!(is_whitespace(c));
    }
    for c in ['\r', 'a', '0', '\u{a0}', '\u{b}', '\u{c}'] {
        assert!(!is_whitespace(c));
    }
    for c in ['a', 'z', 'A', 'Z', 'm'] {
        assert!(is_letter(c));
        assert!(is_ident_start(c));
        assert!(is_ident_part(c));
    }
    for c in ['`', '{', '@', '[', '0', '_', '\u{e9}'] {
        assert!(!is_letter(c));
    }
    for c in ['0', '5', '9'] {
        assert!(is_digit(c));
        assert!(is_ident_part(c));
        assert!(!is_ident_start(c));
    }
    for c in ['/', ':', 'a', '\u{661}'] {
        assert!(!is_digit(c));
    }
    assert!(is_ident_start('_'));
    assert!(is_ident_start('@'));
    assert!(is_ident_part('_'));
    assert!(!is_ident_part('@'));
    assert!(!is_ident_start('-'));
    assert!(!is_ident_part('-'));
}

#[test]
fn ascii_upper_maps_only_small_letters() {
    assert_eq!('A', ascii_upper('a'));
    assert_eq!('Z', ascii_upper('z'));
    assert_eq!('M', ascii_upper('m'));
    assert_eq!('A', ascii_upper('A'));
    assert_eq!('0', ascii_upper('0'));
    assert_eq!('`', ascii_upper('`'));
    assert_eq!('{', ascii_upper('{'));
    assert_eq!('\u{e9}', ascii_upper('\u{e9}'));
    assert_eq!('\u{17f}', ascii_upper('\u{17f}'));
    for code in 0u32..1024 {
        if let Some(c) = char::from_u32(code) {
            assert_eq!(c.to_ascii_uppercase(), ascii_upper(c));
        }
    }
}

#[test]
fn comparison_without_case() {
    assert!(eq_ignore_case("select", "SELECT"));
    assert!(eq_ignore_case("SeLeCt", "sElEcT"));
    assert!(eq_ignore_case("", ""));
    assert!(eq_ignore_case("a_1", "A_1"));
    assert!(!eq_ignore_case("selec", "select"));
    assert!(!eq_ignore_case("select", "selec"));
    assert!(!eq_ignore_case("", "a"));
    assert!(!eq_ignore_case("a", "b"));
    assert!(!eq_ignore_case("\u{17f}ELECT", "SELECT"));
    assert!(!eq_ignore_case("@", "`"));
    assert!(!eq_ignore_case("[", "{"));
    let samples = ["", "a", "A", "ab", "aB", "Ab", "abc", "a1", "A1", "@", "`", "\u{e9}", "\u{c9}"];
    for a in samples.iter() {
        for b in samples.iter() {
            assert_eq!(a.eq_ignore_ascii_case(b), eq_ignore_case(a, b));
        }
    }
}

#[test]
fn exact_comparison() {
    assert!(same_text("", ""));
    assert!(same_text("abc", "abc"));
    assert!(!same_text("abc", "abd"));
    assert!(!same_text("abc", "ab"));
    assert!(!same_text("ab", "abc"));
    assert!(!same_text("abc", "ABC"));
    assert!(same_text("caf\u{e9}", "caf\u{e9}"));
}

#[test]
fn characters_and_strings() {
    assert_eq!(vec!['a', '\u{e9}', '1'], chars_of("a\u{e9}1"));
    assert_eq!(Vec::<char>::new(), chars_of(""));
    let v = vec!['s', 'q', 'r', 't', '(', '1', ')'];
    assert_eq!("sqrt", string_of(&v, 0, 4));
    assert_eq!("(1)", string_of(&v, 4, 7));
    assert_eq!("", string_of(&v, 3, 3));
    assert_eq!("sqrt(1)", string_of(&v, 0, 7));
}

#[test]
fn integer_literals() {
    assert_eq!(Some(0), parse_int_literal("0"));
    assert_eq!(Some(5), parse_int_literal("5"));
    assert_eq!(Some(100), parse_int_literal("100"));
    assert_eq!(Some(7), parse_int_literal("007"));
    assert_eq!(Some(5), parse_int_literal("+5"));
    assert_eq!(Some(-5), parse_int_literal("-5"));
    assert_eq!(Some(0), parse_int_literal("-0"));
    assert_eq!(Some(1234567890123), parse_int_literal("1234567890123"));
    assert_eq!(Some(1), parse_int_literal("00000000000000000000000000000000000001"));
}

#[test]
fn integer_literals_at_the_limits() {
    assert_eq!(Some(i64::MAX), parse_int_literal("9223372036854775807"));
    assert_eq!(Some(i64::MAX), parse_int_literal("+9223372036854775807"));
    assert_eq!(None, parse_int_literal("9223372036854775808"));
    assert_eq!(Some(i64::MIN), parse_int_literal("-9223372036854775808"));
    assert_eq!(None, parse_int_literal("-9223372036854775809"));
    assert_eq!(Some(i64::MIN + 1), parse_int_literal("-9223372036854775807"));
    assert_eq!(None, parse_int_literal("92233720368547758070"));
    assert_eq!(None, parse_int_literal("18446744073709551616"));
    assert_eq!(None, parse_int_literal("99999999999999999999999999999999"));
    assert_eq!(None, parse_int_literal("-99999999999999999999999999999999"));
}

#[test]
fn texts_that_are_no_integer_literals() {
    for text in ["", "+", "-", "+-1", "--1", "1a", "a1", "1.5", " 1", "1 ", "1_000", "0x10", "\u{661}", "1+", "+ 1"] {
        assert_eq!(None, parse_int_literal(text));
    }
}

#[test]
fn integer_literals_agree_with_the_standard_library() {
    let samples = [
        "", "0", "1", "-1", "+1", "+", "-", "00", "-00", "+007", "12345", "-12345", "1a", "a",
        "9223372036854775806", "9223372036854775807", "9223372036854775808",
        "-9223372036854775807", "-9223372036854775808", "-9223372036854775809",
        "10000000000000000000", "99999999999999999999", "0000000000000000000000009",
        "1 ", " 1", "1.0", "++1", "\u{665}",
    ];
    for text in samples.iter() {
        assert_eq!(text.parse::<i64>().ok(), parse_int_literal(text));
    }
}
