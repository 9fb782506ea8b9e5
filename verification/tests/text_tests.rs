use wyvern::text::{
    chars_of, contains_chars, i64_decimal, lex_less, parse_u64, replace_chars, split_lines,
    string_of, trim_chars, u64_decimal,
};

fn s(v: &[char]) -> String {
    string_of(v)
}

#[test]
fn chars_round_trip() {
    let c = chars_of("héllo wörld");
    assert_eq!(c.len(), 11);
    assert_eq!(s(&c), "héllo wörld");
}

#[test]
fn trim_removes_unicode_white_space() {
    assert_eq!(s(&trim_chars(&chars_of("  a b \n\t"))), "a b");
    assert_eq!(s(&trim_chars(&chars_of("\u{3000}x\u{2003}"))), "x");
    assert_eq!(s(&trim_chars(&chars_of(" \n "))), "");
    assert_eq!(s(&trim_chars(&chars_of("\u{85}y\u{a0}"))), "y");
}

#[test]
fn lines_follow_str_lines() {
    for text in ["a\r\nb\n\nc\n", "a\rb", "", "x\n", "\n", "one", "p\r\n\r\nq", "r\r"] {
        let got: Vec<String> = split_lines(&chars_of(text)).iter().map(|l| s(l)).collect();
        let want: Vec<String> = text.lines().map(|l| l.to_string()).collect();
        assert_eq!(got, want, "lines of {:?}", text);
    }
}

#[test]
fn decimal_text() {
    assert_eq!(s(&u64_decimal(0)), "0");
    assert_eq!(s(&u64_decimal(1234567890)), "1234567890");
    assert_eq!(s(&u64_decimal(u64::MAX)), "18446744073709551615");
    assert_eq!(s(&i64_decimal(-42)), "-42");
    assert_eq!(s(&i64_decimal(i64::MIN)), "-9223372036854775808");
    assert_eq!(s(&i64_decimal(i64::MAX)), "9223372036854775807");
}

#[test]
fn contains_and_replace() {
    assert!(contains_chars(&chars_of("data/meta/x"), &chars_of("meta")));
    assert!(!contains_chars(&chars_of("data/met/x"), &chars_of("meta")));
    assert!(contains_chars(&chars_of("abc"), &chars_of("")));
    let r = replace_chars(&chars_of("a/noarch/b/noarch"), &chars_of("/noarch"), &chars_of(""));
    assert_eq!(s(&r), "a/b");
    let r = replace_chars(&chars_of("aaa"), &chars_of("aa"), &chars_of("b"));
    assert_eq!(s(&r), "ba");
    assert_eq!(s(&r), "aaa".replace("aa", "b"));
}

#[test]
fn lexicographic_order() {
    assert!(lex_less(&chars_of("abc"), &chars_of("abd")));
    assert!(lex_less(&chars_of("ab"), &chars_of("abc")));
    assert!(!lex_less(&chars_of("b"), &chars_of("abc")));
    assert!(!lex_less(&chars_of(""), &chars_of("")));
    assert!(lex_less(&chars_of("Zed"), &chars_of("apple")));
    assert!(lex_less(&chars_of("z"), &chars_of("é")));
}

#[test]
fn parse_decimal_numbers() {
    assert_eq!(parse_u64("123"), Some(123));
    assert_eq!(parse_u64("+7"), Some(7));
    assert_eq!(parse_u64("007"), Some(7));
    assert_eq!(parse_u64(""), None);
    assert_eq!(parse_u64("+"), None);
    assert_eq!(parse_u64("12a"), None);
    assert_eq!(parse_u64("-1"), None);
    assert_eq!(parse_u64(" 1"), None);
    assert_eq!(parse_u64("18446744073709551615"), Some(u64::MAX));
    assert_eq!(parse_u64("18446744073709551616"), None);
    assert_eq!(parse_u64("99999999999999999999x"), None);
}

#[test]
fn decimal_reads_back() {
    for n in [0u64, 9, 10, 4096, 123456789, u64::MAX] {
        assert_eq!(parse_u64(&s(&u64_decimal(n))), Some(n));
    }
}
