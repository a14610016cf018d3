use task_tracker::text::{
    chars_of, decimal_text, eq_ignore_case, is_whitespace, parse_decimal, to_lower, trim_bounds,
};

fn trim(text: &str) -> String {
    let chars = chars_of(text);
    let (start, end) = trim_bounds(&chars);
    chars[start..end].iter().collect()
}

fn parse(text: &str) -> Option<u32> {
    let chars = chars_of(text);
    parse_decimal(&chars, 0, chars.len())
}

#[test]
fn chars_of_gives_the_characters() {
    assert_eq!(chars_of(""), Vec::<char>::new());
    assert_eq!(chars_of("a\u{e9}\u{3000}z"), vec!['a', '\u{e9}', '\u{3000}', 'z']);
}

#[test]
fn whitespace_is_the_unicode_property() {
    for code in 0..=0x10FFFFu32 {
        if let Some(c) = char::from_u32(code) {
            assert_eq!(is_whitespace(c), c.is_whitespace(), "U+{:04X}", code);
        }
    }
}

#[test]
fn lower_folds_ascii_capitals_only() {
    for code in 0..=0x10FFFFu32 {
        if let Some(c) = char::from_u32(code) {
            assert_eq!(to_lower(c), c.to_ascii_lowercase(), "U+{:04X}", code);
        }
    }
    assert_eq!(to_lower('A'), 'a');
    assert_eq!(to_lower('Z'), 'z');
    assert_eq!(to_lower('@'), '@');
    assert_eq!(to_lower('['), '[');
    assert_eq!(to_lower('\u{c9}'), '\u{c9}');
}

#[test]
fn trim_takes_whitespace_from_both_ends() {
    let texts = [
        "", " ", "a", " a", "a ", "  a b  ", "\t\n 12 \r\n", "\u{3000}x\u{2003}", "   ",
        "a\u{a0}", "\u{200b}a",
    ];
    for text in texts {
        assert_eq!(trim(text), text.trim(), "{:?}", text);
    }
    assert_eq!(trim("  a b  "), "a b");
    let chars = chars_of("  ab ");
    assert_eq!(trim_bounds(&chars), (2, 4));
    assert_eq!(trim_bounds(&chars_of("   ")), (3, 3));
    assert_eq!(trim_bounds(&chars_of("")), (0, 0));
}

#[test]
fn parse_reads_unsigned_decimal_numbers() {
    assert_eq!(parse("0"), Some(0));
    assert_eq!(parse("42"), Some(42));
    assert_eq!(parse("+42"), Some(42));
    assert_eq!(parse("007"), Some(7));
    assert_eq!(parse("4294967295"), Some(u32::MAX));
    assert_eq!(parse("00004294967295"), Some(u32::MAX));
    assert_eq!(parse("4294967296"), None);
    assert_eq!(parse("42949672950"), None);
    assert_eq!(parse(""), None);
    assert_eq!(parse("+"), None);
    assert_eq!(parse("-"), None);
    assert_eq!(parse("-0"), None);
    assert_eq!(parse("++1"), None);
    assert_eq!(parse("1+"), None);
    assert_eq!(parse(" 1"), None);
    assert_eq!(parse("1 "), None);
    assert_eq!(parse("1_000"), None);
    assert_eq!(parse("12a"), None);
    assert_eq!(parse("\u{661}"), None);
}

#[test]
fn parse_agrees_with_the_standard_parser() {
    let texts = [
        "", "0", "1", "+1", "-1", "+", "-", "00", "+00", "4294967295", "4294967296",
        "+4294967295", "99999999999", "1a", "a1", " 1", "1 ", "1.0", "\u{ff11}\u{ff12}",
    ];
    for text in texts {
        assert_eq!(parse(text), text.parse::<u32>().ok(), "{:?}", text);
    }
}

#[test]
fn parse_reads_a_part_of_the_text() {
    let chars = chars_of("ab123cd");
    assert_eq!(parse_decimal(&chars, 2, 5), Some(123));
    assert_eq!(parse_decimal(&chars, 2, 4), Some(12));
    assert_eq!(parse_decimal(&chars, 1, 5), None);
    assert_eq!(parse_decimal(&chars, 3, 3), None);
}

#[test]
fn decimal_text_writes_the_shortest_numeral() {
    assert_eq!(decimal_text(0), "0");
    assert_eq!(decimal_text(7), "7");
    assert_eq!(decimal_text(10), "10");
    assert_eq!(decimal_text(1905), "1905");
    assert_eq!(decimal_text(u32::MAX), "4294967295");
    let values = [
        0u32, 1, 9, 10, 11, 99, 100, 101, 999, 1000, 65535, 65536, 1_000_000_007, u32::MAX - 1,
        u32::MAX,
    ];
    for v in values {
        assert_eq!(decimal_text(v), v.to_string());
        assert_eq!(parse(&decimal_text(v)), Some(v));
    }
}

#[test]
fn words_compare_without_case() {
    assert!(eq_ignore_case("", ""));
    assert!(eq_ignore_case("hecha", "hecha"));
    assert!(eq_ignore_case("HeChA", "hecha"));
    assert!(eq_ignore_case("hecha", "HECHA"));
    assert!(!eq_ignore_case("hecha", "hecho"));
    assert!(!eq_ignore_case("hecha", "hech"));
    assert!(!eq_ignore_case("hech", "hecha"));
    assert!(!eq_ignore_case("\u{212a}", "k"));
    assert!(!eq_ignore_case("\u{c9}", "\u{e9}"));
    assert!(eq_ignore_case("\u{e9}", "\u{e9}"));
}
