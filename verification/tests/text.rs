use advent::sums::checked_sum;
use advent::aoc::ComputeError;
use advent::text::{
    begins_with, chars_of, is_blank_char, is_separator, is_text, parse_i32, push_decimal,
    push_signed_decimal, push_str, split_at_separators, split_words, trim, Separator,
};

fn chars(s: &str) -> Vec<char> {
    s.chars().collect()
}

fn strings(pieces: Vec<Vec<char>>) -> Vec<String> {
    pieces.into_iter().map(|p| p.into_iter().collect()).collect()
}

#[test]
fn chars_of_keeps_every_character() {
    assert_eq!(chars_of("a\u{e9}\u{1F600}b"), vec!['a', '\u{e9}', '\u{1F600}', 'b']);
    assert_eq!(chars_of(""), Vec::<char>::new());
}

#[test]
fn split_keeps_empty_pieces() {
    assert_eq!(strings(split_at_separators(&chars("a\nb\n"), Separator::Newline)), vec!["a", "b", ""]);
    assert_eq!(strings(split_at_separators(&chars(""), Separator::Newline)), vec![""]);
    assert_eq!(strings(split_at_separators(&chars("\n\n"), Separator::Newline)), vec!["", "", ""]);
    assert_eq!(strings(split_at_separators(&chars("a b"), Separator::Newline)), vec!["a b"]);
    assert_eq!(strings(split_at_separators(&chars("a  b"), Separator::Blank)), vec!["a", "", "b"]);
}

#[test]
fn words_are_runs_without_white_space() {
    assert_eq!(strings(split_words(&chars("  3   4\t5\u{a0}6 "))), vec!["3", "4", "5", "6"]);
    assert_eq!(strings(split_words(&chars(" \t "))), Vec::<String>::new());
    assert_eq!(split_words(&chars("a b")).len(), "a b".split_whitespace().count());
}

#[test]
fn white_space_is_that_of_unicode() {
    for code in 0u32..0x3100 {
        if let Some(c) = char::from_u32(code) {
            assert_eq!(is_blank_char(c), c.is_whitespace());
        }
    }
}

#[test]
fn trim_cuts_both_ends_only() {
    assert_eq!(trim(&chars("  a b \t")), chars("a b"));
    assert_eq!(trim(&chars("   ")), chars(""));
    assert_eq!(trim(&chars("ab")), chars("ab"));
    assert_eq!(trim(&chars("")), chars(""));
}

#[test]
fn numbers_are_read_as_the_standard_library_reads_them() {
    for s in [
        "0", "7", "-0", "+0", "+12", "-12", "0012", "2147483647", "2147483648", "-2147483648",
        "-2147483649", "99999999999999999999999", "", "+", "-", "--1", "1-", "1 ", " 1", "1_0",
        "0x10", "1.5", "\u{0663}", "-+1", "000000000000000000000000001",
    ] {
        assert_eq!(parse_i32(&chars(s)), s.parse::<i32>().ok(), "reading {:?}", s);
    }
    assert_eq!(parse_i32(&chars("-2147483648")), Some(i32::MIN));
    assert_eq!(parse_i32(&chars("2147483647")), Some(i32::MAX));
    assert_eq!(parse_i32(&chars("2147483648")), None);
}

#[test]
fn decimal_digits() {
    let mut out = chars("n=");
    push_decimal(&mut out, 0);
    push_str(&mut out, ",");
    push_decimal(&mut out, 1090);
    push_str(&mut out, ",");
    push_decimal(&mut out, u64::MAX);
    assert_eq!(out, chars("n=0,1090,18446744073709551615"));
    let mut out = Vec::new();
    push_signed_decimal(&mut out, -45);
    push_signed_decimal(&mut out, i64::MIN);
    push_signed_decimal(&mut out, 7);
    assert_eq!(out, chars("-45-92233720368547758087"));
}

#[test]
fn sums_report_overflow_on_the_way() {
    assert_eq!(checked_sum(&vec![]), Ok(0));
    assert_eq!(checked_sum(&vec![1, -5, 10]), Ok(6));
    assert_eq!(checked_sum(&vec![2147483647]), Ok(2147483647));
    assert_eq!(checked_sum(&vec![2147483647, 1, -1]), Err(ComputeError::Overflow));
    assert_eq!(checked_sum(&vec![2147483648, -1]), Err(ComputeError::Overflow));
    assert_eq!(checked_sum(&vec![-2147483648, -1, 1]), Err(ComputeError::Overflow));
    assert_eq!(checked_sum(&vec![-1, 2147483647, 1]), Ok(2147483647));
}

#[test]
fn texts_are_compared_character_by_character() {
    assert!(is_text(&chars("do()"), "do()"));
    assert!(!is_text(&chars("do()"), "don't()"));
    assert!(!is_text(&chars("do("), "do()"));
    assert!(is_text(&chars(""), ""));
    assert!(begins_with(&chars("mul(1,2)"), "mul"));
    assert!(begins_with(&chars("mul"), "mul"));
    assert!(begins_with(&chars("x"), ""));
    assert!(!begins_with(&chars("mu"), "mul"));
    assert!(!begins_with(&chars("xmul"), "mul"));
}

#[test]
fn separators() {
    assert!(is_separator(Separator::Newline, '\n'));
    assert!(!is_separator(Separator::Newline, ' '));
    assert!(!is_separator(Separator::Newline, '\r'));
    assert!(is_separator(Separator::Blank, '\n'));
    assert!(is_separator(Separator::Blank, '\u{3000}'));
    assert!(!is_separator(Separator::Blank, 'x'));
}
