use advent::aoc::{ComputeError, Day, ParseErrorKind};
use advent::days::day1::{parse_pair, Day1};

const TEST_INPUT: &str = "\
        3   4
        4   3
        2   5
        1   3
        3   9
        3   3
    ";

#[test]
fn day1_part1() {
    let day = Day1::from_str(TEST_INPUT).unwrap();
    let result = day.part1().unwrap();
    assert_eq!(result, 11);
}

#[test]
fn day1_part2() {
    let day = Day1::from_str(TEST_INPUT).unwrap();
    let result = day.part2().unwrap();
    assert_eq!(result, 31);
}

#[test]
fn day1_id() {
    assert_eq!(Day1::id(), (2024, 1));
}

#[test]
fn day1_parts_do_not_disturb_each_other() {
    let day = Day1::from_str(TEST_INPUT).unwrap();
    assert_eq!(day.part1().unwrap(), 11);
    assert_eq!(day.part2().unwrap(), 31);
    assert_eq!(day.part1().unwrap(), 11);
    let again = Day1::from_str(TEST_INPUT).unwrap();
    assert_eq!(again.part2().unwrap(), 31);
    assert_eq!(again.part1().unwrap(), 11);
}

#[test]
fn day1_sorts_before_pairing() {
    // sorted: 1 2 3 against 1 5 9
    let day = Day1::from_str("3 9\n1 5\n2 1\n").unwrap();
    assert_eq!(day.part1().unwrap(), 0 + 3 + 6);
}

#[test]
fn day1_empty_text() {
    let day = Day1::from_str("").unwrap();
    assert_eq!(day.part1().unwrap(), 0);
    assert_eq!(day.part2().unwrap(), 0);
}

#[test]
fn day1_negative_numbers_and_signs() {
    let day = Day1::from_str("-5 +5\n-5 -5\n").unwrap();
    assert_eq!(day.part1().unwrap(), 10);
    assert_eq!(day.part2().unwrap(), -10);
}

#[test]
fn day1_wrong_entry_count() {
    let e = Day1::from_str("1 2\n1 2 3\nx y\n").err().unwrap();
    assert_eq!(e.kind, ParseErrorKind::EntryCount { found: 3 });
    assert_eq!(e.content, "1 2 3");
    assert!(e.message().contains("1 2 3"));
    let e = Day1::from_str("7\n").err().unwrap();
    assert_eq!(e.kind, ParseErrorKind::EntryCount { found: 1 });
}

#[test]
fn day1_not_a_number() {
    let e = Day1::from_str("1 2\n3 four\n").err().unwrap();
    assert_eq!(e.kind, ParseErrorKind::InvalidNumber);
    assert_eq!(e.content, "four");
    assert!(e.message().contains("four"));
    let e = Day1::from_str("x 2\n").err().unwrap();
    assert_eq!(e.content, "x");
    let e = Day1::from_str("1 2147483648\n").err().unwrap();
    assert_eq!(e.content, "2147483648");
}

#[test]
fn day1_overflow_is_reported() {
    let day = Day1::from_str("2147483647 -2147483648\n").unwrap();
    assert_eq!(day.part1(), Err(ComputeError::Overflow));
    let day = Day1::from_str("2147483647 0\n2147483647 0\n").unwrap();
    assert_eq!(day.part1(), Err(ComputeError::Overflow));
    let day = Day1::from_str("2147483647 2147483647\n2 2147483647\n").unwrap();
    assert_eq!(day.part2(), Err(ComputeError::Overflow));
}

#[test]
fn day1_parse_pair_cases() {
    let line: Vec<char> = "  12   -7 ".chars().collect();
    assert_eq!(parse_pair(&line).unwrap(), Some((12, -7)));
    let blank: Vec<char> = " \t ".chars().collect();
    assert_eq!(parse_pair(&blank).unwrap(), None);
}
