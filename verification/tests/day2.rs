use advent::aoc::{Day, ParseErrorKind};
use advent::days::day2::Day2;

const TEST_INPUT: &str = "\
        7 6 4 2 1
        1 2 7 8 9
        9 7 6 2 1
        1 3 2 4 5
        8 6 4 4 1
        1 3 6 7 9
    ";

#[test]
fn day2_day2_part1() {
    let day = Day2::from_str(TEST_INPUT).unwrap();
    let result = day.part1().unwrap();
    assert_eq!(result, 2);
}

#[test]
fn day2_day2_part2() {
    let day = Day2::from_str(TEST_INPUT).unwrap();
    let result = day.part2().unwrap();
    assert_eq!(result, 4);
}

// adds '4 7 5 3 1' entry where failure occurs on 7-5 check
// but removal is needed of '4' instead
const SECOND_TEST_INPUT: &str = "\
        5 6 4 2 1
        1 2 7 8 9
        9 7 6 2 1
        1 3 2 4 5
        8 6 4 4 1
        1 3 6 7 6
        4 7 5 3 1
    ";

#[test]
fn day2_part1_test2() {
    let day = Day2::from_str(SECOND_TEST_INPUT).unwrap();
    let result = day.part1().unwrap();
    assert_eq!(result, 0);
}

#[test]
fn day2_part2_test2() {
    let day = Day2::from_str(SECOND_TEST_INPUT).unwrap();
    let result = day.part2().unwrap();
    assert_eq!(result, 5);
}

#[test]
fn day2_id() {
    assert_eq!(Day2::id(), (2024, 2));
}

#[test]
fn day2_limits() {
    assert!(Day2::in_limits(1, 2));
    assert!(Day2::in_limits(5, 2));
    assert!(!Day2::in_limits(5, 5));
    assert!(!Day2::in_limits(1, 5));
    assert!(!Day2::in_limits(i32::MAX, i32::MIN));
}

#[test]
fn day2_step_validity() {
    assert!(Day2::check_report_step_validity(1, 2, 5));
    assert!(Day2::check_report_step_validity(9, 8, 5));
    assert!(!Day2::check_report_step_validity(1, 2, 1));
    assert!(!Day2::check_report_step_validity(1, 2, 6));
    assert!(!Day2::check_report_step_validity(2, 2, 3));
}

#[test]
fn day2_damp_leaves_one_level_out() {
    let report = vec![1, 2, 3, 4];
    assert_eq!(Day2::damp(&report, 0), vec![2, 3, 4]);
    assert_eq!(Day2::damp(&report, 2), vec![1, 2, 4]);
    assert_eq!(Day2::damp(&report, 3), vec![1, 2, 3]);
    assert_eq!(report, vec![1, 2, 3, 4]);
}

#[test]
fn day2_first_fault() {
    assert_eq!(Day2::first_fault(&vec![1, 2, 3]), None);
    assert_eq!(Day2::first_fault(&vec![1, 1, 3]), Some(1));
    assert_eq!(Day2::first_fault(&vec![1, 2, 1]), Some(2));
    assert_eq!(Day2::first_fault(&vec![1, 2, 3, 9]), Some(3));
}

#[test]
fn day2_short_reports_are_safe() {
    assert!(Day2::check_report_safe(&vec![], false));
    assert!(Day2::check_report_safe(&vec![5], false));
    assert!(Day2::check_report_safe(&vec![5], true));
    assert!(!Day2::check_report_safe(&vec![5, 5], false));
    assert!(Day2::check_report_safe(&vec![5, 5], true));
}

#[test]
fn day2_tolerance_tries_every_level_near_the_fault() {
    assert!(Day2::check_report_safe(&vec![4, 7, 5, 3, 1], true));
    assert!(!Day2::check_report_safe(&vec![4, 7, 5, 3, 1], false));
    assert!(Day2::check_report_safe(&vec![1, 3, 2, 4, 5], true));
    assert!(Day2::check_report_safe(&vec![1, 2, 3, 9], true));
    assert!(!Day2::check_report_safe(&vec![1, 2, 7, 8, 9], true));
}

#[test]
fn day2_not_a_number() {
    let e = Day2::from_str("1 2 3\n4 five 6\n").err().unwrap();
    assert_eq!(e.kind, ParseErrorKind::InvalidNumber);
    assert_eq!(e.content, "five");
    assert!(e.message().contains("five"));
}

#[test]
fn day2_blank_lines_are_no_reports() {
    let day = Day2::from_str("\n1 2 3\n\n   \n3 2 1\n").unwrap();
    assert_eq!(day.part1().unwrap(), 2);
    assert_eq!(day.count_safe(true), 2);
}
