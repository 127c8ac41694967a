use advent::aoc::{Day, DayPart, ParseErrorKind};
use advent::days::day4::Day4;

const TEST_INPUT: &str = "\
        MMMSXXMASM
        MSAMXMSMSA
        AMXSXMAAMM
        MSAMASMSMX
        XMASAMXAMM
        XXAMMXXAMA
        SMSMSASXSS
        SAXAMASAAA
        MAMMMXMMMM
        MXMXAXMASX
    ";

#[test]
fn day4_day2_part1() {
    let day = Day4::from_str(TEST_INPUT).unwrap();
    let result = day.part1().unwrap();
    assert_eq!(result, 18);
}

#[test]
fn day4_day2_part2() {
    let day = Day4::from_str(TEST_INPUT).unwrap();
    let result = day.part2().unwrap();
    assert_eq!(result, 9);
}

#[test]
fn day4_id() {
    assert_eq!(Day4::id(), (2024, 4));
}

#[test]
fn day4_rows_are_lines() {
    // two rows of six: a grid that is not square
    let day = Day4::from_str("XMASXX\nSAMXMM\n").unwrap();
    assert_eq!(day.letter_at(0, 0, 0, 0), Some('X'));
    assert_eq!(day.letter_at(0, 5, 0, 0), Some('X'));
    assert_eq!(day.letter_at(1, 0, 0, 0), Some('S'));
    assert_eq!(day.letter_at(1, 5, 0, 0), Some('M'));
    assert_eq!(day.letter_at(0, 0, 1, 1), Some('A'));
    assert_eq!(day.letter_at(2, 0, 0, 0), None);
    assert_eq!(day.letter_at(0, 6, 0, 0), None);
    assert_eq!(day.letter_at(0, 0, -1, 0), None);
    assert_eq!(day.part1().unwrap(), 2);
}

#[test]
fn day4_every_direction() {
    let text = "\
        S..S..S
        .A.A.A.
        ..MMM..
        SAMXMAS
        ..MMM..
        .A.A.A.
        S..S..S
    ";
    let day = Day4::from_str(text).unwrap();
    assert_eq!(day.check_xmas(3, 3), 8);
    assert_eq!(day.check_xmas(0, 0), 0);
    assert!(day.spells(3, 3, -1, 1));
    assert!(!day.spells(3, 2, 0, 1));
    assert_eq!(day.part1().unwrap(), 8);
    assert_eq!(day.count(DayPart::Part1).unwrap(), 8);
}

#[test]
fn day4_crossings() {
    let day = Day4::from_str("M.S\n.A.\nM.S\n").unwrap();
    assert!(day.check_x_mas(1, 1));
    assert!(!day.check_x_mas(0, 0));
    assert!(!day.check_x_mas(1, 0));
    assert_eq!(day.part2().unwrap(), 1);
    let day = Day4::from_str("M.S\n.A.\nS.M\n").unwrap();
    assert!(!day.check_x_mas(1, 1));
    assert_eq!(day.part2().unwrap(), 0);
    let day = Day4::from_str("S.S\n.A.\nM.M\n").unwrap();
    assert_eq!(day.check_at(DayPart::Part2, 1, 1), 1);
}

#[test]
fn day4_small_grids() {
    let day = Day4::from_str("").unwrap();
    assert_eq!(day.part1().unwrap(), 0);
    assert_eq!(day.part2().unwrap(), 0);
    let day = Day4::from_str("XM\n").unwrap();
    assert_eq!(day.part1().unwrap(), 0);
    assert_eq!(day.part2().unwrap(), 0);
    let day = Day4::from_str("XMAS").unwrap();
    assert_eq!(day.part1().unwrap(), 1);
}

#[test]
fn day4_uneven_rows_are_refused() {
    let e = Day4::from_str("XMAS\nXMA\nXMAS\n").err().unwrap();
    assert_eq!(e.kind, ParseErrorKind::Shape);
    assert_eq!(e.content, "XMA");
    assert!(e.message().contains("XMA"));
}
