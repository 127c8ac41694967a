use advent::aoc::{ComputeError, Day, ParseErrorKind};
use advent::days::day3::{decode_operation, decode_operations, Capture, Day3, Operation};

const TEST_INPUT: &str = "xmul(2,4)%&mul[3,7]!@^do_not_mul(5,5)+mul(32,64]then(mul(11,8)mul(8,5))";
const TEST_INPUT_2: &str =
    "xmul(2,4)&mul[3,7]!^don't()_mul(5,5)+mul(32,64](mul(11,8)undo()?mul(8,5))";

#[test]
fn day3_day2_part1() {
    let day = Day3::from_str(TEST_INPUT).unwrap();
    let result = day.part1().unwrap();
    assert_eq!(result, 161);
}

#[test]
fn day3_day2_part2() {
    let day = Day3::from_str(TEST_INPUT_2).unwrap();
    let result = day.part2().unwrap();
    assert_eq!(result, 48);
}

#[test]
fn day3_id() {
    assert_eq!(Day3::id(), (2024, 3));
}

#[test]
fn day3_part1_counts_switched_off_products() {
    let day = Day3::from_str(TEST_INPUT_2).unwrap();
    assert_eq!(day.part1().unwrap(), 161);
}

#[test]
fn day3_no_instruction() {
    let day = Day3::from_str("mul(1234,5) mul (1,2) do( )").unwrap();
    assert_eq!(day.part1().unwrap(), 0);
    assert_eq!(day.part2().unwrap(), 0);
}

#[test]
fn day3_last_switch_counts() {
    let day = Day3::from_str("don't()don't()do()mul(2,3)don't()mul(5,5)do()mul(999,999)").unwrap();
    assert_eq!(day.part2().unwrap(), 6 + 998001);
    assert_eq!(day.part1().unwrap(), 6 + 25 + 998001);
}

fn capture(whole: &str, first: Option<&str>, second: Option<&str>) -> Capture {
    Capture {
        whole: whole.to_string(),
        first: first.map(|s| s.to_string()),
        second: second.map(|s| s.to_string()),
    }
}

#[test]
fn day3_decode_each_instruction() {
    assert_eq!(
        decode_operation(&capture("mul(2,4)", Some("2"), Some("4"))).unwrap(),
        Operation::MUL(2, 4)
    );
    assert_eq!(decode_operation(&capture("do()", None, None)).unwrap(), Operation::DO);
    assert_eq!(decode_operation(&capture("don't()", None, None)).unwrap(), Operation::DONT);
}

#[test]
fn day3_decode_refuses_what_is_no_instruction() {
    let e = decode_operation(&capture("undo()", None, None)).err().unwrap();
    assert_eq!(e.kind, ParseErrorKind::UnexpectedMatch);
    assert_eq!(e.content, "undo()");
    let e = decode_operation(&capture("mul(2,4)", Some("2"), None)).err().unwrap();
    assert_eq!(e.kind, ParseErrorKind::UnexpectedMatch);
    let e = decode_operation(&capture("mul(2,x)", Some("2"), Some("x"))).err().unwrap();
    assert_eq!(e.kind, ParseErrorKind::InvalidNumber);
    assert_eq!(e.content, "x");
    assert!(e.message().contains("x"));
}

#[test]
fn day3_decode_stops_at_the_first_refusal() {
    let found = vec![
        capture("do()", None, None),
        capture("mul(a,1)", Some("a"), Some("1")),
        capture("what", None, None),
    ];
    let e = decode_operations(&found).err().unwrap();
    assert_eq!(e.kind, ParseErrorKind::InvalidNumber);
    assert_eq!(e.content, "a");
    let found = vec![capture("don't()", None, None), capture("mul(3,3)", Some("3"), Some("3"))];
    assert_eq!(
        decode_operations(&found).unwrap(),
        vec![Operation::DONT, Operation::MUL(3, 3)]
    );
}

#[test]
fn day3_digits_that_are_no_numbers_are_refused() {
    // the pattern takes any decimal digit, the numbers only the ten of ASCII
    let e = Day3::from_str("mul(\u{0663},4)").err().unwrap();
    assert_eq!(e.kind, ParseErrorKind::InvalidNumber);
    assert_eq!(e.content, "\u{0663}");
}

#[test]
fn day3_overflow_is_reported() {
    let mut text = String::new();
    for _ in 0..2200 {
        text.push_str("mul(999,999)");
    }
    let day = Day3::from_str(&text).unwrap();
    assert_eq!(day.part1(), Err(ComputeError::Overflow));
    let day = Day3::from_str(&format!("don't(){}", text)).unwrap();
    assert_eq!(day.part2(), Ok(0));
}
