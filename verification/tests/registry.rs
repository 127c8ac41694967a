use advent::aoc::{ComputeError, RunError};
use advent::days::{solve, Answer, Days};

#[test]
fn registry_default_is_the_first_day() {
    assert_eq!(Days::default(), Days::Day1);
}

#[test]
fn registry_ids() {
    assert_eq!(Days::Day1.id(), (2024, 1));
    assert_eq!(Days::Day2.id(), (2024, 2));
    assert_eq!(Days::Day3.id(), (2024, 3));
    assert_eq!(Days::Day4.id(), (2024, 4));
}

#[test]
fn registry_dispatches_to_each_solver() {
    let s = solve(Days::Day1, "3 4\n4 3\n2 5\n1 3\n3 9\n3 3\n").unwrap();
    assert_eq!((s.part1, s.part2), (Answer::Number(11), Answer::Number(31)));
    let s = solve(Days::Day2, "7 6 4 2 1\n1 3 2 4 5\n1 2 7 8 9\n").unwrap();
    assert_eq!((s.part1, s.part2), (Answer::Count(1), Answer::Count(2)));
    let s = solve(Days::Day3, "mul(2,4)don't()mul(5,5)").unwrap();
    assert_eq!((s.part1, s.part2), (Answer::Number(33), Answer::Number(8)));
    let s = solve(Days::Day4, "XMAS\nM.S.\n.A..\nM.S.\n").unwrap();
    assert_eq!((s.part1, s.part2), (Answer::Count(1), Answer::Count(1)));
}

#[test]
fn registry_is_repeatable() {
    let text = "7 6 4 2 1\n1 3 2 4 5\n1 2 7 8 9\n";
    let first = solve(Days::Day2, text).unwrap();
    let second = solve(Days::Day2, text).unwrap();
    assert_eq!((first.part1, first.part2), (second.part1, second.part2));
}

#[test]
fn registry_surfaces_refusals() {
    match solve(Days::Day1, "1 2\n3\n") {
        Err(e) => {
            assert_eq!(e.message(), "can't parse '1 2\n3\n'");
            assert!(matches!(e, RunError::Parse { .. }));
        }
        Ok(_) => panic!("the text must be refused"),
    }
}

#[test]
fn registry_surfaces_overflow() {
    match solve(Days::Day1, "2147483647 -2147483648\n") {
        Err(e) => {
            assert!(matches!(e, RunError::Part1(ComputeError::Overflow)));
        }
        Ok(_) => panic!("the run must fail"),
    }
    match solve(Days::Day1, "2147483647 2147483647\n2147483647 2147483647\n0 0\n") {
        Err(e) => {
            assert!(matches!(e, RunError::Part2(ComputeError::Overflow)));
            assert_eq!(e.message(), "can't compute part 2: overflow");
        }
        Ok(_) => panic!("the run must fail"),
    }
}

#[test]
fn answers_render_in_decimal() {
    assert_eq!(Answer::Number(-2147483648).render(), "-2147483648");
    assert_eq!(Answer::Number(0).render(), "0");
    assert_eq!(Answer::Number(161).render(), "161");
    assert_eq!(Answer::Count(18).render(), "18");
    assert_eq!(Answer::Count(usize::MAX).render(), usize::MAX.to_string());
}
