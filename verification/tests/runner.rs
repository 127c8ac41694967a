use advent::aoc::{
    parse, process_day, solve, AOCYearDay, ComputeError, Day, DayPart, ParseError, ParseErrorKind,
    PartOutput, RunError,
};

#[derive(Clone)]
struct TestDay {
    foo: i32,
}

impl Day for TestDay {
    type DayOutputPart1 = i32;
    type DayOutputPart2 = i32;
    type Model = i32;

    fn id() -> AOCYearDay {
        (0, 0)
    }

    fn from_str(s: &str) -> Result<Self, ParseError> {
        match s.parse::<i32>() {
            Ok(foo) => Ok(TestDay { foo }),
            Err(_) => Err(ParseError {
                kind: ParseErrorKind::InvalidNumber,
                content: s.to_string(),
            }),
        }
    }

    fn part1(&self) -> Result<Self::DayOutputPart1, ComputeError> {
        Ok(self.foo)
    }

    fn part2(&self) -> Result<Self::DayOutputPart2, ComputeError> {
        Ok(self.foo)
    }
}

/// A puzzle whose first part always fails.
struct Failing;

impl Day for Failing {
    type DayOutputPart1 = i32;
    type DayOutputPart2 = i32;
    type Model = ();

    fn id() -> AOCYearDay {
        (0, 1)
    }

    fn from_str(_: &str) -> Result<Self, ParseError> {
        Ok(Failing)
    }

    fn part1(&self) -> Result<i32, ComputeError> {
        Err(ComputeError::Overflow)
    }

    fn part2(&self) -> Result<i32, ComputeError> {
        Ok(7)
    }
}

/// The data folder of the test puzzle, kept in memory.
fn kept_text(file: &str) -> &'static str {
    match file {
        "./data/0/bad.txt" => "not a number",
        "./data/0/0.txt" => "42",
        _ => unreachable!(),
    }
}

#[test]
fn test_parse_testday_bad_content() {
    let day = parse::<TestDay>(kept_text("./data/0/bad.txt"));
    assert!(day.is_err());
    assert_eq!(day.err().unwrap().message(), "can't parse 'not a number'");
}

#[test]
fn test_process_testday_good() {
    let (year, day) = TestDay::id();
    let file = format!("./data/{}/{}.txt", year, day);
    let _ = process_day::<TestDay>(kept_text(&file)).unwrap();
}

#[test]
fn process_day_gives_both_answers() {
    let solution = process_day::<TestDay>("42").unwrap();
    assert_eq!(solution.part1, 42);
    assert_eq!(solution.part2, 42);
}

#[test]
fn process_day_is_repeatable() {
    let first = process_day::<TestDay>("-17").unwrap();
    let second = process_day::<TestDay>("-17").unwrap();
    assert_eq!(first.part1, second.part1);
    assert_eq!(first.part2, second.part2);
}

#[test]
fn parse_error_keeps_the_cause() {
    match parse::<TestDay>("4x2") {
        Err(RunError::Parse { content, cause }) => {
            assert_eq!(content, "4x2");
            assert_eq!(cause.kind, ParseErrorKind::InvalidNumber);
            assert_eq!(cause.content, "4x2");
            assert_eq!(cause.message(), "Wrong input, not a number in '4x2'");
        }
        _ => panic!("the text must be refused"),
    }
}

#[test]
fn solve_runs_the_chosen_part() {
    let day = TestDay { foo: 5 };
    assert!(matches!(solve(&day, DayPart::Part1), Ok(PartOutput::Part1(5))));
    assert!(matches!(solve(&day, DayPart::Part2), Ok(PartOutput::Part2(5))));
    assert!(matches!(solve(&Failing, DayPart::Part1), Err(ComputeError::Overflow)));
    assert!(matches!(solve(&Failing, DayPart::Part2), Ok(PartOutput::Part2(7))));
}

#[test]
fn a_failed_part_fails_the_run() {
    match process_day::<Failing>("anything") {
        Err(e) => {
            assert!(matches!(e, RunError::Part1(ComputeError::Overflow)));
            assert_eq!(e.message(), "can't compute part 1: overflow");
        }
        Ok(_) => panic!("the run must fail"),
    }
}

#[test]
fn entry_count_message_names_the_count_and_the_line() {
    let e = ParseError {
        kind: ParseErrorKind::EntryCount { found: 3 },
        content: "1 2 3".to_string(),
    };
    assert_eq!(
        e.message(),
        "Wrong input, got unexpected number of entries on a line: 3 in '1 2 3'"
    );
}
