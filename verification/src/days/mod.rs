//! The puzzles that can be selected, and the dispatch to their solvers.

pub mod day1;
pub mod day2;
pub mod day3;
pub mod day4;

use vstd::prelude::*;
use crate::aoc::{process_day, run_outcome, is_outcome, AOCYearDay, Day, RunError, RunFailure, Solution};
use crate::text::{push_decimal, push_signed_decimal, signed_decimal, string_from_chars};
use self::day1::Day1;
use self::day2::Day2;
use self::day3::Day3;
use self::day4::Day4;

verus! {

/// The puzzles that can be selected.
#[derive(Clone, Copy, Debug, PartialEq, Eq, Structural)]
pub enum Days {
    /// Day 1: Historian Hysteria
    Day1,
    /// Day 2: Red-Nosed Reports
    Day2,
    /// Day 3: Mull It Over
    Day3,
    /// Day 4: Ceres Search
    Day4,
}

impl Default for Days {
    /// The first puzzle.
    fn default() -> (day: Days)
        ensures
            day == Days::Day1,
    {
        Days::Day1
    }
}

/// An answer of any puzzle: a number with a sign, or a count.
#[derive(Clone, Copy, Debug, PartialEq, Eq, Structural)]
pub enum Answer {
    Number(i32),
    Count(usize),
}

impl Answer {
    /// The integer that the answer is.
    pub open spec fn value(self) -> int {
        match self {
            Answer::Number(v) => v as int,
            Answer::Count(n) => n as int,
        }
    }

    /// The answer in decimal digits.
    pub fn render(&self) -> (text: String)
        ensures
            text@ == signed_decimal(self.value()),
    {
        let mut out: Vec<char> = Vec::new();
        match self {
            Answer::Number(v) => push_signed_decimal(&mut out, *v as i64),
            Answer::Count(n) => push_decimal(&mut out, *n as u64),
        }
        proof {
            assert(out@ =~= signed_decimal(self.value()));
        }
        string_from_chars(&out)
    }
}

impl Days {
    /// Year and day of the selected puzzle.
    pub fn id(&self) -> (r: AOCYearDay)
        ensures
            r == match *self {
                Days::Day1 => (2024i32, 1i32),
                Days::Day2 => (2024i32, 2i32),
                Days::Day3 => (2024i32, 3i32),
                Days::Day4 => (2024i32, 4i32),
            },
    {
        match self {
            Days::Day1 => Day1::id(),
            Days::Day2 => Day2::id(),
            Days::Day3 => Day3::id(),
            Days::Day4 => Day4::id(),
        }
    }
}

/// A run whose answers are numbers, with its answers as `Answer`s.
pub open spec fn as_numbers(r: Result<Solution<i32, i32>, RunFailure>) -> Result<
    Solution<Answer, Answer>,
    RunFailure,
> {
    match r {
        Ok(s) => Ok(Solution { part1: Answer::Number(s.part1), part2: Answer::Number(s.part2) }),
        Err(e) => Err(e),
    }
}

/// A run whose answers are counts, with its answers as `Answer`s.
pub open spec fn as_counts(r: Result<Solution<usize, usize>, RunFailure>) -> Result<
    Solution<Answer, Answer>,
    RunFailure,
> {
    match r {
        Ok(s) => Ok(Solution { part1: Answer::Count(s.part1), part2: Answer::Count(s.part2) }),
        Err(e) => Err(e),
    }
}

/// What the selected puzzle comes to on a text: each selection has exactly
/// one solver.
pub open spec fn selected_outcome(day: Days, content: Seq<char>) -> Result<
    Solution<Answer, Answer>,
    RunFailure,
> {
    match day {
        Days::Day1 => as_numbers(run_outcome::<Day1>(content)),
        Days::Day2 => as_counts(run_outcome::<Day2>(content)),
        Days::Day3 => as_numbers(run_outcome::<Day3>(content)),
        Days::Day4 => as_counts(run_outcome::<Day4>(content)),
    }
}

/// Runs the selected puzzle on its text.
pub fn solve(day: Days, content: &str) -> (r: Result<Solution<Answer, Answer>, RunError>)
    ensures
        is_outcome(r, selected_outcome(day, content@)),
{
    match day {
        Days::Day1 => {
            let s = process_day::<Day1>(content)?;
            Ok(Solution { part1: Answer::Number(s.part1), part2: Answer::Number(s.part2) })
        },
        Days::Day2 => {
            let s = process_day::<Day2>(content)?;
            Ok(Solution { part1: Answer::Count(s.part1), part2: Answer::Count(s.part2) })
        },
        Days::Day3 => {
            let s = process_day::<Day3>(content)?;
            Ok(Solution { part1: Answer::Number(s.part1), part2: Answer::Number(s.part2) })
        },
        Days::Day4 => {
            let s = process_day::<Day4>(content)?;
            Ok(Solution { part1: Answer::Count(s.part1), part2: Answer::Count(s.part2) })
        },
    }
}

} // verus!
