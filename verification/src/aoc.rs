//! The puzzle contract and the runner that takes a puzzle's text through
//! parsing and both computations.

use vstd::prelude::*;
use vstd::string::*;
use crate::text::{decimal, push_decimal, push_str, string_from_chars};

verus! {

/// Year and day of a puzzle.
pub type AOCYearDay = (i32, i32);

/// Why a text was refused.
#[derive(Clone, Copy, Debug, PartialEq, Eq, Structural)]
pub enum ParseErrorKind {
    /// A line holds another number of entries than the puzzle takes.
    EntryCount { found: usize },
    /// An entry is not a number of 32 bits.
    InvalidNumber,
    /// The instruction pattern itself was refused.
    Pattern,
    /// A piece of text matched the instruction pattern and is no instruction.
    UnexpectedMatch,
    /// The lines of a grid differ in length, or the grid is too large.
    Shape,
}

/// A refused text: the reason, and the line or entry that gave it.
#[derive(Debug)]
pub struct ParseError {
    pub kind: ParseErrorKind,
    pub content: String,
}

/// A `ParseError` as a mathematical value.
pub ghost struct ParseFailure {
    pub kind: ParseErrorKind,
    pub content: Seq<char>,
}

impl View for ParseError {
    type V = ParseFailure;

    open spec fn view(&self) -> ParseFailure {
        ParseFailure { kind: self.kind, content: self.content@ }
    }
}

/// Why an answer could not be computed.
#[derive(Clone, Copy, Debug, PartialEq, Eq, Structural)]
pub enum ComputeError {
    /// The answer, or a sum on the way to it, does not fit its type.
    Overflow,
}

/// What each kind of refusal says before it quotes the text.
pub open spec fn reason(kind: ParseErrorKind) -> Seq<char> {
    match kind {
        ParseErrorKind::EntryCount { found } =>
            "Wrong input, got unexpected number of entries on a line: "@ + decimal(found as nat),
        ParseErrorKind::InvalidNumber => "Wrong input, not a number"@,
        ParseErrorKind::Pattern => "Wrong instruction pattern"@,
        ParseErrorKind::UnexpectedMatch => "Unexpected match"@,
        ParseErrorKind::Shape => "Wrong input, not a rectangular grid"@,
    }
}

/// The message of a refusal: the reason, then the offending text in quotes.
pub open spec fn parse_message(failure: ParseFailure) -> Seq<char> {
    reason(failure.kind) + " in '"@ + failure.content + "'"@
}

impl ParseError {
    /// The message for the operator. It quotes the offending text in full.
    pub fn message(&self) -> (text: String)
        ensures
            text@ == parse_message(self@),
            exists|before: Seq<char>, after: Seq<char>|
                text@ == before + self.content@ + after,
    {
        let mut out: Vec<char> = Vec::new();
        match self.kind {
            ParseErrorKind::EntryCount { found } => {
                push_str(&mut out, "Wrong input, got unexpected number of entries on a line: ");
                push_decimal(&mut out, found as u64);
            },
            ParseErrorKind::InvalidNumber => {
                push_str(&mut out, "Wrong input, not a number");
            },
            ParseErrorKind::Pattern => {
                push_str(&mut out, "Wrong instruction pattern");
            },
            ParseErrorKind::UnexpectedMatch => {
                push_str(&mut out, "Unexpected match");
            },
            ParseErrorKind::Shape => {
                push_str(&mut out, "Wrong input, not a rectangular grid");
            },
        }
        proof {
            assert(out@ =~= reason(self.kind));
        }
        push_str(&mut out, " in '");
        push_str(&mut out, self.content.as_str());
        push_str(&mut out, "'");
        proof {
            assert(out@ =~= parse_message(self@));
            law_message_quotes(self@);
        }
        string_from_chars(&out)
    }
}

/// One of the two answers of a puzzle.
#[derive(Clone, Copy, Debug, PartialEq, Eq, Structural)]
pub enum DayPart {
    Part1,
    Part2,
}

/// What every puzzle solver offers, so that the runner can treat all alike.
///
/// A solver says what it computes by the four specification functions. One
/// that leaves them as they are says only that its results depend on nothing
/// but the text.
pub trait Day: Sized {
    /// The type of the first answer.
    type DayOutputPart1;

    /// The type of the second answer.
    type DayOutputPart2;

    /// The parsed state as a mathematical value.
    type Model;

    /// The state that this value holds.
    open spec fn model(&self) -> Self::Model {
        arbitrary()
    }

    /// The state that a text stands for, or why it stands for none.
    open spec fn parsed(text: Seq<char>) -> Result<Self::Model, ParseFailure> {
        arbitrary()
    }

    /// The first answer of a state.
    open spec fn answer1(state: Self::Model) -> Result<Self::DayOutputPart1, ComputeError> {
        arbitrary()
    }

    /// The second answer of a state.
    open spec fn answer2(state: Self::Model) -> Result<Self::DayOutputPart2, ComputeError> {
        arbitrary()
    }

    /// Year and day of the puzzle.
    fn id() -> AOCYearDay;

    /// Reads the puzzle's state from its text.
    fn from_str(text: &str) -> (r: Result<Self, ParseError>)
        ensures
            match r {
                Ok(day) => Self::parsed(text@) == Ok::<Self::Model, ParseFailure>(day.model()),
                Err(e) => Self::parsed(text@) == Err::<Self::Model, ParseFailure>(e@),
            },
    ;

    /// The first answer. The state is left as it was.
    fn part1(&self) -> (r: Result<Self::DayOutputPart1, ComputeError>)
        ensures
            r == Self::answer1(self.model()),
    ;

    /// The second answer. The state is left as it was.
    fn part2(&self) -> (r: Result<Self::DayOutputPart2, ComputeError>)
        ensures
            r == Self::answer2(self.model()),
    ;
}

/// Why a run failed.
#[derive(Debug)]
pub enum RunError {
    /// The text was refused.
    Parse { content: String, cause: ParseError },
    /// The first answer could not be computed.
    Part1(ComputeError),
    /// The first answer was computed and the second could not be.
    Part2(ComputeError),
}

/// A `RunError` as a mathematical value.
pub ghost enum RunFailure {
    Parse { content: Seq<char>, cause: ParseFailure },
    Part1(ComputeError),
    Part2(ComputeError),
}

impl View for RunError {
    type V = RunFailure;

    open spec fn view(&self) -> RunFailure {
        match self {
            RunError::Parse { content, cause } => RunFailure::Parse {
                content: content@,
                cause: cause@,
            },
            RunError::Part1(e) => RunFailure::Part1(*e),
            RunError::Part2(e) => RunFailure::Part2(*e),
        }
    }
}

/// The message of a failed run.
pub open spec fn run_message(failure: RunFailure) -> Seq<char> {
    match failure {
        RunFailure::Parse { content, cause } => "can't parse '"@ + content + "'"@,
        RunFailure::Part1(e) => "can't compute part 1: overflow"@,
        RunFailure::Part2(e) => "can't compute part 2: overflow"@,
    }
}

impl RunError {
    /// The message for the operator. For a refused text it quotes the whole text.
    pub fn message(&self) -> (text: String)
        ensures
            text@ == run_message(self@),
    {
        match self {
            RunError::Parse { content, cause } => {
                let mut out: Vec<char> = Vec::new();
                push_str(&mut out, "can't parse '");
                push_str(&mut out, content.as_str());
                push_str(&mut out, "'");
                proof {
                    assert(out@ =~= "can't parse '"@ + content@ + "'"@);
                }
                string_from_chars(&out)
            },
            RunError::Part1(e) => String::from_str("can't compute part 1: overflow"),
            RunError::Part2(e) => String::from_str("can't compute part 2: overflow"),
        }
    }
}

/// One answer, tagged with its part.
#[derive(Debug)]
pub enum PartOutput<A, B> {
    Part1(A),
    Part2(B),
}

/// Both answers of a puzzle.
#[derive(Debug)]
pub struct Solution<A, B> {
    pub part1: A,
    pub part2: B,
}

/// What parsing `content` as a puzzle of type `T` comes to.
pub open spec fn parse_outcome<T: Day>(content: Seq<char>) -> Result<T::Model, RunFailure> {
    match T::parsed(content) {
        Ok(state) => Ok(state),
        Err(cause) => Err(RunFailure::Parse { content, cause }),
    }
}

/// What one part of a puzzle comes to on a state.
pub open spec fn solve_outcome<T: Day>(state: T::Model, part: DayPart) -> Result<
    PartOutput<T::DayOutputPart1, T::DayOutputPart2>,
    ComputeError,
> {
    match part {
        DayPart::Part1 => match T::answer1(state) {
            Ok(a) => Ok(PartOutput::Part1(a)),
            Err(e) => Err(e),
        },
        DayPart::Part2 => match T::answer2(state) {
            Ok(b) => Ok(PartOutput::Part2(b)),
            Err(e) => Err(e),
        },
    }
}

/// What a whole run comes to on a text: both answers, or the first failure
/// in the order parsing, first part, second part.
pub open spec fn run_outcome<T: Day>(content: Seq<char>) -> Result<
    Solution<T::DayOutputPart1, T::DayOutputPart2>,
    RunFailure,
> {
    match T::parsed(content) {
        Err(cause) => Err(RunFailure::Parse { content, cause }),
        Ok(state) => match (T::answer1(state), T::answer2(state)) {
            (Ok(part1), Ok(part2)) => Ok(Solution { part1, part2 }),
            (Err(e), _) => Err(RunFailure::Part1(e)),
            (Ok(_), Err(e)) => Err(RunFailure::Part2(e)),
        },
    }
}

/// Whether a run's result is the outcome `expected`.
pub open spec fn is_outcome<V>(r: Result<V, RunError>, expected: Result<V, RunFailure>) -> bool {
    match r {
        Ok(v) => expected == Ok::<V, RunFailure>(v),
        Err(e) => expected == Err::<V, RunFailure>(e@),
    }
}

/// Parses the text of a puzzle. A refusal carries the whole text.
pub fn parse<T: Day>(content: &str) -> (r: Result<T, RunError>)
    ensures
        match r {
            Ok(day) => parse_outcome::<T>(content@) == Ok::<T::Model, RunFailure>(day.model()),
            Err(e) => parse_outcome::<T>(content@) == Err::<T::Model, RunFailure>(e@),
        },
{
    match T::from_str(content) {
        Ok(day) => Ok(day),
        Err(cause) => Err(RunError::Parse { content: String::from_str(content), cause }),
    }
}

/// Computes one part of a puzzle.
pub fn solve<T: Day>(day: &T, part: DayPart) -> (r: Result<
    PartOutput<T::DayOutputPart1, T::DayOutputPart2>,
    ComputeError,
>)
    ensures
        r == solve_outcome::<T>(day.model(), part),
{
    match part {
        DayPart::Part1 => match day.part1() {
            Ok(a) => Ok(PartOutput::Part1(a)),
            Err(e) => Err(e),
        },
        DayPart::Part2 => match day.part2() {
            Ok(b) => Ok(PartOutput::Part2(b)),
            Err(e) => Err(e),
        },
    }
}

/// Runs a puzzle on its text: parses it, then computes both parts on the
/// same state. The second part is computed whether or not the first failed;
/// the run fails if either did. The result depends on the text alone.
pub fn process_day<T: Day>(content: &str) -> (r: Result<
    Solution<T::DayOutputPart1, T::DayOutputPart2>,
    RunError,
>)
    ensures
        is_outcome(r, run_outcome::<T>(content@)),
{
    let day = parse::<T>(content)?;
    let first = day.part1();
    let second = day.part2();
    match (first, second) {
        (Ok(part1), Ok(part2)) => Ok(Solution { part1, part2 }),
        (Err(e), _) => Err(RunError::Part1(e)),
        (Ok(_), Err(e)) => Err(RunError::Part2(e)),
    }
}

/// Two runs of one puzzle on one text come to the same: both give the same
/// two answers, or both fail in the same way.
pub proof fn law_runs_agree<T: Day>(
    content: Seq<char>,
    first: Result<Solution<T::DayOutputPart1, T::DayOutputPart2>, RunError>,
    second: Result<Solution<T::DayOutputPart1, T::DayOutputPart2>, RunError>,
)
    requires
        is_outcome(first, run_outcome::<T>(content)),
        is_outcome(second, run_outcome::<T>(content)),
    ensures
        match (first, second) {
            (Ok(a), Ok(b)) => a == b,
            (Err(a), Err(b)) => a@ == b@,
            _ => false,
        },
{
}

/// Each part is a function of the parsed state alone: two states that were
/// parsed from one text have the same answers, whichever part ran before.
pub proof fn law_parts_agree<T: Day>(content: Seq<char>, first: T, second: T)
    requires
        T::parsed(content) == Ok::<T::Model, ParseFailure>(first.model()),
        T::parsed(content) == Ok::<T::Model, ParseFailure>(second.model()),
    ensures
        T::answer1(first.model()) == T::answer1(second.model()),
        T::answer2(first.model()) == T::answer2(second.model()),
{
}

/// The message of a refused text holds the refused text.
pub proof fn law_message_quotes(failure: ParseFailure)
    ensures
        exists|before: Seq<char>, after: Seq<char>|
            parse_message(failure) == before + failure.content + after,
{
    let before = reason(failure.kind) + " in '"@;
    assert(parse_message(failure) =~= before + failure.content + "'"@);
}

} // verus!
