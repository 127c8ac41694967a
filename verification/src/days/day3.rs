//! A corrupted program text: the instructions `mul(a,b)`, `do()` and
//! `don't()` that can still be read in it, the sum of all products, and the
//! sum of the products that are switched on.

use vstd::prelude::*;
use crate::aoc::{AOCYearDay, ComputeError, Day, ParseError, ParseErrorKind, ParseFailure};
use crate::sums::{checked_sum, checked_total, values};
use crate::text::{begins_with, chars_of, i32_value, is_text, parse_i32};

verus! {

/// One instruction of the program.
#[derive(Clone, Copy, Debug, PartialEq, Eq, Structural)]
pub enum Operation {
    /// Multiply the two numbers.
    MUL(i32, i32),
    /// Switch the products on.
    DO,
    /// Switch the products off.
    DONT,
}

/// One match of the instruction pattern: the matched text, and what its two
/// named groups took, for each group that took part in the match.
#[derive(Debug)]
pub struct Capture {
    pub whole: String,
    pub first: Option<String>,
    pub second: Option<String>,
}

/// A `Capture` as a mathematical value.
pub ghost struct CapturedText {
    pub whole: Seq<char>,
    pub first: Option<Seq<char>>,
    pub second: Option<Seq<char>>,
}

/// The characters of an optional string.
pub open spec fn text_of(s: Option<String>) -> Option<Seq<char>> {
    match s {
        Some(s) => Some(s@),
        None => None,
    }
}

impl View for Capture {
    type V = CapturedText;

    open spec fn view(&self) -> CapturedText {
        CapturedText {
            whole: self.whole@,
            first: text_of(self.first),
            second: text_of(self.second),
        }
    }
}

/// The matches that a vector of captures stands for.
pub open spec fn captured_texts(found: Seq<Capture>) -> Seq<CapturedText> {
    found.map_values(|c: Capture| c@)
}

/// The error of the `regex` crate for a pattern that it does not take.
#[verifier::external_type_specification]
#[verifier::external_body]
pub struct ExPatternError(regex::Error);

/// What the `regex` crate finds in `text` for `pattern`: `None` where it does
/// not take the pattern, else its successive matches that do not overlap,
/// from the left, each with what the groups named `first` and `second` took.
pub uninterp spec fn pattern_captures(
    pattern: Seq<char>,
    first: Seq<char>,
    second: Seq<char>,
    text: Seq<char>,
) -> Option<Seq<CapturedText>>;

/// Compiles `pattern` with `regex::Regex::new` and walks `text` with
/// `Regex::captures_iter`. Nothing is claimed of what is found but that it
/// depends on the four texts alone; a refused pattern gives the crate's error.
#[verifier::external_body]
fn capture_all(pattern: &str, first: &str, second: &str, text: &str) -> (r: Result<
    Vec<Capture>,
    regex::Error,
>)
    ensures
        match r {
            Ok(found) => pattern_captures(pattern@, first@, second@, text@) == Some(
                captured_texts(found@),
            ),
            Err(_) => pattern_captures(pattern@, first@, second@, text@) is None,
        },
{
    let re = regex::Regex::new(pattern)?;
    Ok(
        re.captures_iter(text).map(
            |c|
                Capture {
                    whole: c[0].to_string(),
                    first: c.name(first).map(|m| m.as_str().to_string()),
                    second: c.name(second).map(|m| m.as_str().to_string()),
                },
        ).collect(),
    )
}

/// The pattern of the three instructions. The numbers of `mul` have one to
/// three digits and are named `a` and `b`.
pub open spec fn instruction_pattern() -> Seq<char> {
    "(mul\\((?<a>\\d{1,3}),(?<b>\\d{1,3})\\)|do\\(\\)|don't\\(\\))"@
}

/// The instruction that one match stands for. A match that begins with `mul`
/// is a product of its two groups, which have to be there and to be numbers; the
/// matches `do()` and `don't()` are the two switches; any other is refused.
pub open spec fn operation_of(c: CapturedText) -> Result<Operation, ParseFailure> {
    if "mul"@.is_prefix_of(c.whole) {
        match (c.first, c.second) {
            (Some(a), Some(b)) => match (i32_value(a), i32_value(b)) {
                (None, _) => Err(ParseFailure { kind: ParseErrorKind::InvalidNumber, content: a }),
                (Some(_), None) => Err(
                    ParseFailure { kind: ParseErrorKind::InvalidNumber, content: b },
                ),
                (Some(x), Some(y)) => Ok(Operation::MUL(x, y)),
            },
            _ => Err(ParseFailure { kind: ParseErrorKind::UnexpectedMatch, content: c.whole }),
        }
    } else if c.whole == "do()"@ {
        Ok(Operation::DO)
    } else if c.whole == "don't()"@ {
        Ok(Operation::DONT)
    } else {
        Err(ParseFailure { kind: ParseErrorKind::UnexpectedMatch, content: c.whole })
    }
}

/// The instructions that a sequence of matches stands for, or the refusal
/// of the first match that is refused.
pub open spec fn operations_of(found: Seq<CapturedText>) -> Result<Seq<Operation>, ParseFailure>
    decreases found.len(),
{
    if found.len() == 0 {
        Ok(Seq::empty())
    } else {
        match operations_of(found.drop_last()) {
            Err(e) => Err(e),
            Ok(before) => match operation_of(found.last()) {
                Err(e) => Err(e),
                Ok(op) => Ok(before.push(op)),
            },
        }
    }
}

/// The program that a text stands for.
pub open spec fn program_of(text: Seq<char>) -> Result<Seq<Operation>, ParseFailure> {
    match pattern_captures(instruction_pattern(), "a"@, "b"@, text) {
        None => Err(
            ParseFailure { kind: ParseErrorKind::Pattern, content: instruction_pattern() },
        ),
        Some(found) => operations_of(found),
    }
}

/// The product of a `mul`, zero for a switch.
pub open spec fn product(op: Operation) -> int {
    match op {
        Operation::MUL(a, b) => a * b,
        _ => 0,
    }
}

/// Whether products are switched on after `ops`: they are at the start, and
/// then as the last switch says.
pub open spec fn enabled_after(ops: Seq<Operation>) -> bool
    decreases ops.len(),
{
    if ops.len() == 0 {
        true
    } else {
        match ops.last() {
            Operation::DO => true,
            Operation::DONT => false,
            Operation::MUL(_, _) => enabled_after(ops.drop_last()),
        }
    }
}

/// The product of every instruction.
pub open spec fn products(ops: Seq<Operation>) -> Seq<int> {
    Seq::new(ops.len(), |i: int| product(ops[i]))
}

/// The product of every instruction that is reached switched on, zero for
/// the others.
pub open spec fn enabled_products(ops: Seq<Operation>) -> Seq<int> {
    Seq::new(
        ops.len(),
        |i: int|
            if enabled_after(ops.take(i)) {
                product(ops[i])
            } else {
                0
            },
    )
}

/// Reads the number that a group took.
fn parse_group(group: &String) -> (r: Result<i32, ParseError>)
    ensures
        match r {
            Ok(v) => i32_value(group@) == Some(v),
            Err(e) => i32_value(group@) is None && e@ == (ParseFailure {
                kind: ParseErrorKind::InvalidNumber,
                content: group@,
            }),
        },
{
    let digits = chars_of(group.as_str());
    match parse_i32(&digits) {
        Some(v) => Ok(v),
        None => Err(ParseError { kind: ParseErrorKind::InvalidNumber, content: group.clone() }),
    }
}

/// Reads the instruction of one match.
pub fn decode_operation(c: &Capture) -> (r: Result<Operation, ParseError>)
    ensures
        match r {
            Ok(op) => operation_of(c@) == Ok::<Operation, ParseFailure>(op),
            Err(e) => operation_of(c@) == Err::<Operation, ParseFailure>(e@),
        },
{
    let whole = chars_of(c.whole.as_str());
    if begins_with(&whole, "mul") {
        match (&c.first, &c.second) {
            (Some(a), Some(b)) => {
                let x = parse_group(a)?;
                let y = parse_group(b)?;
                Ok(Operation::MUL(x, y))
            },
            _ => Err(
                ParseError { kind: ParseErrorKind::UnexpectedMatch, content: c.whole.clone() },
            ),
        }
    } else if is_text(&whole, "do()") {
        Ok(Operation::DO)
    } else if is_text(&whole, "don't()") {
        Ok(Operation::DONT)
    } else {
        Err(ParseError { kind: ParseErrorKind::UnexpectedMatch, content: c.whole.clone() })
    }
}

/// Once a prefix of the matches is refused, so is the whole, for the same reason.
pub proof fn lemma_operation_refusal_stays(found: Seq<CapturedText>, k: int)
    requires
        0 <= k <= found.len(),
        operations_of(found.take(k)) is Err,
    ensures
        operations_of(found) == operations_of(found.take(k)),
    decreases found.len() - k,
{
    if k == found.len() {
        assert(found.take(k) =~= found);
    } else {
        assert(found.take(k + 1).drop_last() =~= found.take(k));
        lemma_operation_refusal_stays(found, k + 1);
    }
}

/// Reads the instructions of a sequence of matches.
pub fn decode_operations(found: &Vec<Capture>) -> (r: Result<Vec<Operation>, ParseError>)
    ensures
        match r {
            Ok(ops) => operations_of(captured_texts(found@)) == Ok::<Seq<Operation>, ParseFailure>(
                ops@,
            ),
            Err(e) => operations_of(captured_texts(found@)) == Err::<Seq<Operation>, ParseFailure>(
                e@,
            ),
        },
{
    let ghost all = captured_texts(found@);
    let mut ops: Vec<Operation> = Vec::new();
    let mut i: usize = 0;
    while i < found.len()
        invariant
            i <= found.len(),
            all == captured_texts(found@),
            operations_of(all.take(i as int)) == Ok::<Seq<Operation>, ParseFailure>(ops@),
        decreases found.len() - i,
    {
        proof {
            assert(all.take(i + 1).drop_last() =~= all.take(i as int));
            assert(all.take(i + 1).last() == found@[i as int]@);
        }
        match decode_operation(&found[i]) {
            Ok(op) => {
                ops.push(op);
            },
            Err(e) => {
                proof {
                    lemma_operation_refusal_stays(all, i + 1);
                }
                return Err(e);
            },
        }
        i += 1;
    }
    proof {
        assert(all.take(i as int) =~= all);
    }
    Ok(ops)
}

/// The instructions of the puzzle, in the order of the text.
#[derive(Debug)]
pub struct Day3 {
    operations: Vec<Operation>,
}

impl Day for Day3 {
    type DayOutputPart1 = i32;

    type DayOutputPart2 = i32;

    type Model = Seq<Operation>;

    closed spec fn model(&self) -> Seq<Operation> {
        self.operations@
    }

    open spec fn parsed(text: Seq<char>) -> Result<Seq<Operation>, ParseFailure> {
        program_of(text)
    }

    open spec fn answer1(state: Seq<Operation>) -> Result<i32, ComputeError> {
        checked_total(products(state))
    }

    open spec fn answer2(state: Seq<Operation>) -> Result<i32, ComputeError> {
        checked_total(enabled_products(state))
    }

    fn id() -> (r: AOCYearDay)
        ensures
            r == (2024i32, 3i32),
    {
        (2024, 3)
    }

    fn from_str(text: &str) -> (r: Result<Self, ParseError>) {
        let pattern = "(mul\\((?<a>\\d{1,3}),(?<b>\\d{1,3})\\)|do\\(\\)|don't\\(\\))";
        match capture_all(pattern, "a", "b", text) {
            Err(_) => Err(
                ParseError { kind: ParseErrorKind::Pattern, content: pattern.to_owned() },
            ),
            Ok(found) => {
                let operations = decode_operations(&found)?;
                Ok(Day3 { operations })
            },
        }
    }

    fn part1(&self) -> (r: Result<i32, ComputeError>) {
        let ghost all = products(self.operations@);
        let mut terms: Vec<i64> = Vec::new();
        let mut i: usize = 0;
        while i < self.operations.len()
            invariant
                i <= self.operations.len(),
                all == products(self.operations@),
                values(terms@) == all.take(i as int),
            decreases self.operations.len() - i,
        {
            let term: i64 = multiply(self.operations[i]);
            proof {
                assert(values(terms@.push(term)) =~= values(terms@).push(term as int));
                assert(all.take(i + 1) =~= all.take(i as int).push(all[i as int]));
            }
            terms.push(term);
            i += 1;
        }
        proof {
            assert(all.take(i as int) =~= all);
        }
        checked_sum(&terms)
    }

    fn part2(&self) -> (r: Result<i32, ComputeError>) {
        let ghost all = enabled_products(self.operations@);
        let mut terms: Vec<i64> = Vec::new();
        let mut process = true;
        let mut i: usize = 0;
        while i < self.operations.len()
            invariant
                i <= self.operations.len(),
                all == enabled_products(self.operations@),
                values(terms@) == all.take(i as int),
                process == enabled_after(self.operations@.take(i as int)),
            decreases self.operations.len() - i,
        {
            let op = self.operations[i];
            let term: i64 = if process {
                multiply(op)
            } else {
                0
            };
            proof {
                assert(values(terms@.push(term)) =~= values(terms@).push(term as int));
                assert(all.take(i + 1) =~= all.take(i as int).push(all[i as int]));
                assert(self.operations@.take(i + 1).drop_last() =~= self.operations@.take(
                    i as int,
                ));
                assert(self.operations@.take(i + 1).last() == op);
            }
            match op {
                Operation::DO => {
                    process = true;
                },
                Operation::DONT => {
                    process = false;
                },
                Operation::MUL(_, _) => {},
            }
            terms.push(term);
            i += 1;
        }
        proof {
            assert(all.take(i as int) =~= all);
        }
        checked_sum(&terms)
    }
}

/// The product of one instruction, in 64 bits.
pub fn multiply(op: Operation) -> (p: i64)
    ensures
        p == product(op),
{
    match op {
        Operation::MUL(a, b) => {
            assert(-4611686018427387904 <= a * b <= 4611686018427387904) by (nonlinear_arith)
                requires
                    -2147483648 <= a <= 2147483647,
                    -2147483648 <= b <= 2147483647,
            ;
            (a as i64) * (b as i64)
        },
        _ => 0,
    }
}

} // verus!
