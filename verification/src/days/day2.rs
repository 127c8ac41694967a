//! Reports of levels: a report is safe when its levels rise or fall all the
//! way, by one to three from each level to the next. With tolerance, one
//! level of a report may be left out.

use vstd::prelude::*;
use crate::aoc::{AOCYearDay, ComputeError, Day, ParseError, ParseErrorKind, ParseFailure};
use crate::text::{
    chars_of,
    i32_value,
    lines,
    parse_i32,
    rows,
    split_at_separators,
    split_words,
    string_from_chars,
    words,
    Separator,
};

verus! {

/// Whether `a` and `b` differ by one, two or three.
pub open spec fn within_limits(a: i32, b: i32) -> bool {
    1 <= a - b <= 3 || 1 <= b - a <= 3
}

/// Whether `a`, `b`, `c` rise or fall, each step within the limits.
pub open spec fn valid_step(a: i32, b: i32, c: i32) -> bool {
    (1 <= b - a <= 3 && 1 <= c - b <= 3) || (1 <= a - b <= 3 && 1 <= b - c <= 3)
}

/// By how much `r` rises from place `i` to the next.
pub open spec fn rise(r: Seq<i32>, i: int) -> int {
    r[i + 1] - r[i]
}

/// Every level of `r` is above the one before, by three at most.
pub open spec fn rising(r: Seq<i32>) -> bool {
    forall|i: int| 0 <= i < r.len() - 1 ==> 1 <= #[trigger] rise(r, i) <= 3
}

/// Every level of `r` is below the one before, by three at most.
pub open spec fn falling(r: Seq<i32>) -> bool {
    forall|i: int| 0 <= i < r.len() - 1 ==> -3 <= #[trigger] rise(r, i) <= -1
}

/// The report is safe as it stands.
pub open spec fn steady(r: Seq<i32>) -> bool {
    rising(r) || falling(r)
}

/// The report is safe as it stands or without one of its levels.
pub open spec fn tolerable(r: Seq<i32>) -> bool {
    steady(r) || exists|j: int| 0 <= j < r.len() && #[trigger] steady(r.remove(j))
}

/// Whether a report counts as safe, with or without tolerance.
pub open spec fn safe(r: Seq<i32>, damp_enabled: bool) -> bool {
    if damp_enabled {
        tolerable(r)
    } else {
        steady(r)
    }
}

/// How many of `reports` are safe.
pub open spec fn safe_count(reports: Seq<Seq<i32>>, damp_enabled: bool) -> nat
    decreases reports.len(),
{
    if reports.len() == 0 {
        0
    } else {
        safe_count(reports.drop_last(), damp_enabled) + if safe(reports.last(), damp_enabled) {
            1nat
        } else {
            0nat
        }
    }
}

/// Where the first fault at place `p` shows: the two or three levels that end there.
pub open spec fn fault_start(p: int) -> int {
    if p >= 2 {
        p - 2
    } else {
        0
    }
}

/// A stretch of a safe report is safe.
pub proof fn lemma_steady_stretch(r: Seq<i32>, from: int, to: int)
    requires
        steady(r),
        0 <= from <= to <= r.len(),
    ensures
        steady(r.subrange(from, to)),
{
    let part = r.subrange(from, to);
    if rising(r) {
        assert forall|i: int| 0 <= i < part.len() - 1 implies 1 <= #[trigger] rise(part, i)
            <= 3 by {
            assert(rise(part, i) == rise(r, from + i));
        }
    } else {
        assert forall|i: int| 0 <= i < part.len() - 1 implies -3 <= #[trigger] rise(part, i)
            <= -1 by {
            assert(rise(part, i) == rise(r, from + i));
        }
    }
}

/// A safe start of a report stays safe with one more level that makes a
/// valid step with the two before it.
pub proof fn lemma_steady_extends(r: Seq<i32>, p: int)
    requires
        1 <= p < r.len(),
        steady(r.take(p)),
        p == 1 ==> within_limits(r[0], r[1]),
        p >= 2 ==> valid_step(r[p - 2], r[p - 1], r[p]),
    ensures
        steady(r.take(p + 1)),
{
    let short = r.take(p);
    let long = r.take(p + 1);
    assert(rise(long, p - 1) == r[p] - r[p - 1]);
    if p >= 2 {
        assert(rise(short, p - 2) == r[p - 1] - r[p - 2]);
    }
    if (p == 1 && r[1] > r[0]) || (p >= 2 && rising(short)) {
        assert forall|i: int| 0 <= i < long.len() - 1 implies 1 <= #[trigger] rise(long, i)
            <= 3 by {
            if i < p - 1 {
                assert(rise(long, i) == rise(short, i));
            }
        }
    } else {
        assert forall|i: int| 0 <= i < long.len() - 1 implies -3 <= #[trigger] rise(long, i)
            <= -1 by {
            if i < p - 1 {
                assert(rise(long, i) == rise(short, i));
            }
        }
    }
}

/// The levels that end at a failed step are not safe.
pub proof fn lemma_fault_shows(r: Seq<i32>, p: int)
    requires
        1 <= p < r.len(),
        p == 1 ==> !within_limits(r[0], r[1]),
        p >= 2 ==> !valid_step(r[p - 2], r[p - 1], r[p]),
    ensures
        !steady(r.subrange(fault_start(p), p + 1)),
{
    let part = r.subrange(fault_start(p), p + 1);
    if steady(part) {
        if p == 1 {
            assert(rise(part, 0) == r[1] - r[0]);
        } else {
            assert(rise(part, 0) == r[p - 1] - r[p - 2]);
            assert(rise(part, 1) == r[p] - r[p - 1]);
        }
    }
}

/// With a first fault at place `p`, leaving out a level before the faulty
/// stretch or after it mends nothing.
pub proof fn lemma_fault_stays(r: Seq<i32>, p: int, j: int)
    requires
        1 <= p < r.len(),
        !steady(r.subrange(fault_start(p), p + 1)),
        0 <= j < r.len(),
        j < fault_start(p) || j > p,
    ensures
        !steady(r.remove(j)),
{
    let lo = fault_start(p);
    let without = r.remove(j);
    if steady(without) {
        if j > p {
            lemma_steady_stretch(without, lo, p + 1);
            assert(without.subrange(lo, p + 1) =~= r.subrange(lo, p + 1));
        } else {
            lemma_steady_stretch(without, lo - 1, p);
            assert(without.subrange(lo - 1, p) =~= r.subrange(lo, p + 1));
        }
    }
}

/// The reports of the puzzle.
#[derive(Debug)]
pub struct Day2 {
    reports: Vec<Vec<i32>>,
}

/// The level sequences that a vector of reports stands for.
pub open spec fn levels(reports: Seq<Vec<i32>>) -> Seq<Seq<i32>> {
    reports.map_values(|r: Vec<i32>| r@)
}

impl Day2 {
    /// Whether `a` and `b` differ by one, two or three.
    pub fn in_limits(a: i32, b: i32) -> (ok: bool)
        ensures
            ok == within_limits(a, b),
    {
        let x: i64 = if a >= b {
            a as i64 - b as i64
        } else {
            b as i64 - a as i64
        };
        1 <= x && x <= 3
    }

    /// Whether three levels in a row rise or fall within the limits.
    pub fn check_report_step_validity(a: i32, b: i32, c: i32) -> (ok: bool)
        ensures
            ok == valid_step(a, b, c),
    {
        if (a > b && b > c) || (c > b && b > a) {
            if Day2::in_limits(a, b) && Day2::in_limits(b, c) {
                return true;
            }
        }
        false
    }

    /// The report without the level at `position`.
    pub fn damp(report: &Vec<i32>, position: usize) -> (damped: Vec<i32>)
        requires
            position < report.len(),
        ensures
            damped@ == report@.remove(position as int),
    {
        let mut damped: Vec<i32> = Vec::new();
        let mut i: usize = 0;
        while i < report.len()
            invariant
                i <= report.len(),
                position < report.len(),
                damped@ == if i <= position {
                    report@.take(i as int)
                } else {
                    report@.take(i as int).remove(position as int)
                },
            decreases report.len() - i,
        {
            if i != position {
                damped.push(report[i]);
            }
            proof {
                if i < position {
                    assert(damped@ =~= report@.take(i + 1));
                } else if i == position {
                    assert(damped@ =~= report@.take(i + 1).remove(position as int));
                } else {
                    assert(damped@ =~= report@.take(i + 1).remove(position as int));
                }
            }
            i += 1;
        }
        proof {
            assert(report@.take(i as int) =~= report@);
        }
        damped
    }

    /// The place of the first step of `report` that fails, if one does.
    pub fn first_fault(report: &Vec<i32>) -> (fault: Option<usize>)
        ensures
            match fault {
                None => steady(report@),
                Some(p) => 1 <= p < report.len() && !steady(report@) && !steady(
                    report@.subrange(fault_start(p as int), p + 1),
                ),
            },
    {
        if report.len() < 2 {
            return None;
        }
        let mut p: usize = 1;
        while p < report.len()
            invariant
                1 <= p <= report.len(),
                steady(report@.take(p as int)),
            decreases report.len() - p,
        {
            let ok = if p == 1 {
                Day2::in_limits(report[0], report[1])
            } else {
                Day2::check_report_step_validity(report[p - 2], report[p - 1], report[p])
            };
            if !ok {
                proof {
                    lemma_fault_shows(report@, p as int);
                    if steady(report@) {
                        lemma_steady_stretch(report@, fault_start(p as int), p + 1);
                    }
                }
                return Some(p);
            }
            proof {
                lemma_steady_extends(report@, p as int);
            }
            p += 1;
        }
        proof {
            assert(report@.take(p as int) =~= report@);
        }
        None
    }

    /// Whether the report without the level at `position` is safe as it stands.
    pub fn safe_without(report: &Vec<i32>, position: usize) -> (ok: bool)
        requires
            position < report.len(),
        ensures
            ok == steady(report@.remove(position as int)),
    {
        let damped = Day2::damp(report, position);
        Day2::first_fault(&damped).is_none()
    }

    /// Whether the report is safe: as it stands, or, with `damp_enabled`,
    /// also without one of its levels.
    pub fn check_report_safe(report: &Vec<i32>, damp_enabled: bool) -> (ok: bool)
        ensures
            ok == safe(report@, damp_enabled),
    {
        match Day2::first_fault(report) {
            None => true,
            Some(p) => {
                if !damp_enabled {
                    return false;
                }
                let mended = if p == 1 {
                    Day2::safe_without(report, 0) || Day2::safe_without(report, 1)
                } else {
                    Day2::safe_without(report, p - 2) || Day2::safe_without(report, p - 1)
                        || Day2::safe_without(report, p)
                };
                proof {
                    if !mended {
                        assert forall|j: int| 0 <= j < report@.len() implies !#[trigger] steady(
                            report@.remove(j),
                        ) by {
                            if j < fault_start(p as int) || j > p {
                                lemma_fault_stays(report@, p as int, j);
                            }
                        }
                    }
                }
                mended
            },
        }
    }

    /// Counts the safe reports.
    pub fn count_safe(&self, damp_enabled: bool) -> (n: usize)
        ensures
            n == safe_count(self.model(), damp_enabled),
    {
        let mut n: usize = 0;
        let mut i: usize = 0;
        while i < self.reports.len()
            invariant
                i <= self.reports.len(),
                n <= i,
                n == safe_count(levels(self.reports@).take(i as int), damp_enabled),
            decreases self.reports.len() - i,
        {
            proof {
                let all = levels(self.reports@);
                assert(all.take(i + 1).drop_last() =~= all.take(i as int));
                assert(all.take(i + 1).last() == self.reports@[i as int]@);
            }
            if Day2::check_report_safe(&self.reports[i], damp_enabled) {
                n += 1;
            }
            i += 1;
        }
        proof {
            assert(levels(self.reports@).take(i as int) =~= levels(self.reports@));
        }
        n
    }
}

/// The numbers that a sequence of entries stands for, or the refusal of the
/// first entry that is no number.
pub open spec fn numbers_of(entries: Seq<Seq<char>>) -> Result<Seq<i32>, ParseFailure>
    decreases entries.len(),
{
    if entries.len() == 0 {
        Ok(Seq::empty())
    } else {
        match numbers_of(entries.drop_last()) {
            Err(e) => Err(e),
            Ok(before) => match i32_value(entries.last()) {
                None => Err(
                    ParseFailure { kind: ParseErrorKind::InvalidNumber, content: entries.last() },
                ),
                Some(v) => Ok(before.push(v)),
            },
        }
    }
}

/// The reports that a sequence of lines stands for, one for each line that
/// holds a word, or the refusal of the first line that is refused.
pub open spec fn reports_of(all: Seq<Seq<char>>) -> Result<Seq<Seq<i32>>, ParseFailure>
    decreases all.len(),
{
    if all.len() == 0 {
        Ok(Seq::empty())
    } else {
        match reports_of(all.drop_last()) {
            Err(e) => Err(e),
            Ok(before) => match numbers_of(words(all.last())) {
                Err(e) => Err(e),
                Ok(report) => if report.len() > 0 {
                    Ok(before.push(report))
                } else {
                    Ok(before)
                },
            },
        }
    }
}

/// Reads the numbers of one line.
pub fn parse_report(line: &Vec<char>) -> (r: Result<Vec<i32>, ParseError>)
    ensures
        match r {
            Ok(report) => numbers_of(words(line@)) == Ok::<Seq<i32>, ParseFailure>(report@),
            Err(e) => numbers_of(words(line@)) == Err::<Seq<i32>, ParseFailure>(e@),
        },
{
    let entries = split_words(line);
    let mut report: Vec<i32> = Vec::new();
    let mut i: usize = 0;
    assert(rows(entries@).len() == entries@.len());
    while i < entries.len()
        invariant
            i <= entries.len(),
            rows(entries@) == words(line@),
            numbers_of(rows(entries@).take(i as int)) == Ok::<Seq<i32>, ParseFailure>(report@),
        decreases entries.len() - i,
    {
        proof {
            let all = rows(entries@);
            assert(all.take(i + 1).drop_last() =~= all.take(i as int));
            assert(all.take(i + 1).last() == entries@[i as int]@);
        }
        match parse_i32(&entries[i]) {
            Some(v) => {
                report.push(v);
            },
            None => {
                proof {
                    lemma_number_refusal_stays(rows(entries@), i + 1);
                }
                return Err(
                    ParseError {
                        kind: ParseErrorKind::InvalidNumber,
                        content: string_from_chars(&entries[i]),
                    },
                );
            },
        }
        i += 1;
    }
    proof {
        assert(rows(entries@).take(i as int) =~= rows(entries@));
    }
    Ok(report)
}

/// Once a prefix of the entries is refused, so is the whole, for the same reason.
pub proof fn lemma_number_refusal_stays(entries: Seq<Seq<char>>, k: int)
    requires
        0 <= k <= entries.len(),
        numbers_of(entries.take(k)) is Err,
    ensures
        numbers_of(entries) == numbers_of(entries.take(k)),
    decreases entries.len() - k,
{
    if k == entries.len() {
        assert(entries.take(k) =~= entries);
    } else {
        assert(entries.take(k + 1).drop_last() =~= entries.take(k));
        lemma_number_refusal_stays(entries, k + 1);
    }
}

/// Once a prefix of the lines is refused, so is the whole, for the same reason.
pub proof fn lemma_report_refusal_stays(all: Seq<Seq<char>>, k: int)
    requires
        0 <= k <= all.len(),
        reports_of(all.take(k)) is Err,
    ensures
        reports_of(all) == reports_of(all.take(k)),
    decreases all.len() - k,
{
    if k == all.len() {
        assert(all.take(k) =~= all);
    } else {
        assert(all.take(k + 1).drop_last() =~= all.take(k));
        lemma_report_refusal_stays(all, k + 1);
    }
}

impl Day for Day2 {
    type DayOutputPart1 = usize;

    type DayOutputPart2 = usize;

    type Model = Seq<Seq<i32>>;

    closed spec fn model(&self) -> Seq<Seq<i32>> {
        levels(self.reports@)
    }

    open spec fn parsed(text: Seq<char>) -> Result<Seq<Seq<i32>>, ParseFailure> {
        reports_of(lines(text))
    }

    open spec fn answer1(state: Seq<Seq<i32>>) -> Result<usize, ComputeError> {
        Ok(safe_count(state, false) as usize)
    }

    open spec fn answer2(state: Seq<Seq<i32>>) -> Result<usize, ComputeError> {
        Ok(safe_count(state, true) as usize)
    }

    fn id() -> (r: AOCYearDay)
        ensures
            r == (2024i32, 2i32),
    {
        (2024, 2)
    }

    fn from_str(text: &str) -> (r: Result<Self, ParseError>) {
        let chars = chars_of(text);
        let all = split_at_separators(&chars, Separator::Newline);
        let mut reports: Vec<Vec<i32>> = Vec::new();
        let mut i: usize = 0;
        assert(levels(reports@) =~= Seq::<Seq<i32>>::empty());
        while i < all.len()
            invariant
                i <= all.len(),
                rows(all@) == lines(text@),
                reports_of(rows(all@).take(i as int)) == Ok::<Seq<Seq<i32>>, ParseFailure>(
                    levels(reports@),
                ),
            decreases all.len() - i,
        {
            proof {
                assert(rows(all@).take(i + 1).drop_last() =~= rows(all@).take(i as int));
                assert(rows(all@).take(i + 1).last() == all@[i as int]@);
            }
            match parse_report(&all[i]) {
                Err(e) => {
                    proof {
                        lemma_report_refusal_stays(rows(all@), i + 1);
                    }
                    return Err(e);
                },
                Ok(report) => {
                    if report.len() > 0 {
                        proof {
                            assert(levels(reports@.push(report)) =~= levels(reports@).push(
                                report@,
                            ));
                        }
                        reports.push(report);
                    }
                },
            }
            i += 1;
        }
        proof {
            assert(rows(all@).take(i as int) =~= rows(all@));
        }
        Ok(Day2 { reports })
    }

    fn part1(&self) -> (r: Result<usize, ComputeError>) {
        Ok(self.count_safe(false))
    }

    fn part2(&self) -> (r: Result<usize, ComputeError>) {
        Ok(self.count_safe(true))
    }
}

/// A sequence of entries is refused exactly where one of them is no
/// number, and the refusal quotes the first such entry.
pub proof fn law_refused_entries(entries: Seq<Seq<char>>) -> (k: int)
    ensures
        numbers_of(entries) is Err <==> exists|i: int|
            0 <= i < entries.len() && i32_value(#[trigger] entries[i]) is None,
        numbers_of(entries) is Err ==> 0 <= k < entries.len() && i32_value(entries[k]) is None
            && numbers_of(entries)->Err_0 == (ParseFailure {
            kind: ParseErrorKind::InvalidNumber,
            content: entries[k],
        }) && forall|i: int| 0 <= i < k ==> i32_value(#[trigger] entries[i]) is Some,
    decreases entries.len(),
{
    if entries.len() == 0 {
        0
    } else {
        let before = entries.drop_last();
        let k = law_refused_entries(before);
        assert forall|i: int| 0 <= i < before.len() implies before[i] == entries[i] by {}
        if numbers_of(before) is Err {
            assert(i32_value(entries[k]) is None);
            k
        } else {
            assert forall|i: int| 0 <= i < before.len() implies i32_value(
                #[trigger] entries[i],
            ) is Some by {
                assert(before[i] == entries[i]);
            }
            entries.len() - 1
        }
    }
}

/// A refused sequence of lines is refused for its first refused line.
pub proof fn lemma_first_refused_report(all: Seq<Seq<char>>) -> (j: int)
    requires
        reports_of(all) is Err,
    ensures
        0 <= j < all.len(),
        numbers_of(words(all[j])) is Err,
        reports_of(all) == Err::<Seq<Seq<i32>>, ParseFailure>(numbers_of(words(all[j]))->Err_0),
    decreases all.len(),
{
    if reports_of(all.drop_last()) is Err {
        lemma_first_refused_report(all.drop_last())
    } else {
        all.len() - 1
    }
}

/// A text with a line that holds an entry that is no number is refused,
/// whatever else it holds, for the first of its lines that hold one.
pub proof fn law_malformed_text_refused(text: Seq<char>, i: int) -> (j: int)
    requires
        0 <= i < lines(text).len(),
        numbers_of(words(lines(text)[i])) is Err,
    ensures
        0 <= j <= i,
        numbers_of(words(lines(text)[j])) is Err,
        Day2::parsed(text) == Err::<Seq<Seq<i32>>, ParseFailure>(
            numbers_of(words(lines(text)[j]))->Err_0,
        ),
{
    let all = lines(text);
    if reports_of(all.take(i)) is Err {
        let j = lemma_first_refused_report(all.take(i));
        lemma_report_refusal_stays(all, i);
        assert(all.take(i)[j] == all[j]);
        j
    } else {
        assert(all.take(i + 1).drop_last() =~= all.take(i));
        assert(all.take(i + 1).last() == all[i]);
        lemma_report_refusal_stays(all, i + 1);
        i
    }
}

} // verus!
