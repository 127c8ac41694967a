//! Two lists of location numbers: their total distance when paired in
//! ascending order, and their similarity score.

use std::collections::HashMap;
use vstd::prelude::*;
use vstd::relations::{sorted_by, total_ordering};
use vstd::seq_lib::lemma_sorted_unique;
use crate::aoc::{AOCYearDay, ComputeError, Day, ParseError, ParseErrorKind, ParseFailure};
use crate::sums::{checked_sum, checked_total, fits_i32, values};
use crate::text::{
    chars_of,
    i32_value,
    lines,
    parse_i32,
    rows,
    split_at_separators,
    split_words,
    string_from_chars,
    words,
    Separator,
};

verus! {

/// The order of the integers.
pub open spec fn ascending() -> spec_fn(i32, i32) -> bool {
    |a: i32, b: i32| a <= b
}

/// `s` in ascending order.
pub open spec fn sorted(s: Seq<i32>) -> Seq<i32> {
    s.sort_by(ascending())
}

/// How often `v` occurs in `s`.
pub open spec fn occurrences(s: Seq<i32>, v: i32) -> nat
    decreases s.len(),
{
    if s.len() == 0 {
        0
    } else {
        occurrences(s.drop_last(), v) + if s.last() == v {
            1nat
        } else {
            0nat
        }
    }
}

/// The distances between the entries of `left` and `right` at the same
/// place, as far as both lists go.
pub open spec fn distances(left: Seq<i32>, right: Seq<i32>) -> Seq<int> {
    Seq::new(
        if left.len() <= right.len() {
            left.len()
        } else {
            right.len()
        },
        |i: int|
            if left[i] >= right[i] {
                left[i] - right[i]
            } else {
                right[i] - left[i]
            },
    )
}

/// Each entry of `left` times the number of its occurrences in `right`.
pub open spec fn similarities(left: Seq<i32>, right: Seq<i32>) -> Seq<int> {
    Seq::new(left.len(), |i: int| left[i] * occurrences(right, left[i]))
}

/// What a line stands for: nothing if it holds no word, a pair of numbers if
/// it holds two words that are numbers, and a refusal otherwise.
pub open spec fn pair_of(line: Seq<char>) -> Result<Option<(i32, i32)>, ParseFailure> {
    let entries = words(line);
    if entries.len() == 0 {
        Ok(None)
    } else if entries.len() != 2 {
        Err(
            ParseFailure {
                kind: ParseErrorKind::EntryCount { found: entries.len() as usize },
                content: line,
            },
        )
    } else {
        match (i32_value(entries[0]), i32_value(entries[1])) {
            (None, _) => Err(
                ParseFailure { kind: ParseErrorKind::InvalidNumber, content: entries[0] },
            ),
            (Some(_), None) => Err(
                ParseFailure { kind: ParseErrorKind::InvalidNumber, content: entries[1] },
            ),
            (Some(a), Some(b)) => Ok(Some((a, b))),
        }
    }
}

/// The two lists that a sequence of lines stands for, or the refusal of the
/// first line that is refused.
pub open spec fn pairs_of(all: Seq<Seq<char>>) -> Result<(Seq<i32>, Seq<i32>), ParseFailure>
    decreases all.len(),
{
    if all.len() == 0 {
        Ok((Seq::empty(), Seq::empty()))
    } else {
        match pairs_of(all.drop_last()) {
            Err(e) => Err(e),
            Ok((left, right)) => match pair_of(all.last()) {
                Err(e) => Err(e),
                Ok(None) => Ok((left, right)),
                Ok(Some((a, b))) => Ok((left.push(a), right.push(b))),
            },
        }
    }
}

/// The total distance of two lists paired in ascending order.
pub open spec fn total_distance(left: Seq<i32>, right: Seq<i32>) -> Result<i32, ComputeError> {
    checked_total(distances(sorted(left), sorted(right)))
}

/// The similarity score of two lists.
pub open spec fn similarity_score(left: Seq<i32>, right: Seq<i32>) -> Result<i32, ComputeError> {
    checked_total(similarities(left, right))
}

pub proof fn lemma_occurrences_bounded(s: Seq<i32>, v: i32)
    ensures
        occurrences(s, v) <= s.len(),
    decreases s.len(),
{
    if s.len() > 0 {
        lemma_occurrences_bounded(s.drop_last(), v);
    }
}

/// A rearrangement of `before` that ascends is `before` sorted.
pub proof fn lemma_ascending_rearrangement(before: Seq<i32>, after: Seq<i32>)
    requires
        after.to_multiset() == before.to_multiset(),
        sorted_by(after, ascending()),
    ensures
        after == sorted(before),
{
    assert(total_ordering(ascending()));
    before.lemma_sort_by_ensures(ascending());
    lemma_sorted_unique(after, sorted(before), ascending());
}

/// Sorts `v` with `slice::sort`: afterwards `v` holds what it held, each
/// value as often as before, in ascending order.
#[verifier::external_body]
fn sort_ascending(v: &mut Vec<i32>)
    ensures
        final(v)@.to_multiset() == old(v)@.to_multiset(),
        sorted_by(final(v)@, ascending()),
{
    v.sort();
}

/// Reads one line of the puzzle's text.
pub fn parse_pair(line: &Vec<char>) -> (r: Result<Option<(i32, i32)>, ParseError>)
    ensures
        match r {
            Ok(pair) => pair_of(line@) == Ok::<Option<(i32, i32)>, ParseFailure>(pair),
            Err(e) => pair_of(line@) == Err::<Option<(i32, i32)>, ParseFailure>(e@),
        },
{
    let entries = split_words(line);
    assert(rows(entries@).len() == entries@.len());
    if entries.len() == 0 {
        return Ok(None);
    }
    if entries.len() != 2 {
        return Err(
            ParseError {
                kind: ParseErrorKind::EntryCount { found: entries.len() },
                content: string_from_chars(line),
            },
        );
    }
    assert(rows(entries@)[0] == entries@[0]@);
    assert(rows(entries@)[1] == entries@[1]@);
    let a = match parse_i32(&entries[0]) {
        Some(a) => a,
        None => {
            return Err(
                ParseError {
                    kind: ParseErrorKind::InvalidNumber,
                    content: string_from_chars(&entries[0]),
                },
            );
        },
    };
    let b = match parse_i32(&entries[1]) {
        Some(b) => b,
        None => {
            return Err(
                ParseError {
                    kind: ParseErrorKind::InvalidNumber,
                    content: string_from_chars(&entries[1]),
                },
            );
        },
    };
    Ok(Some((a, b)))
}

/// The number that a table of counts holds for `v`: zero for a missing key.
pub open spec fn counted(counts: Map<i32, usize>, v: i32) -> nat {
    if counts.contains_key(v) {
        counts[v] as nat
    } else {
        0
    }
}

/// The two lists of the puzzle, and how often each number occurs in the
/// second one.
#[derive(Debug)]
pub struct Day1 {
    list1: Vec<i32>,
    list2: Vec<i32>,
    counts: HashMap<i32, usize>,
}

impl Day1 {
    /// The table of counts agrees with the second list.
    #[verifier::type_invariant]
    closed spec fn counts_agree(self) -> bool {
        forall|v: i32| counted(self.counts@, v) == #[trigger] occurrences(self.list2@, v)
    }
}

impl Day for Day1 {
    type DayOutputPart1 = i32;

    type DayOutputPart2 = i32;

    type Model = (Seq<i32>, Seq<i32>);

    closed spec fn model(&self) -> (Seq<i32>, Seq<i32>) {
        (self.list1@, self.list2@)
    }

    open spec fn parsed(text: Seq<char>) -> Result<(Seq<i32>, Seq<i32>), ParseFailure> {
        pairs_of(lines(text))
    }

    open spec fn answer1(state: (Seq<i32>, Seq<i32>)) -> Result<i32, ComputeError> {
        total_distance(state.0, state.1)
    }

    open spec fn answer2(state: (Seq<i32>, Seq<i32>)) -> Result<i32, ComputeError> {
        similarity_score(state.0, state.1)
    }

    fn id() -> (r: AOCYearDay)
        ensures
            r == (2024i32, 1i32),
    {
        (2024, 1)
    }

    fn from_str(text: &str) -> (r: Result<Self, ParseError>) {
        broadcast use vstd::std_specs::hash::group_hash_axioms;

        let chars = chars_of(text);
        let all = split_at_separators(&chars, Separator::Newline);
        let mut list1: Vec<i32> = Vec::new();
        let mut list2: Vec<i32> = Vec::new();
        let mut counts: HashMap<i32, usize> = HashMap::new();
        let mut i: usize = 0;
        while i < all.len()
            invariant
                i <= all.len(),
                pairs_of(rows(all@).take(i as int)) == Ok::<(Seq<i32>, Seq<i32>), ParseFailure>(
                    (list1@, list2@),
                ),
                forall|v: i32| counted(counts@, v) == #[trigger] occurrences(list2@, v),
                rows(all@) == lines(text@),
            decreases all.len() - i,
        {
            proof {
                assert(rows(all@).take(i + 1).drop_last() =~= rows(all@).take(i as int));
                assert(rows(all@).take(i + 1).last() == all@[i as int]@);
            }
            match parse_pair(&all[i]) {
                Err(e) => {
                    proof {
                        lemma_refused_line(rows(all@), i as int);
                    }
                    return Err(e);
                },
                Ok(None) => {},
                Ok(Some((a, b))) => {
                    let seen: usize = match counts.get(&b) {
                        Some(n) => *n,
                        None => 0,
                    };
                    proof {
                        lemma_occurrences_bounded(list2@, b);
                    }
                    let ghost old_list2 = list2@;
                    list1.push(a);
                    list2.push(b);
                    // No count is above the length of the list, which is a `usize`.
                    let _length: usize = list2.len();
                    let ghost before = counts@;
                    counts.insert(b, seen + 1);
                    proof {
                        assert forall|v: i32|
                            counted(counts@, v) == #[trigger] occurrences(list2@, v) by {
                            assert(list2@.drop_last() =~= old_list2);
                            assert(counted(before, v) == occurrences(old_list2, v));
                        }
                    }
                },
            }
            i += 1;
        }
        proof {
            assert(rows(all@).take(i as int) =~= rows(all@));
        }
        Ok(Day1 { list1, list2, counts })
    }

    fn part1(&self) -> (r: Result<i32, ComputeError>) {
        let mut l1 = self.list1.clone();
        let mut l2 = self.list2.clone();
        assert(l1@ =~= self.list1@);
        assert(l2@ =~= self.list2@);
        sort_ascending(&mut l1);
        sort_ascending(&mut l2);
        proof {
            lemma_ascending_rearrangement(self.list1@, l1@);
            lemma_ascending_rearrangement(self.list2@, l2@);
        }
        let n = if l1.len() <= l2.len() {
            l1.len()
        } else {
            l2.len()
        };
        let mut terms: Vec<i64> = Vec::new();
        let mut i: usize = 0;
        while i < n
            invariant
                i <= n,
                n <= l1.len(),
                n <= l2.len(),
                values(terms@) == distances(l1@, l2@).take(i as int),
            decreases n - i,
        {
            let a: i64 = l1[i] as i64;
            let b: i64 = l2[i] as i64;
            let d: i64 = if a >= b {
                a - b
            } else {
                b - a
            };
            proof {
                let whole = distances(l1@, l2@);
                assert(values(terms@.push(d)) =~= values(terms@).push(d as int));
                assert(whole.take(i + 1) =~= whole.take(i as int).push(whole[i as int]));
            }
            terms.push(d);
            i += 1;
        }
        proof {
            assert(distances(l1@, l2@).take(n as int) =~= distances(l1@, l2@));
        }
        checked_sum(&terms)
    }

    fn part2(&self) -> (r: Result<i32, ComputeError>) {
        broadcast use vstd::std_specs::hash::group_hash_axioms;

        proof {
            use_type_invariant(self);
        }
        let ghost all = similarities(self.list1@, self.list2@);
        let mut terms: Vec<i64> = Vec::new();
        let mut i: usize = 0;
        while i < self.list1.len()
            invariant
                i <= self.list1.len(),
                all == similarities(self.list1@, self.list2@),
                values(terms@) == all.take(i as int),
                forall|v: i32|
                    counted(self.counts@, v) == #[trigger] occurrences(self.list2@, v),
            decreases self.list1.len() - i,
        {
            let a = self.list1[i];
            let seen: usize = match self.counts.get(&a) {
                Some(n) => *n,
                None => 0,
            };
            assert(seen == occurrences(self.list2@, a));
            assert(all[i as int] == a * seen);
            if a != 0 && seen > 2147483648 {
                proof {
                    assert(!fits_i32(a * seen)) by (nonlinear_arith)
                        requires
                            a != 0,
                            seen > 2147483648,
                    ;
                }
                return Err(ComputeError::Overflow);
            }
            let term: i64 = if a == 0 {
                0
            } else {
                assert(-4611686018427387904 <= a * seen <= 4611686018427387904)
                    by (nonlinear_arith)
                    requires
                        -2147483648 <= a <= 2147483647,
                        0 <= seen <= 2147483648,
                ;
                (a as i64) * (seen as i64)
            };
            proof {
                assert(term == all[i as int]) by (nonlinear_arith)
                    requires
                        all[i as int] == a * seen,
                        term == if a == 0 {
                            0
                        } else {
                            a * seen
                        },
                ;
                assert(values(terms@.push(term)) =~= values(terms@).push(term as int));
                assert(all.take(i + 1) =~= all.take(i as int).push(all[i as int]));
            }
            terms.push(term);
            i += 1;
        }
        proof {
            assert(all.take(i as int) =~= all);
        }
        checked_sum(&terms)
    }
}

/// A text whose line `i` is refused, and none before it, is refused for
/// that line's reason.
pub proof fn lemma_refused_line(all: Seq<Seq<char>>, i: int)
    requires
        0 <= i < all.len(),
        pairs_of(all.take(i)) is Ok,
        pair_of(all[i]) is Err,
    ensures
        pairs_of(all) == Err::<(Seq<i32>, Seq<i32>), ParseFailure>(pair_of(all[i])->Err_0),
    decreases all.len() - i,
{
    assert(all.take(i + 1).drop_last() =~= all.take(i));
    assert(all.take(i + 1).last() == all[i]);
    lemma_refusal_stays(all, i + 1);
}

/// Once a prefix of the lines is refused, so is the whole, for the same reason.
pub proof fn lemma_refusal_stays(all: Seq<Seq<char>>, k: int)
    requires
        0 <= k <= all.len(),
        pairs_of(all.take(k)) is Err,
    ensures
        pairs_of(all) == pairs_of(all.take(k)),
    decreases all.len() - k,
{
    if k == all.len() {
        assert(all.take(k) =~= all);
    } else {
        assert(all.take(k + 1).drop_last() =~= all.take(k));
        lemma_refusal_stays(all, k + 1);
    }
}

/// A refused sequence of lines is refused for its first refused line.
pub proof fn lemma_first_refusal(all: Seq<Seq<char>>) -> (j: int)
    requires
        pairs_of(all) is Err,
    ensures
        0 <= j < all.len(),
        pair_of(all[j]) is Err,
        pairs_of(all) == Err::<(Seq<i32>, Seq<i32>), ParseFailure>(pair_of(all[j])->Err_0),
    decreases all.len(),
{
    if pairs_of(all.drop_last()) is Err {
        lemma_first_refusal(all.drop_last())
    } else {
        all.len() - 1
    }
}

/// A line is refused exactly where it holds one word, or more than two, or
/// two of which one is no number. The refusal quotes the line in the first
/// two cases and the first word that is no number in the third.
pub proof fn law_refused_lines(line: Seq<char>)
    ensures
        pair_of(line) is Err <==> words(line).len() == 1 || words(line).len() > 2 || (words(
            line,
        ).len() == 2 && (i32_value(words(line)[0]) is None || i32_value(words(line)[1]) is None)),
        pair_of(line) is Err && words(line).len() != 2 ==> pair_of(line)->Err_0.content == line,
        pair_of(line) is Err && words(line).len() == 2 ==> {
            let entry = pair_of(line)->Err_0.content;
            (entry == words(line)[0] || entry == words(line)[1]) && i32_value(entry) is None
        },
{
}

/// A text with a refused line is refused, whatever else it holds, and for
/// the first of its refused lines.
pub proof fn law_malformed_text_refused(text: Seq<char>, i: int) -> (j: int)
    requires
        0 <= i < lines(text).len(),
        pair_of(lines(text)[i]) is Err,
    ensures
        0 <= j <= i,
        pair_of(lines(text)[j]) is Err,
        Day1::parsed(text) == Err::<(Seq<i32>, Seq<i32>), ParseFailure>(
            pair_of(lines(text)[j])->Err_0,
        ),
{
    let all = lines(text);
    if pairs_of(all.take(i)) is Err {
        let j = lemma_first_refusal(all.take(i));
        lemma_refusal_stays(all, i);
        assert(all.take(i)[j] == all[j]);
        j
    } else {
        lemma_refused_line(all, i);
        i
    }
}

} // verus!
