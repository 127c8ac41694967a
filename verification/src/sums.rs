//! Sums of 32-bit terms that report an overflow in place of a wrong total.

use vstd::prelude::*;
use crate::aoc::ComputeError;

verus! {

/// Whether `v` is the value of an `i32`.
pub open spec fn fits_i32(v: int) -> bool {
    i32::MIN <= v <= i32::MAX
}

/// The sum of `terms`.
pub open spec fn total(terms: Seq<int>) -> int
    decreases terms.len(),
{
    if terms.len() == 0 {
        0
    } else {
        total(terms.drop_last()) + terms.last()
    }
}

/// Whether `terms` can be added up from the left, starting at zero, in 32
/// bits: every term and every sum on the way is the value of an `i32`.
pub open spec fn adds_up(terms: Seq<int>) -> bool {
    &&& forall|i: int| 0 <= i < terms.len() ==> fits_i32(#[trigger] terms[i])
    &&& forall|k: int| 0 <= k <= terms.len() ==> fits_i32(#[trigger] total(terms.take(k)))
}

/// The sum of `terms` where they add up in 32 bits, an overflow where not.
pub open spec fn checked_total(terms: Seq<int>) -> Result<i32, ComputeError> {
    if adds_up(terms) {
        Ok(total(terms) as i32)
    } else {
        Err(ComputeError::Overflow)
    }
}

/// The numbers that a vector of 64-bit terms holds.
pub open spec fn values(terms: Seq<i64>) -> Seq<int> {
    terms.map_values(|t: i64| t as int)
}

/// Adds up `terms` from the left in 32 bits.
pub fn checked_sum(terms: &Vec<i64>) -> (r: Result<i32, ComputeError>)
    ensures
        r == checked_total(values(terms@)),
{
    let ghost all = values(terms@);
    let mut acc: i32 = 0;
    let mut i: usize = 0;
    while i < terms.len()
        invariant
            i <= terms.len(),
            all == values(terms@),
            acc == total(all.take(i as int)),
            forall|j: int| 0 <= j < i ==> fits_i32(#[trigger] all[j]),
            forall|k: int| 0 <= k <= i ==> fits_i32(#[trigger] total(all.take(k))),
        decreases terms.len() - i,
    {
        let t = terms[i];
        proof {
            assert(all[i as int] == t);
            assert(all.take(i + 1).drop_last() =~= all.take(i as int));
            assert(all.take(i + 1).last() == t);
        }
        if t < -2147483648 || t > 2147483647 {
            return Err(ComputeError::Overflow);
        }
        let next: i64 = acc as i64 + t;
        if next < -2147483648 || next > 2147483647 {
            proof {
                assert(!fits_i32(total(all.take(i + 1))));
            }
            return Err(ComputeError::Overflow);
        }
        acc = next as i32;
        i += 1;
    }
    proof {
        assert(all.take(i as int) =~= all);
    }
    Ok(acc)
}

} // verus!
