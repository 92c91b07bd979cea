//! Sums over the records that pass a test.

use vstd::prelude::*;

verus! {

/// Largest magnitude of one summand: a 32-bit amount.
pub const SUMMAND_LIMIT: i128 = 0x8000_0000;

/// The sum of `worth` over the records of `s` that pass `pick`.
pub open spec fn sum_where<T>(s: Seq<T>, pick: spec_fn(T) -> bool, worth: spec_fn(T) -> int) -> int
    decreases s.len(),
{
    if s.len() == 0 {
        0
    } else {
        sum_where(s.drop_last(), pick, worth) + if pick(s.last()) {
            worth(s.last())
        } else {
            0
        }
    }
}

/// The worth that counts every record as one.
pub open spec fn unit<T>() -> spec_fn(T) -> int {
    |x: T| 1
}

/// The number of records of `s` that pass `pick`.
pub open spec fn count_where<T>(s: Seq<T>, pick: spec_fn(T) -> bool) -> int {
    sum_where(s, pick, unit())
}

/// Taking one record more into the sum adds its worth if it passes.
pub proof fn lemma_sum_step<T>(s: Seq<T>, i: int, pick: spec_fn(T) -> bool, worth: spec_fn(T) -> int)
    requires
        0 <= i < s.len(),
    ensures
        sum_where(s.take(i + 1), pick, worth) == sum_where(s.take(i), pick, worth) + (if pick(s[i]) {
            worth(s[i])
        } else {
            0
        }),
{
    assert(s.take(i + 1).drop_last() =~= s.take(i));
}

/// A count lies between nothing and the number of records.
pub proof fn lemma_count_bounds<T>(s: Seq<T>, pick: spec_fn(T) -> bool)
    ensures
        0 <= count_where(s, pick) <= s.len(),
    decreases s.len(),
{
    if s.len() > 0 {
        lemma_count_bounds(s.drop_last(), pick);
    }
}

/// Where some record passes, the count is more than nothing.
pub proof fn lemma_count_positive<T>(s: Seq<T>, pick: spec_fn(T) -> bool, i: int)
    requires
        0 <= i < s.len(),
        pick(s[i]),
    ensures
        count_where(s, pick) > 0,
    decreases s.len(),
{
    lemma_count_bounds(s.drop_last(), pick);
    if i < s.len() - 1 {
        assert(s.drop_last()[i] == s[i]);
        lemma_count_positive(s.drop_last(), pick, i);
    }
}

} // verus!
