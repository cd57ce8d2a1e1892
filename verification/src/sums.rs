//! Sums of non-negative quantities, and sums of such quantities picked out
//! by a sequence of distinct indices.
//!
//! The evaluator's clock bound charges every worked or traveled second
//! against the input's total duration budget.  A route visits each location
//! once, so the seconds it draws from a per-location table never exceed the
//! table's total; the lemmas here state that.

use vstd::prelude::*;

verus! {

/// A sequence of `u64` values as mathematical integers.
pub open spec fn to_ints(s: Seq<u64>) -> Seq<int> {
    s.map_values(|x: u64| x as int)
}

/// Sum of a sequence of integers.
pub open spec fn sum_ints(s: Seq<int>) -> int
    decreases s.len(),
{
    if s.len() == 0 {
        0
    } else {
        sum_ints(s.drop_last()) + s.last()
    }
}

pub open spec fn all_nonneg(s: Seq<int>) -> bool {
    forall|i: int| 0 <= i < s.len() ==> #[trigger] s[i] >= 0
}

/// Extending a prefix by one element adds that element to its sum.
pub proof fn lemma_sum_take_step(s: Seq<int>, k: int)
    requires
        0 <= k < s.len(),
    ensures
        sum_ints(s.take(k + 1)) == sum_ints(s.take(k)) + s[k],
{
    assert(s.take(k + 1).drop_last() == s.take(k));
    assert(s.take(k + 1).last() == s[k]);
}

/// A sum of non-negative values is non-negative.
pub proof fn lemma_sum_nonneg(s: Seq<int>)
    requires
        all_nonneg(s),
    ensures
        sum_ints(s) >= 0,
    decreases s.len(),
{
    if s.len() > 0 {
        assert(all_nonneg(s.drop_last()));
        lemma_sum_nonneg(s.drop_last());
    }
}

/// Prefix sums of non-negative values grow with the prefix.
pub proof fn lemma_sum_take_le(s: Seq<int>, k: int)
    requires
        all_nonneg(s),
        0 <= k <= s.len(),
    ensures
        sum_ints(s.take(k)) <= sum_ints(s),
    decreases s.len() - k,
{
    if k == s.len() {
        assert(s.take(k) == s);
    } else {
        lemma_sum_take_step(s, k);
        lemma_sum_take_le(s, k + 1);
    }
}

/// An element of a non-negative sequence is at most the sequence's sum.
pub proof fn lemma_sum_entry(s: Seq<int>, i: int)
    requires
        all_nonneg(s),
        0 <= i < s.len(),
    ensures
        s[i] <= sum_ints(s),
        sum_ints(s) >= 0,
{
    lemma_sum_take_step(s, i);
    assert(sum_ints(s.take(i)) >= 0) by {
        assert(all_nonneg(s.take(i)));
        lemma_sum_nonneg(s.take(i));
    }
    lemma_sum_take_le(s, i + 1);
    lemma_sum_nonneg(s);
}

/// Replacing one element changes the sum by the difference.
pub proof fn lemma_sum_update(s: Seq<int>, i: int, v: int)
    requires
        0 <= i < s.len(),
    ensures
        sum_ints(s.update(i, v)) == sum_ints(s) - s[i] + v,
    decreases s.len(),
{
    let s2 = s.update(i, v);
    if i == s.len() - 1 {
        assert(s2.drop_last() == s.drop_last());
        assert(s2.last() == v);
    } else {
        assert(s2.drop_last() == s.drop_last().update(i, v));
        assert(s2.last() == s.last());
        lemma_sum_update(s.drop_last(), i, v);
    }
}

/// Sum of the values at the first `k` indices of `route`.
pub open spec fn picked_sum(vals: Seq<int>, route: Seq<usize>, k: int) -> int
    decreases k,
{
    if k <= 0 {
        0
    } else {
        picked_sum(vals, route, k - 1) + vals[route[k - 1] as int]
    }
}

/// The first `k` indices of the route are pairwise distinct and in range.
pub open spec fn indices_distinct(route: Seq<usize>, k: int, n: int) -> bool {
    &&& forall|p: int| 0 <= p < k ==> (#[trigger] route[p]) < n
    &&& forall|p: int, q: int| 0 <= p < q < k ==> route[p] != route[q]
}

/// Replacing a value at an index the route does not pick leaves the picked
/// sum unchanged.
proof fn lemma_picked_sum_update(vals: Seq<int>, route: Seq<usize>, k: int, i: int, v: int)
    requires
        0 <= k <= route.len(),
        0 <= i < vals.len(),
        forall|p: int| 0 <= p < k ==> (#[trigger] route[p]) < vals.len(),
        forall|p: int| 0 <= p < k ==> (#[trigger] route[p]) != i,
    ensures
        picked_sum(vals.update(i, v), route, k) == picked_sum(vals, route, k),
    decreases k,
{
    if k > 0 {
        lemma_picked_sum_update(vals, route, k - 1, i, v);
        assert(vals.update(i, v)[route[k - 1] as int] == vals[route[k - 1] as int]);
    }
}

/// Distinct indices draw from a non-negative table at most its total.
pub proof fn lemma_picked_sum_le_total(vals: Seq<int>, route: Seq<usize>, k: int)
    requires
        all_nonneg(vals),
        0 <= k <= route.len(),
        indices_distinct(route, k, vals.len() as int),
    ensures
        picked_sum(vals, route, k) <= sum_ints(vals),
        picked_sum(vals, route, k) >= 0,
    decreases k,
{
    if k == 0 {
        lemma_sum_nonneg(vals);
    } else {
        let x = route[k - 1] as int;
        let zeroed = vals.update(x, 0);
        assert(all_nonneg(zeroed)) by {
            assert forall|i: int| 0 <= i < zeroed.len() implies #[trigger] zeroed[i] >= 0 by {
                if i != x {
                    assert(zeroed[i] == vals[i]);
                }
            }
        }
        lemma_picked_sum_le_total(zeroed, route, k - 1);
        lemma_picked_sum_update(vals, route, k - 1, x, 0);
        lemma_sum_update(vals, x, 0);
        assert(picked_sum(vals, route, k - 1) <= sum_ints(vals) - vals[x]);
        if k >= 1 {
            assert(vals[x] >= 0);
        }
    }
}

} // verus!
