//! Sums over the threads of a workload, and what replacing one thread's
//! contribution does to them.

use vstd::prelude::*;

verus! {

/// The sum of the numbers.
pub open spec fn sum(xs: Seq<int>) -> int
    decreases xs.len(),
{
    if xs.len() == 0 {
        0
    } else {
        sum(xs.drop_last()) + xs.last()
    }
}

/// Replacing one number changes the sum by the difference of the two.
pub proof fn lemma_sum_update(xs: Seq<int>, i: int, x: int)
    requires
        0 <= i < xs.len(),
    ensures
        sum(xs.update(i, x)) == sum(xs) - xs[i] + x,
    decreases xs.len(),
{
    let after = xs.update(i, x);
    if i == xs.len() - 1 {
        assert(after.drop_last() =~= xs.drop_last());
    } else {
        assert(after.drop_last() =~= xs.drop_last().update(i, x));
        lemma_sum_update(xs.drop_last(), i, x);
    }
}

/// A sum lies between the lowest and the highest number, taken once for
/// each place.
pub proof fn lemma_sum_bounds(xs: Seq<int>, low: int, high: int)
    requires
        forall|i: int| 0 <= i < xs.len() ==> low <= #[trigger] xs[i] <= high,
    ensures
        xs.len() * low <= sum(xs) <= xs.len() * high,
    decreases xs.len(),
{
    if xs.len() > 0 {
        let rest = xs.drop_last();
        assert forall|i: int| 0 <= i < rest.len() implies low <= #[trigger] rest[i] <= high by {
            assert(rest[i] == xs[i]);
        }
        lemma_sum_bounds(rest, low, high);
        assert(xs.len() * low == rest.len() * low + low) by (nonlinear_arith)
            requires
                rest.len() == xs.len() - 1,
        ;
        assert(xs.len() * high == rest.len() * high + high) by (nonlinear_arith)
            requires
                rest.len() == xs.len() - 1,
        ;
    }
}

/// Where no number is negative, the sum is not negative.
pub proof fn lemma_sum_nonnegative(xs: Seq<int>)
    requires
        forall|k: int| 0 <= k < xs.len() ==> 0 <= #[trigger] xs[k],
    ensures
        0 <= sum(xs),
    decreases xs.len(),
{
    if xs.len() > 0 {
        let rest = xs.drop_last();
        assert forall|k: int| 0 <= k < rest.len() implies 0 <= #[trigger] rest[k] by {
            assert(rest[k] == xs[k]);
        }
        lemma_sum_nonnegative(rest);
    }
}

/// Where no number is negative, each of them is at most the sum.
pub proof fn lemma_sum_covers_one(xs: Seq<int>, i: int)
    requires
        0 <= i < xs.len(),
        forall|k: int| 0 <= k < xs.len() ==> 0 <= #[trigger] xs[k],
    ensures
        0 <= xs[i] <= sum(xs),
    decreases xs.len(),
{
    let rest = xs.drop_last();
    assert forall|k: int| 0 <= k < rest.len() implies 0 <= #[trigger] rest[k] by {
        assert(rest[k] == xs[k]);
    }
    if i < xs.len() - 1 {
        lemma_sum_covers_one(rest, i);
    } else {
        lemma_sum_nonnegative(rest);
    }
}

/// Where no number is negative, any two of them sum to at most the sum.
pub proof fn lemma_sum_covers_two(xs: Seq<int>, i: int, j: int)
    requires
        0 <= i < j < xs.len(),
        forall|k: int| 0 <= k < xs.len() ==> 0 <= #[trigger] xs[k],
    ensures
        xs[i] + xs[j] <= sum(xs),
    decreases xs.len(),
{
    let rest = xs.drop_last();
    assert forall|k: int| 0 <= k < rest.len() implies 0 <= #[trigger] rest[k] by {
        assert(rest[k] == xs[k]);
    }
    if j == xs.len() - 1 {
        lemma_sum_covers_one(rest, i);
    } else {
        lemma_sum_covers_two(rest, i, j);
    }
}

/// Where each number is at most the number in the same place of another
/// sequence, the sum is at most the other sum.
pub proof fn lemma_sum_dominates(xs: Seq<int>, ys: Seq<int>)
    requires
        xs.len() == ys.len(),
        forall|k: int| 0 <= k < xs.len() ==> #[trigger] xs[k] <= ys[k],
    ensures
        sum(xs) <= sum(ys),
    decreases xs.len(),
{
    if xs.len() > 0 {
        let a = xs.drop_last();
        let b = ys.drop_last();
        assert forall|k: int| 0 <= k < a.len() implies #[trigger] a[k] <= b[k] by {
            assert(a[k] == xs[k]);
            assert(b[k] == ys[k]);
        }
        lemma_sum_dominates(a, b);
        assert(xs.last() == xs[xs.len() - 1]);
    }
}

/// Where the sum is positive, one of the numbers is.
pub proof fn lemma_sum_has_positive(xs: Seq<int>) -> (at: int)
    requires
        sum(xs) > 0,
    ensures
        0 <= at < xs.len(),
        xs[at] > 0,
    decreases xs.len(),
{
    if xs.last() > 0 {
        xs.len() - 1
    } else {
        let at = lemma_sum_has_positive(xs.drop_last());
        assert(xs.drop_last()[at] == xs[at]);
        at
    }
}

} // verus!
