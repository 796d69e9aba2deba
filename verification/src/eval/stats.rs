//! Counts and percentiles.

use crate::sorting;
use vstd::prelude::*;

verus! {

/// How many elements of a list have a property.
pub open spec fn count_if<T>(list: Seq<T>, p: spec_fn(T) -> bool) -> nat
    decreases list.len(),
{
    if list.len() == 0 {
        0
    } else {
        count_if(list.drop_last(), p) + if p(list.last()) {
            1nat
        } else {
            0nat
        }
    }
}

/// A property holds of at most all the elements.
pub proof fn lemma_count_bound<T>(list: Seq<T>, p: spec_fn(T) -> bool)
    ensures
        count_if(list, p) <= list.len(),
    decreases list.len(),
{
    if list.len() > 0 {
        lemma_count_bound(list.drop_last(), p);
    }
}

/// If one property implies another, the other holds at least as often.
pub proof fn lemma_count_monotone<T>(list: Seq<T>, p: spec_fn(T) -> bool, q: spec_fn(T) -> bool)
    requires
        forall|i: int| 0 <= i < list.len() && p(#[trigger] list[i]) ==> q(list[i]),
    ensures
        count_if(list, p) <= count_if(list, q),
    decreases list.len(),
{
    if list.len() > 0 {
        let before = list.drop_last();
        assert forall|i: int| 0 <= i < before.len() && p(#[trigger] before[i]) implies q(
            before[i],
        ) by {
            assert(before[i] == list[i]);
        }
        lemma_count_monotone(before, p, q);
        assert(list.last() == list[list.len() - 1]);
    }
}

/// The number at position `k` in ascending order; zero if there is none.
pub open spec fn ranked(values: Seq<u64>, k: int) -> u64 {
    if 0 <= k < values.len() {
        sorting::ascending(values)[k]
    } else {
        0
    }
}

/// The median: the upper one of the two in the middle.
pub open spec fn p50(values: Seq<u64>) -> u64 {
    ranked(values, values.len() as int / 2)
}

/// The 95th percentile: the number nineteen twentieths of the way up.
pub open spec fn p95(values: Seq<u64>) -> u64 {
    ranked(values, values.len() as int * 19 / 20)
}

/// The median and the 95th percentile; zeros for an empty list.
pub fn percentiles(values: Vec<u64>) -> (res: (u64, u64))
    ensures
        res.0 == p50(values@),
        res.1 == p95(values@),
        values@.len() > 0 ==> values@.contains(res.0) && values@.contains(res.1),
{
    let ghost all = values@;
    let n: usize = values.len();
    if n == 0 {
        return (0, 0);
    }
    let sorted = sorting::sort(values);
    let tail: usize = n / 20 + if n % 20 == 0 {
        0
    } else {
        1
    };
    proof {
        sorting::lemma_ascending(all, sorted@);
        assert(n - tail == n * 19 / 20);
        sorted@.to_multiset_ensures();
        all.to_multiset_ensures();
        assert(sorted@.contains(sorted@[n as int / 2]));
        assert(sorted@.contains(sorted@[n - tail]));
        assert(sorted@.to_multiset().count(sorted@[n as int / 2]) > 0);
        assert(sorted@.to_multiset().count(sorted@[n - tail]) > 0);
    }
    (sorted[n / 2], sorted[n - tail])
}

/// The median never passes the 95th percentile.
pub proof fn law_percentiles_in_order(values: Seq<u64>)
    ensures
        p50(values) <= p95(values),
{
    let le = |a: u64, b: u64| a <= b;
    values.lemma_sort_by_ensures(le);
    let sorted = sorting::ascending(values);
    values.to_multiset_ensures();
    sorted.to_multiset_ensures();
    let n = values.len() as int;
    if n > 0 {
        let i = n / 2;
        let j = n * 19 / 20;
        assert(0 <= i <= j < n);
        if i < j {
            assert(le(sorted[i], sorted[j]));
        }
    }
}

} // verus!
