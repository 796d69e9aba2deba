//! Sorting by a total preorder.

use vstd::prelude::*;

verus! {

/// Values that can be put in order. Different values may rank equal.
pub trait Ranked: Sized {
    /// Whether a value may stand before another.
    spec fn may_precede(self, other: Self) -> bool;

    /// Of two values one may stand before the other.
    proof fn lemma_total(a: Self, b: Self)
        ensures
            a.may_precede(b) || b.may_precede(a),
    ;

    /// The order is transitive.
    proof fn lemma_transitive(a: Self, b: Self, c: Self)
        requires
            a.may_precede(b),
            b.may_precede(c),
        ensures
            a.may_precede(c),
    ;

    /// Whether a value may stand before another.
    fn precedes(&self, other: &Self) -> (res: bool)
        ensures
            res == self.may_precede(*other),
    ;
}

impl Ranked for u64 {
    open spec fn may_precede(self, other: u64) -> bool {
        self <= other
    }

    proof fn lemma_total(a: u64, b: u64) {
    }

    proof fn lemma_transitive(a: u64, b: u64, c: u64) {
    }

    fn precedes(&self, other: &u64) -> (res: bool) {
        *self <= *other
    }
}

/// Whether a list is in order.
pub open spec fn in_order<T: Ranked>(list: Seq<T>) -> bool {
    forall|i: int, j: int|
        0 <= i < j < list.len() ==> (#[trigger] list[i]).may_precede(#[trigger] list[j])
}

/// One more element in the multiset of a sequence.
proof fn lemma_insert_multiset<T>(s: Seq<T>, i: int, x: T)
    requires
        0 <= i <= s.len(),
    ensures
        s.insert(i, x).to_multiset() == s.to_multiset().insert(x),
{
    broadcast use vstd::multiset::group_multiset_axioms;

    let t = s.insert(i, x);
    t.to_multiset_ensures();
    assert(t.remove(i) == s);
    assert(t[i] == x);
    assert(t.contains(x));
    assert(t.to_multiset() =~= s.to_multiset().insert(x));
}

/// Puts one more element into a list that is in order.
fn insert_in_order<T: Ranked>(list: &mut Vec<T>, x: T)
    requires
        in_order(old(list)@),
    ensures
        in_order(final(list)@),
        final(list)@.to_multiset() == old(list)@.to_multiset().insert(x),
{
    let mut at: usize = list.len();
    while at > 0 && !list[at - 1].precedes(&x)
        invariant
            list@ == old(list)@,
            at <= list@.len(),
            in_order(list@),
            forall|i: int| at <= i < list@.len() ==> !(#[trigger] list@[i]).may_precede(x),
        decreases at,
    {
        at = at - 1;
    }
    let ghost before = list@;
    proof {
        lemma_insert_multiset(before, at as int, x);
        let after = before.insert(at as int, x);
        assert forall|i: int, j: int| 0 <= i < j < after.len() implies (
        #[trigger] after[i]).may_precede(#[trigger] after[j]) by {
            if j < at {
                assert(after[i] == before[i] && after[j] == before[j]);
            } else if j == at {
                assert(after[i] == before[i]);
                if i < at - 1 {
                    T::lemma_transitive(before[i], before[at - 1], x);
                }
            } else if i < at {
                assert(after[i] == before[i] && after[j] == before[j - 1]);
            } else if i == at {
                assert(after[j] == before[j - 1]);
                T::lemma_total(x, before[j - 1]);
            } else {
                assert(after[i] == before[i - 1] && after[j] == before[j - 1]);
            }
        }
    }
    list.insert(at, x);
}

/// Sorts a list.
pub fn sort<T: Ranked>(list: Vec<T>) -> (res: Vec<T>)
    ensures
        in_order(res@),
        res@.to_multiset() == list@.to_multiset(),
        res@.len() == list@.len(),
{
    broadcast use vstd::multiset::group_multiset_axioms;

    let ghost all = list@;
    let mut out: Vec<T> = Vec::new();
    proof {
        all.take(0).to_multiset_ensures();
        assert(all.take(0) == Seq::<T>::empty());
        assert(out@ == Seq::<T>::empty());
    }
    for x in it: list.into_iter()
        invariant
            it.seq() == all,
            in_order(out@),
            out@.to_multiset() == all.take(it.index()).to_multiset(),
    {
        let ghost i = it.index();
        proof {
            all.take(i).to_multiset_ensures();
            assert(all.take(i + 1) == all.take(i).push(x));
        }
        insert_in_order(&mut out, x);
    }
    proof {
        assert(all.take(all.len() as int) == all);
        out@.to_multiset_ensures();
        all.to_multiset_ensures();
    }
    out
}

/// The numbers in ascending order.
pub open spec fn ascending(values: Seq<u64>) -> Seq<u64> {
    values.sort_by(|a: u64, b: u64| a <= b)
}

/// A list that is in order has only one arrangement of its numbers.
pub proof fn lemma_ascending(values: Seq<u64>, sorted: Seq<u64>)
    requires
        in_order(sorted),
        sorted.to_multiset() == values.to_multiset(),
    ensures
        sorted == ascending(values),
{
    let le = |a: u64, b: u64| a <= b;
    values.lemma_sort_by_ensures(le);
    assert forall|i: int, j: int| 0 <= i < j < sorted.len() implies #[trigger] le(
        sorted[i],
        sorted[j],
    ) by {
        assert(sorted[i].may_precede(sorted[j]));
    }
    vstd::seq_lib::lemma_sorted_unique(sorted, values.sort_by(le), le);
}

} // verus!
