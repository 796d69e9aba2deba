//! What holds of every fusion.

use crate::model::{ChunkView, RetrievalResult, RetrievalResultView};
use crate::retrieve;
use crate::retrieve::{Entry, FusedView};
use crate::sorting::Ranked;
use vstd::prelude::*;

verus! {

/// The ranks of the entries with an id.
pub open spec fn ranks_of(entries: Seq<Entry>, id: Seq<char>) -> Seq<int>
    decreases entries.len(),
{
    if entries.len() == 0 {
        seq![]
    } else {
        let before = ranks_of(entries.drop_last(), id);
        if entries.last().chunk.id == id {
            before.push(entries.last().rank)
        } else {
            before
        }
    }
}

/// The chunk of the first entry with an id.
pub open spec fn first_chunk(entries: Seq<Entry>, id: Seq<char>) -> Option<ChunkView>
    decreases entries.len(),
{
    if entries.len() == 0 {
        None
    } else {
        match first_chunk(entries.drop_last(), id) {
            Some(c) => Some(c),
            None => if entries.last().chunk.id == id {
                Some(entries.last().chunk)
            } else {
                None
            },
        }
    }
}

/// Whether a list holds an id.
pub open spec fn has_id(list: Seq<FusedView>, id: Seq<char>) -> bool {
    exists|i: int| 0 <= i < list.len() && (#[trigger] list[i]).chunk.id == id
}

/// Whether no id comes twice.
pub open spec fn ids_unique(list: Seq<FusedView>) -> bool {
    forall|i: int, j: int|
        0 <= i < j < list.len() ==> (#[trigger] list[i]).chunk.id != (#[trigger] list[j]).chunk.id
}

proof fn lemma_position(acc: Seq<FusedView>, id: Seq<char>, from: int)
    requires
        0 <= from,
    ensures
        match retrieve::position_of(acc, id, from) {
            Some(i) => from <= i < acc.len() && acc[i].chunk.id == id,
            None => forall|i: int| from <= i < acc.len() ==> (#[trigger] acc[i]).chunk.id != id,
        },
    decreases acc.len() - from,
{
    if from < acc.len() && acc[from].chunk.id != id {
        lemma_position(acc, id, from + 1);
    }
}

proof fn lemma_no_ranks(entries: Seq<Entry>, id: Seq<char>)
    requires
        forall|k: int| 0 <= k < entries.len() ==> (#[trigger] entries[k]).chunk.id != id,
    ensures
        ranks_of(entries, id).len() == 0,
        first_chunk(entries, id) is None,
    decreases entries.len(),
{
    if entries.len() > 0 {
        let before = entries.drop_last();
        assert forall|k: int| 0 <= k < before.len() implies (#[trigger] before[k]).chunk.id != id by {
            assert(before[k] == entries[k]);
        }
        lemma_no_ranks(before, id);
        assert(entries.last() == entries[entries.len() - 1]);
    }
}

/// Every chunk of the lists is in the fusion exactly once. It is the chunk as it first came, with all
/// the ranks it has in the lists.
pub proof fn law_fusion(entries: Seq<Entry>)
    ensures
        ids_unique(retrieve::grouped(entries)),
        forall|k: int|
            0 <= k < entries.len() ==> has_id(
                retrieve::grouped(entries),
                (#[trigger] entries[k]).chunk.id,
            ),
        forall|i: int|
            0 <= i < retrieve::grouped(entries).len() ==> {
                let f = #[trigger] retrieve::grouped(entries)[i];
                &&& f.ranks == ranks_of(entries, f.chunk.id)
                &&& f.ranks.len() > 0
                &&& first_chunk(entries, f.chunk.id) == Some(f.chunk)
            },
    decreases entries.len(),
{
    if entries.len() > 0 {
        let before = entries.drop_last();
        let e = entries.last();
        let acc = retrieve::grouped(before);
        let all = retrieve::grouped(entries);
        law_fusion(before);
        lemma_position(acc, e.chunk.id, 0);
        let at = retrieve::position_of(acc, e.chunk.id, 0);
        if at is None {
            assert forall|k: int| 0 <= k < before.len() implies (#[trigger] before[k]).chunk.id
                != e.chunk.id by {
                if before[k].chunk.id == e.chunk.id {
                    assert(has_id(acc, before[k].chunk.id));
                }
            }
            lemma_no_ranks(before, e.chunk.id);
            assert(ranks_of(entries, e.chunk.id) == seq![e.rank]);
        }
        assert forall|i: int| 0 <= i < all.len() implies {
            let f = #[trigger] all[i];
            &&& f.ranks == ranks_of(entries, f.chunk.id)
            &&& f.ranks.len() > 0
            &&& first_chunk(entries, f.chunk.id) == Some(f.chunk)
        } by {
            if i < acc.len() {
                let g = acc[i];
                assert(g.ranks == ranks_of(before, g.chunk.id));
                if at is Some && i != at.unwrap() {
                    assert(acc[i].chunk.id != acc[at.unwrap()].chunk.id);
                }
            }
        }
        assert forall|k: int| 0 <= k < entries.len() implies has_id(
            all,
            (#[trigger] entries[k]).chunk.id,
        ) by {
            if k < before.len() {
                assert(before[k] == entries[k]);
                assert(has_id(acc, before[k].chunk.id));
                let i = choose|i: int|
                    0 <= i < acc.len() && (#[trigger] acc[i]).chunk.id == before[k].chunk.id;
                assert(all[i].chunk.id == acc[i].chunk.id);
            } else {
                match at {
                    Some(i) => {
                        assert(all[i].chunk.id == e.chunk.id);
                    },
                    None => {
                        assert(all[acc.len() as int].chunk.id == e.chunk.id);
                    },
                }
            }
        }
        assert forall|i: int, j: int| 0 <= i < j < all.len() implies (#[trigger] all[i]).chunk.id
            != (#[trigger] all[j]).chunk.id by {
            if j < acc.len() {
                assert(acc[i].chunk.id != acc[j].chunk.id);
            } else {
                assert(acc[i].chunk.id != e.chunk.id);
            }
        }
    }
}

/// Whether place `i` of list `l` holds a chunk with an id.
pub open spec fn holds_at(
    lists: Seq<Seq<RetrievalResultView>>,
    id: Seq<char>,
    l: int,
    i: int,
) -> bool {
    &&& 0 <= l < lists.len()
    &&& 0 <= i < lists[l].len()
    &&& lists[l][i].chunk.id == id
}

/// The lists that hold a chunk with an id at place `i`.
pub open spec fn lists_with(lists: Seq<Seq<RetrievalResultView>>, id: Seq<char>, i: int) -> Set<int> {
    Set::new(|l: int| holds_at(lists, id, l, i))
}

/// Whether place `i` of list `l` is the first that holds a chunk with an id, list by list.
pub open spec fn first_at(
    lists: Seq<Seq<RetrievalResultView>>,
    id: Seq<char>,
    l: int,
    i: int,
) -> bool {
    &&& holds_at(lists, id, l, i)
    &&& forall|m: int, j: int| #[trigger]
        holds_at(lists, id, m, j) ==> l < m || (l == m && i <= j)
}

/// Whether an element has the id of place `i` of list `l`, and that place among its ranks.
pub open spec fn ranked_at(
    f: FusedView,
    lists: Seq<Seq<RetrievalResultView>>,
    l: int,
    i: int,
) -> bool {
    &&& f.chunk.id == lists[l][i].chunk.id
    &&& f.ranks.contains(i)
}

proof fn lemma_ranks_concat(a: Seq<Entry>, b: Seq<Entry>, id: Seq<char>)
    ensures
        ranks_of(a + b, id) == ranks_of(a, id) + ranks_of(b, id),
        first_chunk(a + b, id) == (if first_chunk(a, id) is Some {
            first_chunk(a, id)
        } else {
            first_chunk(b, id)
        }),
    decreases b.len(),
{
    if b.len() == 0 {
        assert(a + b == a);
    } else {
        assert((a + b).drop_last() == a + b.drop_last());
        lemma_ranks_concat(a, b.drop_last(), id);
    }
}

/// The ranks of an id in the first `n` places of a list.
proof fn lemma_ranks_in_list(list: Seq<RetrievalResultView>, id: Seq<char>, n: int, r: int)
    requires
        0 <= n <= list.len(),
    ensures
        retrieve::entries_of(list).len() == list.len(),
        ranks_of(retrieve::entries_of(list).take(n), id).to_multiset().count(r) == if 0 <= r < n
            && list[r].chunk.id == id {
            1nat
        } else {
            0nat
        },
        match first_chunk(retrieve::entries_of(list).take(n), id) {
            Some(c) => exists|i: int|
                0 <= i < n && (#[trigger] list[i]).chunk.id == id && list[i].chunk == c && forall|
                    j: int,
                |
                    0 <= j < i ==> (#[trigger] list[j]).chunk.id != id,
            None => forall|i: int| 0 <= i < n ==> (#[trigger] list[i]).chunk.id != id,
        },
    decreases n,
{
    let all = retrieve::entries_of(list);
    if n == 0 {
        assert(all.take(0).len() == 0);
        ranks_of(all.take(0), id).to_multiset_ensures();
    } else {
        assert(all.take(n).drop_last() == all.take(n - 1));
        assert(all.take(n).last() == all[n - 1]);
        lemma_ranks_in_list(list, id, n - 1, r);
        ranks_of(all.take(n - 1), id).to_multiset_ensures();
        ranks_of(all.take(n), id).to_multiset_ensures();
        match first_chunk(all.take(n - 1), id) {
            Some(c) => {},
            None => {
                if list[n - 1].chunk.id == id {
                    assert(list[n - 1].chunk == all[n - 1].chunk);
                }
            },
        }
    }
}

/// What the entries of all lists hold of an id.
proof fn lemma_entries_of_lists(lists: Seq<Seq<RetrievalResultView>>, id: Seq<char>, r: int)
    ensures
        lists_with(lists, id, r).finite(),
        ranks_of(retrieve::all_entries(lists), id).to_multiset().count(r) == lists_with(
            lists,
            id,
            r,
        ).len(),
        match first_chunk(retrieve::all_entries(lists), id) {
            Some(c) => exists|l: int, i: int| #[trigger]
                first_at(lists, id, l, i) && lists[l][i].chunk == c,
            None => forall|l: int, i: int| !#[trigger] holds_at(lists, id, l, i),
        },
    decreases lists.len(),
{
    if lists.len() == 0 {
        assert(lists_with(lists, id, r) =~= Set::<int>::empty());
        ranks_of(retrieve::all_entries(lists), id).to_multiset_ensures();
    } else {
        let before = lists.drop_last();
        let n = lists.len() - 1;
        let list = lists[n];
        let a = retrieve::all_entries(before);
        let b = retrieve::entries_of(list);
        lemma_entries_of_lists(before, id, r);
        lemma_ranks_in_list(list, id, list.len() as int, r);
        assert(b.take(list.len() as int) == b);
        lemma_ranks_concat(a, b, id);
        vstd::seq_lib::lemma_multiset_commutative(ranks_of(a, id), ranks_of(b, id));
        assert forall|l: int, i: int| l < n implies holds_at(before, id, l, i) == #[trigger] holds_at(
            lists,
            id,
            l,
            i,
        ) by {
            if 0 <= l {
                assert(before[l] == lists[l]);
            }
        }
        if holds_at(lists, id, n, r) {
            assert(lists_with(lists, id, r) =~= lists_with(before, id, r).insert(n));
        } else {
            assert(lists_with(lists, id, r) =~= lists_with(before, id, r));
        }
        match first_chunk(a, id) {
            Some(c) => {
                let (l, i) = choose|l: int, i: int| #[trigger]
                    first_at(before, id, l, i) && before[l][i].chunk == c;
                assert(holds_at(before, id, l, i));
                assert(holds_at(lists, id, l, i));
                assert forall|m: int, j: int| #[trigger] holds_at(lists, id, m, j) implies l < m || (l
                    == m && i <= j) by {
                    if m < n {
                        assert(holds_at(before, id, m, j));
                    }
                }
                assert(first_at(lists, id, l, i));
                assert(lists[l][i].chunk == c);
            },
            None => {
                match first_chunk(b, id) {
                    Some(c) => {
                        let i = choose|i: int|
                            0 <= i < list.len() && (#[trigger] list[i]).chunk.id == id
                                && list[i].chunk == c && forall|j: int|
                                0 <= j < i ==> (#[trigger] list[j]).chunk.id != id;
                        assert forall|m: int, j: int| #[trigger]
                            holds_at(lists, id, m, j) implies n < m || (n == m && i <= j) by {
                            if m < n {
                                assert(holds_at(before, id, m, j));
                            } else {
                                assert(list[j].chunk.id == id);
                            }
                        }
                        assert(first_at(lists, id, n, i));
                    },
                    None => {
                        assert forall|l: int, i: int| !#[trigger] holds_at(lists, id, l, i) by {
                            if l < n {
                                assert(!holds_at(before, id, l, i));
                            } else if holds_at(lists, id, l, i) {
                                assert(list[i].chunk.id == id);
                            }
                        }
                    },
                }
            },
        }
    }
}

/// Fusing loses no result and adds none. Whatever stands at some place of some list is in the fusion,
/// once, with that place among its ranks. Each chunk is the first with its id, and it has a place as
/// its rank as often as there are lists that hold its id there.
pub proof fn law_fusion_of_lists(lists: Seq<Seq<RetrievalResultView>>)
    ensures
        ({
            let fused = retrieve::grouped(retrieve::all_entries(lists));
            &&& ids_unique(fused)
            &&& forall|l: int, i: int|
                0 <= l < lists.len() && 0 <= i < lists[l].len() ==> exists|k: int|
                    0 <= k < fused.len() && ranked_at(
                        #[trigger] fused[k],
                        lists,
                        l,
                        i,
                    ) && #[trigger] lists[l][i].chunk.id == fused[k].chunk.id
            &&& forall|k: int|
                0 <= k < fused.len() ==> exists|l: int, i: int| #[trigger]
                    first_at(lists, fused[k].chunk.id, l, i) && lists[l][i].chunk == (
                    #[trigger] fused[k]).chunk
            &&& forall|k: int, r: int|
                0 <= k < fused.len() ==> (#[trigger] lists_with(
                    lists,
                    fused[k].chunk.id,
                    r,
                )).finite() && fused[k].ranks.to_multiset().count(r) == lists_with(
                    lists,
                    fused[k].chunk.id,
                    r,
                ).len()
        }),
{
    let entries = retrieve::all_entries(lists);
    let fused = retrieve::grouped(entries);
    law_fusion(entries);
    assert forall|k: int, r: int| 0 <= k < fused.len() implies (#[trigger] lists_with(
        lists,
        fused[k].chunk.id,
        r,
    )).finite() && fused[k].ranks.to_multiset().count(r) == lists_with(
        lists,
        fused[k].chunk.id,
        r,
    ).len() by {
        lemma_entries_of_lists(lists, fused[k].chunk.id, r);
    }
    assert forall|k: int| 0 <= k < fused.len() implies exists|l: int, i: int| #[trigger]
        first_at(lists, fused[k].chunk.id, l, i) && lists[l][i].chunk == (
        #[trigger] fused[k]).chunk by {
        lemma_entries_of_lists(lists, fused[k].chunk.id, 0);
    }
    assert forall|l: int, i: int|
        0 <= l < lists.len() && 0 <= i < lists[l].len() implies exists|k: int|
        0 <= k < fused.len() && ranked_at(#[trigger] fused[k], lists, l, i)
            && #[trigger] lists[l][i].chunk.id == fused[k].chunk.id by {
        let id = lists[l][i].chunk.id;
        assert(holds_at(lists, id, l, i));
        lemma_entries_of_lists(lists, id, i);
        assert(lists_with(lists, id, i).contains(l));
        if lists_with(lists, id, i).len() == 0 {
            assert(lists_with(lists, id, i) =~= Set::<int>::empty());
        }
        let ranks = ranks_of(entries, id);
        ranks.to_multiset_ensures();
        assert(ranks.contains(i));
        if forall|k: int| 0 <= k < entries.len() ==> (#[trigger] entries[k]).chunk.id != id {
            lemma_no_ranks(entries, id);
        }
        let m = choose|m: int| 0 <= m < entries.len() && (#[trigger] entries[m]).chunk.id == id;
        assert(has_id(fused, entries[m].chunk.id));
        let k = choose|k: int| 0 <= k < fused.len() && (#[trigger] fused[k]).chunk.id == id;
        assert(ranked_at(fused[k], lists, l, i));
    }
}

/// The ranks of a chunk come list by list: those in earlier lists before those in later ones.
pub proof fn law_ranks_in_list_order(
    a: Seq<Seq<RetrievalResultView>>,
    b: Seq<Seq<RetrievalResultView>>,
    id: Seq<char>,
)
    ensures
        ranks_of(retrieve::all_entries(a + b), id) == ranks_of(retrieve::all_entries(a), id)
            + ranks_of(retrieve::all_entries(b), id),
    decreases b.len(),
{
    let x = retrieve::all_entries(a);
    if b.len() == 0 {
        assert(a + b == a);
        assert(ranks_of(x, id) + Seq::<int>::empty() == ranks_of(x, id));
    } else {
        let before = b.drop_last();
        assert((a + b).drop_last() == a + before);
        law_ranks_in_list_order(a, before, id);
        let y = retrieve::all_entries(before);
        let z = retrieve::entries_of(b.last());
        lemma_ranks_concat(retrieve::all_entries(a + before), z, id);
        lemma_ranks_concat(y, z, id);
        assert(ranks_of(x, id) + ranks_of(y, id) + ranks_of(z, id) == ranks_of(x, id) + (ranks_of(
            y,
            id,
        ) + ranks_of(z, id)));
    }
}

/// A result may stand before another whose score is not greater: one with a score that is not
/// negative before one with a negative score, and of two with the same sign the one that is further
/// up, which for negative scores is the one of smaller magnitude.
pub proof fn law_score_order(a: RetrievalResult, b: RetrievalResult)
    ensures
        a.may_precede(b) <==> {
            let minus: u32 = 0x8000_0000;
            ||| a.score_bits < minus && b.score_bits >= minus
            ||| a.score_bits < minus && b.score_bits < minus && a.score_bits >= b.score_bits
            ||| a.score_bits >= minus && b.score_bits >= minus && a.score_bits <= b.score_bits
        },
{
}

/// A rank counts as the reciprocal of sixty more than it, and a rewritten question retrieves three
/// times as many chunks as are wanted.
pub proof fn law_fusion_constants()
    ensures
        retrieve::RRF_K == 60,
        retrieve::FANOUT == 3,
{
}

} // verus!
