//! What holds of every coverage.

use crate::eval::checks;
use crate::eval::coverage;
use crate::eval::examples;
use crate::eval::examples::EvalExample;
use crate::model::RetrievalResultView;
use vstd::prelude::*;
use vstd::set_lib::*;

verus! {

/// What the search for a passage finds: a text that holds it, and none before it does.
pub proof fn law_first_with(passage: Seq<Seq<char>>, chunks: Seq<Seq<char>>, from: int)
    requires
        0 <= from,
    ensures
        match coverage::first_with(passage, chunks, from) {
            Some(at) => {
                &&& from <= at < chunks.len()
                &&& checks::any_phrase_in(passage, chunks[at])
                &&& forall|i: int|
                    from <= i < at ==> !checks::any_phrase_in(passage, #[trigger] chunks[i])
            },
            None => forall|i: int|
                from <= i < chunks.len() ==> !checks::any_phrase_in(passage, #[trigger] chunks[i]),
        },
    decreases chunks.len() - from,
{
    if from < chunks.len() && !checks::any_phrase_in(passage, chunks[from]) {
        law_first_with(passage, chunks, from + 1);
    }
}

/// Whether a passage is in one of the texts.
pub open spec fn found(passage: Seq<Seq<char>>, chunks: Seq<Seq<char>>) -> bool {
    exists|i: int| 0 <= i < chunks.len() && checks::any_phrase_in(passage, #[trigger] chunks[i])
}

/// The positions are those of the passages, one each.
pub(crate) proof fn lemma_earliest(passages: Seq<Seq<Seq<char>>>, chunks: Seq<Seq<char>>)
    ensures
        match coverage::earliest(passages, chunks) {
            Some(positions) => {
                &&& positions.len() == passages.len()
                &&& forall|k: int|
                    0 <= k < passages.len() ==> coverage::first_with(
                        #[trigger] passages[k],
                        chunks,
                        0,
                    ) == Some(positions[k])
                &&& forall|k: int|
                    0 <= k < positions.len() ==> 0 <= #[trigger] positions[k] < chunks.len()
            },
            None => exists|k: int|
                0 <= k < passages.len() && coverage::first_with(
                    #[trigger] passages[k],
                    chunks,
                    0,
                ) is None,
        },
    decreases passages.len(),
{
    if passages.len() > 0 {
        let before = passages.drop_last();
        lemma_earliest(before, chunks);
        law_first_with(passages.last(), chunks, 0);
        match coverage::earliest(passages, chunks) {
            Some(positions) => {
                assert forall|k: int| 0 <= k < passages.len() implies coverage::first_with(
                    #[trigger] passages[k],
                    chunks,
                    0,
                ) == Some(positions[k]) by {
                    if k < before.len() {
                        assert(before[k] == passages[k]);
                    }
                }
                let earlier = coverage::earliest(before, chunks).unwrap();
                assert forall|k: int| 0 <= k < positions.len() implies 0
                    <= #[trigger] positions[k] < chunks.len() by {
                    if k < before.len() {
                        assert(positions[k] == earlier[k]);
                    }
                }
            },
            None => {
                if coverage::earliest(before, chunks) is None {
                    let k = choose|k: int|
                        0 <= k < before.len() && coverage::first_with(
                            #[trigger] before[k],
                            chunks,
                            0,
                        ) is None;
                    assert(passages[k] == before[k]);
                } else {
                    assert(passages[passages.len() - 1] == passages.last());
                }
            },
        }
    }
}

/// There is a coverage exactly when there are passages and each of them is in some text.
pub proof fn law_coverage_exists(passages: Seq<Seq<Seq<char>>>, chunks: Seq<Seq<char>>)
    ensures
        coverage::coverage_of(passages, chunks) is Some <==> passages.len() > 0 && forall|k: int|
            0 <= k < passages.len() ==> found(#[trigger] passages[k], chunks),
{
    lemma_earliest(passages, chunks);
    match coverage::earliest(passages, chunks) {
        Some(positions) => {
            assert forall|k: int| 0 <= k < passages.len() implies found(
                #[trigger] passages[k],
                chunks,
            ) by {
                law_first_with(passages[k], chunks, 0);
                assert(checks::any_phrase_in(passages[k], chunks[positions[k]]));
            }
        },
        None => {
            let k = choose|k: int|
                0 <= k < passages.len() && coverage::first_with(
                    #[trigger] passages[k],
                    chunks,
                    0,
                ) is None;
            law_first_with(passages[k], chunks, 0);
            assert(!found(passages[k], chunks));
        },
    }
}

/// The floor never passes the rank, and the rank reaches it exactly when every text down to that depth
/// is the first to hold some passage. A single passage has floor zero.
pub proof fn law_floor(passages: Seq<Seq<Seq<char>>>, chunks: Seq<Seq<char>>)
    requires
        coverage::coverage_of(passages, chunks) is Some,
    ensures
        ({
            let (rank, floor) = coverage::coverage_of(passages, chunks).unwrap();
            let positions = coverage::earliest(passages, chunks).unwrap();
            &&& 0 <= floor <= rank < chunks.len()
            &&& floor < passages.len()
            &&& rank == floor <==> forall|i: int|
                0 <= i <= rank ==> #[trigger] positions.contains(i)
            &&& passages.len() == 1 ==> floor == 0
        }),
{
    let (rank, floor) = coverage::coverage_of(passages, chunks).unwrap();
    let positions = coverage::earliest(passages, chunks).unwrap();
    lemma_earliest(passages, chunks);
    coverage::lemma_deepest(positions);
    let k = choose|k: int| 0 <= k < positions.len() && #[trigger] positions[k] == rank;
    assert(0 <= positions[k] < chunks.len());
    let used = positions.to_set();
    let range = set_int_range(0, rank + 1);
    lemma_int_range(0, rank + 1);
    vstd::seq_lib::seq_to_set_is_finite(positions);
    positions.lemma_cardinality_of_set();
    assert(used.subset_of(range)) by {
        assert forall|x: int| used.contains(x) implies range.contains(x) by {
            let i = choose|i: int| 0 <= i < positions.len() && positions[i] == x;
            assert(0 <= positions[i] <= rank);
        }
    }
    lemma_len_subset(used, range);
    assert(used.contains(positions[0]));
    if used.len() == 0 {
        assert(used =~= Set::<int>::empty());
    }
    if rank == floor {
        lemma_subset_equality(used, range);
        assert forall|i: int| 0 <= i <= rank implies #[trigger] positions.contains(i) by {
            assert(range.contains(i));
            assert(used.contains(i));
        }
    }
    if forall|i: int| 0 <= i <= rank ==> #[trigger] positions.contains(i) {
        assert(used =~= range) by {
            assert forall|x: int| range.contains(x) implies used.contains(x) by {
                assert(positions.contains(x));
            }
        }
    }
}

/// Whether an order names each of `n` positions once.
pub open spec fn is_order(order: Seq<int>, n: nat) -> bool {
    &&& order.len() == n
    &&& order.no_duplicates()
    &&& forall|i: int| 0 <= i < n ==> 0 <= #[trigger] order[i] < n
}

/// The elements of a list in an order.
pub open spec fn arranged<T>(list: Seq<T>, order: Seq<int>) -> Seq<T> {
    Seq::new(order.len(), |i: int| list[order[i]])
}

/// Whether a text is the only one that holds a passage.
pub open spec fn holds_alone(passage: Seq<Seq<char>>, chunks: Seq<Seq<char>>, at: int) -> bool {
    &&& 0 <= at < chunks.len()
    &&& checks::any_phrase_in(passage, chunks[at])
    &&& forall|i: int|
        0 <= i < chunks.len() && checks::any_phrase_in(passage, #[trigger] chunks[i]) ==> i == at
}

/// Whether a passage is in exactly one text.
pub open spec fn found_once(passage: Seq<Seq<char>>, chunks: Seq<Seq<char>>) -> bool {
    exists|at: int| holds_alone(passage, chunks, at)
}

/// The one text that holds a passage is the first.
proof fn lemma_first_is_only(passage: Seq<Seq<char>>, chunks: Seq<Seq<char>>, at: int)
    requires
        holds_alone(passage, chunks, at),
    ensures
        coverage::first_with(passage, chunks, 0) == Some(at),
{
    law_first_with(passage, chunks, 0);
}

/// Every position has a place in an order.
proof fn lemma_order_place(order: Seq<int>, n: nat, x: int) -> (i: int)
    requires
        is_order(order, n),
        0 <= x < n,
    ensures
        0 <= i < n,
        order[i] == x,
{
    let range = set_int_range(0, n as int);
    lemma_int_range(0, n as int);
    order.unique_seq_to_set();
    vstd::seq_lib::seq_to_set_is_finite(order);
    assert(order.to_set().subset_of(range)) by {
        assert forall|y: int| order.to_set().contains(y) implies range.contains(y) by {
            let k = choose|k: int| 0 <= k < order.len() && order[k] == y;
            assert(0 <= order[k] < n);
        }
    }
    lemma_subset_equality(order.to_set(), range);
    assert(range.contains(x));
    assert(order.contains(x));
    choose|i: int| 0 <= i < order.len() && order[i] == x
}

/// Lists that repeat themselves in the same places have equally many different elements.
proof fn lemma_same_repeats(p: Seq<int>, q: Seq<int>)
    requires
        p.len() == q.len(),
        forall|i: int, j: int|
            0 <= i < p.len() && 0 <= j < p.len() ==> ((#[trigger] p[i]) == (#[trigger] p[j]) <==> q[i]
                == q[j]),
    ensures
        p.to_set().len() == q.to_set().len(),
    decreases p.len(),
{
    if p.len() == 0 {
        assert(p.to_set() =~= Set::<int>::empty());
        assert(q.to_set() =~= Set::<int>::empty());
    } else {
        let n = p.len() - 1;
        let x = p.drop_last();
        let y = q.drop_last();
        assert forall|i: int, j: int| 0 <= i < x.len() && 0 <= j < x.len() implies ((#[trigger] x[i])
            == (#[trigger] x[j]) <==> y[i] == y[j]) by {
            assert(x[i] == p[i] && x[j] == p[j]);
        }
        lemma_same_repeats(x, y);
        assert(p == x.push(p[n]));
        assert(q == y.push(q[n]));
        coverage::lemma_set_grows(x, p[n]);
        coverage::lemma_set_grows(y, q[n]);
        if x.contains(p[n]) {
            let k = choose|k: int| 0 <= k < x.len() && x[k] == p[n];
            assert(p[k] == p[n]);
            assert(y[k] == q[n]);
        }
        if y.contains(q[n]) {
            let k = choose|k: int| 0 <= k < y.len() && y[k] == q[n];
            assert(q[k] == q[n]);
            assert(p[k] == p[n]);
            assert(x[k] == p[n]);
        }
    }
}

/// In another order each passage is found where its text has gone.
proof fn lemma_positions_move(
    passages: Seq<Seq<Seq<char>>>,
    chunks: Seq<Seq<char>>,
    order: Seq<int>,
)
    requires
        forall|k: int| 0 <= k < passages.len() ==> found_once(#[trigger] passages[k], chunks),
        is_order(order, chunks.len()),
    ensures
        coverage::earliest(passages, chunks) is Some,
        coverage::earliest(passages, arranged(chunks, order)) is Some,
        ({
            let p = coverage::earliest(passages, chunks).unwrap();
            let q = coverage::earliest(passages, arranged(chunks, order)).unwrap();
            &&& p.len() == passages.len()
            &&& q.len() == passages.len()
            &&& forall|k: int|
                0 <= k < passages.len() ==> 0 <= #[trigger] q[k] < order.len() && order[q[k]] == p[k]
        }),
{
    let moved = arranged(chunks, order);
    lemma_earliest(passages, chunks);
    lemma_earliest(passages, moved);
    assert forall|k: int| 0 <= k < passages.len() implies ({
        let a = coverage::first_with(#[trigger] passages[k], chunks, 0);
        let b = coverage::first_with(passages[k], moved, 0);
        a is Some && b is Some && 0 <= b.unwrap() < order.len() && order[b.unwrap()] == a.unwrap()
    }) by {
        assert(found_once(passages[k], chunks));
        let at = choose|at: int| holds_alone(passages[k], chunks, at);
        lemma_first_is_only(passages[k], chunks, at);
        let place = lemma_order_place(order, chunks.len(), at);
        assert(moved[place] == chunks[at]);
        assert forall|i: int|
            0 <= i < moved.len() && checks::any_phrase_in(passages[k], #[trigger] moved[i]) implies i
            == place by {
            assert(moved[i] == chunks[order[i]]);
            assert(order[i] == at);
            assert(order[place] == at);
        }
        assert(holds_alone(passages[k], moved, place));
        lemma_first_is_only(passages[k], moved, place);
    }
    if coverage::earliest(passages, chunks) is Some && coverage::earliest(passages, moved) is Some {
        let p = coverage::earliest(passages, chunks).unwrap();
        let q = coverage::earliest(passages, moved).unwrap();
        assert forall|k: int| 0 <= k < passages.len() implies 0 <= #[trigger] q[k] < order.len()
            && order[q[k]] == p[k] by {
            assert(coverage::first_with(passages[k], chunks, 0) == Some(p[k]));
            assert(coverage::first_with(passages[k], moved, 0) == Some(q[k]));
        }
    }
}

/// Where each passage is in exactly one text, the floor is the same for every order of the texts, and
/// no order has a rank below it.
pub proof fn law_floor_in_every_order(
    passages: Seq<Seq<Seq<char>>>,
    chunks: Seq<Seq<char>>,
    order: Seq<int>,
)
    requires
        passages.len() > 0,
        forall|k: int| 0 <= k < passages.len() ==> found_once(#[trigger] passages[k], chunks),
        is_order(order, chunks.len()),
    ensures
        coverage::coverage_of(passages, chunks) is Some,
        coverage::coverage_of(passages, arranged(chunks, order)) is Some,
        ({
            let floor = coverage::coverage_of(passages, chunks).unwrap().1;
            let moved = coverage::coverage_of(passages, arranged(chunks, order)).unwrap();
            moved.1 == floor && moved.0 >= floor
        }),
{
    lemma_positions_move(passages, chunks, order);
    let p = coverage::earliest(passages, chunks).unwrap();
    let q = coverage::earliest(passages, arranged(chunks, order)).unwrap();
    assert forall|i: int, j: int| 0 <= i < p.len() && 0 <= j < p.len() implies ((#[trigger] p[i]) == (
    #[trigger] p[j]) <==> q[i] == q[j]) by {
        assert(order[q[i]] == p[i]);
        assert(order[q[j]] == p[j]);
    }
    lemma_same_repeats(p, q);
    law_floor(passages, arranged(chunks, order));
}

/// The different elements of a list.
spec fn distinct(list: Seq<int>) -> Seq<int>
    decreases list.len(),
{
    if list.len() == 0 {
        seq![]
    } else {
        let before = distinct(list.drop_last());
        if before.contains(list.last()) {
            before
        } else {
            before.push(list.last())
        }
    }
}

/// The numbers below `n`, without those in `used`, behind `used`.
spec fn filled(used: Seq<int>, n: int) -> Seq<int>
    decreases n,
{
    if n <= 0 {
        used
    } else if used.contains(n - 1) {
        filled(used, n - 1)
    } else {
        filled(used, n - 1).push(n - 1)
    }
}

proof fn lemma_distinct(list: Seq<int>)
    ensures
        distinct(list).no_duplicates(),
        forall|x: int| (#[trigger] distinct(list).contains(x)) <==> list.contains(x),
        distinct(list).len() == list.to_set().len(),
    decreases list.len(),
{
    if list.len() == 0 {
        assert(list.to_set() =~= Set::<int>::empty());
    } else {
        let before = list.drop_last();
        let d = distinct(before);
        lemma_distinct(before);
        assert(list == before.push(list.last()));
        coverage::lemma_set_grows(before, list.last());
        assert forall|x: int| (#[trigger] distinct(list).contains(x)) <==> list.contains(x) by {
            assert(d.contains(x) <==> before.contains(x));
            if before.contains(x) {
                let k = choose|k: int| 0 <= k < before.len() && before[k] == x;
                assert(list[k] == x);
                let m = choose|m: int| 0 <= m < d.len() && d[m] == x;
                assert(distinct(list)[m] == x);
            }
            if x == list.last() {
                assert(list[list.len() - 1] == x);
                if !d.contains(x) {
                    assert(distinct(list)[d.len() as int] == x);
                }
            }
            if distinct(list).contains(x) {
                let m = choose|m: int| 0 <= m < distinct(list).len() && distinct(list)[m] == x;
                if m < d.len() {
                    assert(d[m] == x);
                } else {
                    assert(list[list.len() - 1] == x);
                }
            }
        }
        assert(d.contains(list.last()) <==> before.contains(list.last()));
    }
}

proof fn lemma_filled(used: Seq<int>, n: int, m: int)
    requires
        used.no_duplicates(),
        forall|i: int| 0 <= i < used.len() ==> 0 <= #[trigger] used[i] < m,
        0 <= n <= m,
    ensures
        filled(used, n).no_duplicates(),
        filled(used, n).len() >= used.len(),
        filled(used, n).take(used.len() as int) == used,
        forall|x: int|
            (#[trigger] filled(used, n).contains(x)) <==> (used.contains(x) || 0 <= x < n),
    decreases n,
{
    let all = filled(used, n);
    if n > 0 {
        let before = filled(used, n - 1);
        lemma_filled(used, n - 1, m);
        if !used.contains(n - 1) {
            assert(!before.contains(n - 1));
            assert(all.no_duplicates()) by {
                assert forall|i: int, j: int|
                    0 <= i < all.len() && 0 <= j < all.len() && i != j implies all[i] != all[j] by {
                    if i < before.len() {
                        assert(before.contains(before[i]));
                    }
                    if j < before.len() {
                        assert(before.contains(before[j]));
                    }
                }
            }
            assert(all.take(used.len() as int) == before.take(used.len() as int));
            assert forall|x: int| all.contains(x) <==> used.contains(x) || 0 <= x < n by {
                if before.contains(x) {
                    let k = choose|k: int| 0 <= k < before.len() && before[k] == x;
                    assert(all[k] == x);
                }
                if x == n - 1 {
                    assert(all[before.len() as int] == x);
                }
                if all.contains(x) {
                    let k = choose|k: int| 0 <= k < all.len() && all[k] == x;
                    if k < before.len() {
                        assert(before[k] == x);
                        assert(before.contains(x));
                    }
                }
                assert(before.contains(x) <==> used.contains(x) || 0 <= x < n - 1);
            }
        }
    } else {
        assert(used.take(used.len() as int) == used);
    }
}

/// Where each passage is in exactly one text, some order of the texts has the floor as its rank.
pub proof fn law_floor_is_reached(passages: Seq<Seq<Seq<char>>>, chunks: Seq<Seq<char>>) -> (order: Seq<
    int,
>)
    requires
        passages.len() > 0,
        forall|k: int| 0 <= k < passages.len() ==> found_once(#[trigger] passages[k], chunks),
    ensures
        is_order(order, chunks.len()),
        coverage::coverage_of(passages, chunks) is Some,
        ({
            let floor = coverage::coverage_of(passages, chunks).unwrap().1;
            coverage::coverage_of(passages, arranged(chunks, order)) == Some((floor, floor))
        }),
{
    let n = chunks.len() as int;
    lemma_earliest(passages, chunks);
    assert forall|k: int| 0 <= k < passages.len() implies found(#[trigger] passages[k], chunks) by {
        assert(found_once(passages[k], chunks));
        let at = choose|at: int| holds_alone(passages[k], chunks, at);
        assert(checks::any_phrase_in(passages[k], chunks[at]));
    }
    law_coverage_exists(passages, chunks);
    let p = coverage::earliest(passages, chunks).unwrap();
    let used = distinct(p);
    let order = filled(used, n);
    lemma_distinct(p);
    assert forall|i: int| 0 <= i < used.len() implies 0 <= #[trigger] used[i] < n by {
        assert(used.contains(used[i]));
        assert(p.contains(used[i]));
        let k = choose|k: int| 0 <= k < p.len() && p[k] == used[i];
        assert(0 <= p[k] < n);
    }
    lemma_filled(used, n, n);
    assert forall|i: int| 0 <= i < order.len() implies 0 <= #[trigger] order[i] < n by {
        assert(order.contains(order[i]));
        if used.contains(order[i]) {
            let k = choose|k: int| 0 <= k < used.len() && used[k] == order[i];
            assert(0 <= used[k] < n);
        }
    }
    lemma_int_range(0, n);
    assert(order.to_set() =~= set_int_range(0, n)) by {
        assert forall|x: int| order.to_set().contains(x) <==> set_int_range(0, n).contains(x) by {
            assert(order.contains(x) <==> used.contains(x) || 0 <= x < n);
            if order.contains(x) {
                let k = choose|k: int| 0 <= k < order.len() && order[k] == x;
                assert(0 <= order[k] < n);
            }
        }
    }
    order.unique_seq_to_set();
    law_floor_in_every_order(passages, chunks, order);
    lemma_positions_move(passages, chunks, order);
    let q = coverage::earliest(passages, arranged(chunks, order)).unwrap();
    lemma_earliest(passages, arranged(chunks, order));
    coverage::lemma_deepest(q);
    let rank = coverage::deepest(q);
    let k = choose|k: int| 0 <= k < q.len() && #[trigger] q[k] == rank;
    assert(order[q[k]] == p[k]);
    assert(p.contains(p[k]));
    assert(used.contains(p[k]));
    let place = choose|place: int| 0 <= place < used.len() && used[place] == p[k];
    assert(order.take(used.len() as int)[place] == order[place]);
    assert(order[place] == order[q[k]]);
    order
}

/// Where each passage of an example is in exactly one retrieved chunk, its floor is the best rank that
/// any order of the chunks gives: none goes below it, and one reaches it.
pub proof fn law_floor_is_best(example: EvalExample, retrieval: Seq<RetrievalResultView>)
    requires
        example.expected_chunks@.len() > 0,
        forall|k: int|
            0 <= k < example.expected_chunks@.len() ==> found_once(
                (#[trigger] example.expected_chunks@[k])@,
                coverage::compared_texts(retrieval),
            ),
    ensures
        coverage::coverage(example, retrieval) is Some,
        ({
            let floor = coverage::coverage(example, retrieval).unwrap().1;
            &&& forall|order: Seq<int>| #[trigger]
                is_order(order, retrieval.len()) ==> {
                    let c = coverage::coverage(example, arranged(retrieval, order));
                    c is Some && c.unwrap().1 == floor && c.unwrap().0 >= floor
                }
            &&& exists|order: Seq<int>| #[trigger]
                is_order(order, retrieval.len()) && coverage::coverage(
                    example,
                    arranged(retrieval, order),
                ) == Some((floor, floor))
        }),
{
    let passages = examples::passage_views(example.expected_chunks@);
    let chunks = coverage::compared_texts(retrieval);
    assert forall|k: int| 0 <= k < passages.len() implies found_once(
        #[trigger] passages[k],
        chunks,
    ) by {
        assert(passages[k] == example.expected_chunks@[k]@);
    }
    let best = law_floor_is_reached(passages, chunks);
    assert forall|order: Seq<int>| #[trigger] is_order(order, retrieval.len()) implies
        coverage::compared_texts(arranged(retrieval, order)) == arranged(chunks, order) by {
        assert forall|i: int| 0 <= i < order.len() implies coverage::compared_texts(
            arranged(retrieval, order),
        )[i] == #[trigger] arranged(chunks, order)[i] by {
            assert(0 <= order[i] < retrieval.len());
        }
    }
    assert forall|order: Seq<int>| #[trigger] is_order(order, retrieval.len()) implies ({
        let floor = coverage::coverage(example, retrieval).unwrap().1;
        let c = coverage::coverage(example, arranged(retrieval, order));
        c is Some && c.unwrap().1 == floor && c.unwrap().0 >= floor
    }) by {
        law_floor_in_every_order(passages, chunks, order);
    }
    assert(is_order(best, retrieval.len()));
}

/// Where the first text holds every passage, rank and floor are zero.
pub proof fn law_first_text_covers_all(passages: Seq<Seq<Seq<char>>>, chunks: Seq<Seq<char>>)
    requires
        passages.len() > 0,
        chunks.len() > 0,
        checks::all_passages_in(passages, chunks[0]),
    ensures
        coverage::coverage_of(passages, chunks) == Some((0int, 0int)),
{
    assert forall|k: int| 0 <= k < passages.len() implies found(#[trigger] passages[k], chunks) by {
        assert(checks::any_phrase_in(passages[k], chunks[0]));
    }
    law_coverage_exists(passages, chunks);
    law_floor(passages, chunks);
    lemma_earliest(passages, chunks);
    let positions = coverage::earliest(passages, chunks).unwrap();
    coverage::lemma_deepest(positions);
    let rank = coverage::deepest(positions);
    let k = choose|k: int| 0 <= k < positions.len() && #[trigger] positions[k] == rank;
    assert(coverage::first_with(passages[k], chunks, 0) == Some(positions[k]));
    assert(checks::any_phrase_in(passages[k], chunks[0]));
}

} // verus!
