//! How far down a retrieval the expected passages lie.

use crate::eval::checks;
use crate::eval::examples;
use crate::eval::examples::{EvalExample, Passage};
use crate::eval::normalize;
use crate::model::{RetrievalResult, RetrievalResultView};
use crate::model;
use crate::text;
use vstd::prelude::*;

verus! {

/// Where the expected passages lie in a retrieval. `rank` is the depth, counted from zero, at which
/// the last of them is found; `floor` is the best rank that the chunks they lie in allow.
#[derive(Debug, Clone, Copy, PartialEq, Eq, Structural)]
pub struct Coverage {
    pub rank: usize,
    pub floor: usize,
}

/// The compared texts of retrieved chunks.
pub open spec fn compared_texts(retrieval: Seq<RetrievalResultView>) -> Seq<Seq<char>> {
    retrieval.map_values(|r: RetrievalResultView| normalize::normalized(r.chunk.text))
}

/// The first text from `from` on that holds a passage.
pub open spec fn first_with(
    passage: Seq<Seq<char>>,
    chunks: Seq<Seq<char>>,
    from: int,
) -> Option<int>
    decreases chunks.len() - from,
{
    if from < 0 || from >= chunks.len() {
        None
    } else if checks::any_phrase_in(passage, chunks[from]) {
        Some(from)
    } else {
        first_with(passage, chunks, from + 1)
    }
}

/// For each passage the first text that holds it; `None` if one of them is in no text.
pub open spec fn earliest(passages: Seq<Seq<Seq<char>>>, chunks: Seq<Seq<char>>) -> Option<Seq<int>>
    decreases passages.len(),
{
    if passages.len() == 0 {
        Some(seq![])
    } else {
        match (earliest(passages.drop_last(), chunks), first_with(passages.last(), chunks, 0)) {
            (Some(before), Some(at)) => Some(before.push(at)),
            _ => None,
        }
    }
}

/// The greatest of some positions.
pub open spec fn deepest(positions: Seq<int>) -> int
    decreases positions.len(),
{
    if positions.len() == 0 {
        0
    } else {
        let before = deepest(positions.drop_last());
        if positions.last() > before {
            positions.last()
        } else {
            before
        }
    }
}

/// Rank and floor: the depth of the last passage, and one less than the number of different texts
/// that the passages are found in. `None` without passages, or if one of them is in no text.
pub open spec fn coverage_of(passages: Seq<Seq<Seq<char>>>, chunks: Seq<Seq<char>>) -> Option<
    (int, int),
> {
    if passages.len() == 0 {
        None
    } else {
        match earliest(passages, chunks) {
            Some(positions) => Some((deepest(positions), positions.to_set().len() - 1)),
            None => None,
        }
    }
}

/// The coverage of an example's passages by a retrieval.
pub open spec fn coverage(example: EvalExample, retrieval: Seq<RetrievalResultView>) -> Option<
    (int, int),
> {
    coverage_of(
        examples::passage_views(example.expected_chunks@),
        compared_texts(retrieval),
    )
}

/// The first text that holds a passage.
fn find_passage(passage: &Passage, chunks: &Vec<String>) -> (res: Option<usize>)
    ensures
        first_with(passage@, text::texts(chunks@), 0) == (match res {
            Some(at) => Some(at as int),
            None => None,
        }),
        res is Some ==> res.unwrap() < chunks@.len(),
{
    let ghost all = text::texts(chunks@);
    let mut i: usize = 0;
    while i < chunks.len()
        invariant
            i <= chunks@.len(),
            all == text::texts(chunks@),
            first_with(passage@, all, 0) == first_with(passage@, all, i as int),
        decreases chunks@.len() - i,
    {
        assert(all[i as int] == chunks@[i as int]@);
        if checks::has_passage(passage, chunks[i].as_str()) {
            return Some(i);
        }
        i = i + 1;
    }
    None
}

/// The positions as numbers.
pub open spec fn numbers(positions: Seq<usize>) -> Seq<int> {
    positions.map_values(|p: usize| p as int)
}

/// Whether a list holds a position.
fn holds(list: &Vec<usize>, n: usize, at: usize) -> (res: bool)
    requires
        n <= list@.len(),
    ensures
        res == numbers(list@).take(n as int).contains(at as int),
{
    let ghost all = numbers(list@).take(n as int);
    let mut i: usize = 0;
    while i < n
        invariant
            n <= list@.len(),
            i <= n,
            all == numbers(list@).take(n as int),
            forall|j: int| 0 <= j < i ==> #[trigger] all[j] != at,
        decreases n - i,
    {
        assert(all[i as int] == list@[i as int]);
        if list[i] == at {
            return true;
        }
        i = i + 1;
    }
    false
}

/// One more element in the set of a sequence.
pub(crate) proof fn lemma_set_grows(s: Seq<int>, x: int)
    ensures
        s.push(x).to_set() == s.to_set().insert(x),
        s.to_set().finite(),
        s.push(x).to_set().len() == s.to_set().len() + if s.contains(x) {
            0int
        } else {
            1int
        },
{
    s.lemma_cardinality_of_set();
    vstd::seq_lib::seq_to_set_is_finite(s);
    assert(s.push(x).to_set() =~= s.to_set().insert(x)) by {
        assert forall|y: int| s.push(x).to_set().contains(y) == s.to_set().insert(x).contains(y) by {
            if s.contains(y) {
                let k = choose|k: int| 0 <= k < s.len() && s[k] == y;
                assert(s.push(x)[k] == y);
            }
            assert(s.push(x)[s.len() as int] == x);
        }
    }
}

/// Rank and floor of some positions.
pub fn coverage_at(positions: &Vec<usize>) -> (res: Coverage)
    requires
        positions@.len() > 0,
    ensures
        res.rank == deepest(numbers(positions@)),
        res.floor == numbers(positions@).to_set().len() - 1,
{
    let ghost all = numbers(positions@);
    let mut rank: usize = 0;
    let mut different: usize = 0;
    let mut i: usize = 0;
    assert(all.take(0).len() == 0);
    assert(all.take(0).to_set() =~= Set::<int>::empty());
    while i < positions.len()
        invariant
            i <= positions@.len(),
            all == numbers(positions@),
            rank == deepest(all.take(i as int)),
            different == all.take(i as int).to_set().len(),
            different <= i,
            i > 0 ==> different > 0,
        decreases positions@.len() - i,
    {
        let at: usize = positions[i];
        proof {
            assert(all.take(i + 1).drop_last() == all.take(i as int));
            assert(all.take(i + 1) == all.take(i as int).push(at as int));
            lemma_set_grows(all.take(i as int), at as int);
        }
        if at > rank {
            rank = at;
        }
        if !holds(positions, i, at) {
            different = different + 1;
        }
        i = i + 1;
    }
    assert(all.take(i as int) == all);
    Coverage { rank, floor: different - 1 }
}

/// A passage that is in no text leaves the whole without positions.
proof fn lemma_missing_persists(passages: Seq<Seq<Seq<char>>>, chunks: Seq<Seq<char>>, n: int)
    requires
        0 <= n <= passages.len(),
        earliest(passages.take(n), chunks) is None,
    ensures
        earliest(passages, chunks) is None,
    decreases passages.len() - n,
{
    if n == passages.len() {
        assert(passages.take(n) == passages);
    } else {
        assert(passages.take(n + 1).drop_last() == passages.take(n));
        lemma_missing_persists(passages, chunks, n + 1);
    }
}

/// The coverage of an example's passages by a retrieval. `None` if it has no passages or if one of
/// them is in no chunk.
pub fn chunk_coverage(example: &EvalExample, retrieval: &[RetrievalResult]) -> (res: Option<Coverage>)
    ensures
        coverage(*example, model::result_views(retrieval@)) == (match res {
            Some(c) => Some((c.rank as int, c.floor as int)),
            None => None,
        }),
        res is Some ==> res.unwrap().rank < retrieval@.len(),
{
    let ghost views = model::result_views(retrieval@);
    let ghost passages = examples::passage_views(example.expected_chunks@);
    let ghost hay = compared_texts(views);
    if example.expected_chunks.len() == 0 {
        return None;
    }
    let mut chunks: Vec<String> = Vec::new();
    let mut k: usize = 0;
    assert(text::texts(chunks@) == hay.take(0));
    while k < retrieval.len()
        invariant
            k <= retrieval@.len(),
            views == model::result_views(retrieval@),
            hay == compared_texts(views),
            text::texts(chunks@) == hay.take(k as int),
        decreases retrieval@.len() - k,
    {
        let compared = normalize::normalize(retrieval[k].chunk.text.as_str());
        let ghost before = text::texts(chunks@);
        chunks.push(compared);
        proof {
            assert(views[k as int] == retrieval@[k as int]@);
            assert(text::texts(chunks@) == before.push(compared@));
            assert(hay.take(k + 1) == hay.take(k as int).push(hay[k as int]));
        }
        k = k + 1;
    }
    assert(hay.take(k as int) == hay);
    assert(chunks@.len() == text::texts(chunks@).len());
    let mut positions: Vec<usize> = Vec::new();
    let mut i: usize = 0;
    assert(passages.take(0).len() == 0);
    assert(numbers(positions@) == Seq::<int>::empty());
    while i < example.expected_chunks.len()
        invariant
            example.expected_chunks@.len() > 0,
            i <= example.expected_chunks@.len(),
            passages == examples::passage_views(example.expected_chunks@),
            hay == compared_texts(model::result_views(retrieval@)),
            hay == text::texts(chunks@),
            chunks@.len() == retrieval@.len(),
            positions@.len() == i,
            earliest(passages.take(i as int), hay) == Some(numbers(positions@)),
            forall|j: int| 0 <= j < i ==> #[trigger] positions@[j] < retrieval@.len(),
        decreases example.expected_chunks@.len() - i,
    {
        proof {
            assert(passages.take(i + 1).drop_last() == passages.take(i as int));
            assert(passages.take(i + 1).last() == example.expected_chunks@[i as int]@);
        }
        match find_passage(&example.expected_chunks[i], &chunks) {
            Some(at) => {
                let ghost before = numbers(positions@);
                positions.push(at);
                assert(numbers(positions@) == before.push(at as int));
            },
            None => {
                proof {
                    lemma_missing_persists(passages, hay, i + 1);
                }
                return None;
            },
        }
        i = i + 1;
    }
    assert(passages.take(i as int) == passages);
    proof {
        lemma_deepest(numbers(positions@));
    }
    let res = coverage_at(&positions);
    proof {
        let all = numbers(positions@);
        let j = choose|j: int| 0 <= j < all.len() && all[j] == deepest(all);
        assert(positions@[j] == res.rank);
    }
    Some(res)
}

/// The rank of an example's passages in a retrieval.
pub fn check_expected_chunks(example: &EvalExample, retrieval: &[RetrievalResult]) -> (res: Option<
    usize,
>)
    ensures
        res is Some <==> coverage(*example, model::result_views(retrieval@)) is Some,
        res is Some ==> res.unwrap() == coverage(
            *example,
            model::result_views(retrieval@),
        ).unwrap().0,
{
    match chunk_coverage(example, retrieval) {
        Some(c) => Some(c.rank),
        None => None,
    }
}

/// The greatest of some positions is one of them, and none is greater.
pub(crate) proof fn lemma_deepest(positions: Seq<int>)
    requires
        forall|i: int| 0 <= i < positions.len() ==> 0 <= #[trigger] positions[i],
    ensures
        forall|i: int| 0 <= i < positions.len() ==> #[trigger] positions[i] <= deepest(positions),
        positions.len() > 0 ==> exists|i: int|
            0 <= i < positions.len() && #[trigger] positions[i] == deepest(positions),
    decreases positions.len(),
{
    if positions.len() > 0 {
        let before = positions.drop_last();
        assert forall|i: int| 0 <= i < before.len() implies 0 <= #[trigger] before[i] by {
            assert(before[i] == positions[i]);
        }
        lemma_deepest(before);
        let d = deepest(positions);
        assert forall|i: int| 0 <= i < positions.len() implies #[trigger] positions[i] <= d by {
            if i < before.len() {
                assert(before[i] == positions[i]);
            }
        }
        if d == positions.last() {
            assert(positions[positions.len() - 1] == d);
        } else {
            let k = choose|k: int| 0 <= k < before.len() && #[trigger] before[k] == deepest(before);
            assert(positions[k] == d);
        }
    }
}

} // verus!
