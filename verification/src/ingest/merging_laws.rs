//! Which chunks are merged.

use crate::ingest::merge;
use crate::ingest::merge::MergerView;
use crate::ingest::merge_laws;
use crate::model::RawChunkView;
use crate::tokenizer;
use vstd::prelude::*;

verus! {

/// The chunks from `a` to `b` in one: their texts with a line feed between neighbours, on the page of
/// the first.
pub open spec fn in_one(chunks: Seq<RawChunkView>, a: int, b: int) -> RawChunkView {
    RawChunkView { text: merge_laws::joined_text(chunks.subrange(a, b)), page: chunks[a].page }
}

/// Whether the chunks from `a` to `b` in one have at least `min` tokens.
pub open spec fn enough(chunks: Seq<RawChunkView>, a: int, b: int, min: nat) -> bool {
    merge_laws::has_tokens(in_one(chunks, a, b).text, min)
}

/// Whether the first `n` chunks are grouped one group after another. No group has enough before its
/// end.
pub open spec fn grouped(
    chunks: Seq<RawChunkView>,
    groups: Seq<(int, int)>,
    n: int,
    min: nat,
) -> bool {
    &&& groups.len() == 0 ==> n == 0
    &&& groups.len() > 0 ==> groups[0].0 == 0 && groups.last().1 == n
    &&& forall|i: int|
        0 <= i < groups.len() ==> 0 <= (#[trigger] groups[i]).0 < groups[i].1 <= chunks.len()
    &&& forall|i: int| 0 <= i < groups.len() - 1 ==> (#[trigger] groups[i]).1 == groups[i + 1].0
    &&& forall|i: int, m: int|
        0 <= i < groups.len() && groups[i].0 < m < groups[i].1 ==> !#[trigger] enough(
            chunks,
            groups[i].0,
            m,
            min,
        )
}

/// Whether the first `n` groups have enough.
pub open spec fn all_enough(
    chunks: Seq<RawChunkView>,
    groups: Seq<(int, int)>,
    n: int,
    min: nat,
) -> bool {
    forall|i: int|
        0 <= i < n ==> enough(chunks, (#[trigger] groups[i]).0, groups[i].1, min)
}

/// Each group in one chunk.
pub open spec fn group_chunks(chunks: Seq<RawChunkView>, groups: Seq<(int, int)>) -> Seq<
    RawChunkView,
> {
    groups.map_values(|g: (int, int)| in_one(chunks, g.0, g.1))
}

proof fn lemma_one_more(chunks: Seq<RawChunkView>, a: int, b: int)
    requires
        0 <= a <= b < chunks.len(),
    ensures
        in_one(chunks, b, b + 1) == chunks[b],
        a < b ==> in_one(chunks, a, b + 1) == merge::glued(in_one(chunks, a, b), chunks[b]),
{
    let none = Seq::<RawChunkView>::empty();
    assert(chunks.subrange(b, b + 1) == none.push(chunks[b]));
    merge_laws::lemma_joined_push(none, chunks[b]);
    assert(chunks.subrange(a, b + 1) == chunks.subrange(a, b).push(chunks[b]));
    merge_laws::lemma_joined_push(chunks.subrange(a, b), chunks[b]);
}

/// What holds behind the first `k` of all chunks: the groups are done, and the chunks from `a` on are
/// pending.
spec fn merging(
    v: MergerView,
    chunks: Seq<RawChunkView>,
    k: int,
    min: nat,
    groups: Seq<(int, int)>,
    a: int,
) -> bool {
    &&& v.min == min
    &&& 0 <= a <= k <= chunks.len()
    &&& grouped(chunks, groups, a, min)
    &&& all_enough(
        chunks,
        groups,
        if k < chunks.len() {
            groups.len() as int
        } else {
            groups.len() - 1
        },
        min,
    )
    &&& v.out == group_chunks(chunks, groups)
    &&& v.pending == if a < k {
        Some(in_one(chunks, a, k))
    } else {
        None
    }
    &&& forall|m: int| a < m <= k ==> !#[trigger] enough(chunks, a, m, min)
    &&& k == chunks.len() ==> a == k
}

proof fn lemma_merging(chunks: Seq<RawChunkView>, min: nat, k: int) -> (res: (
    Seq<(int, int)>,
    int,
))
    requires
        0 <= k <= chunks.len(),
        merge::merge_fold(merge::merge_start(min), chunks.take(k), chunks.len()) is Some,
    ensures
        merging(
            merge::merge_fold(merge::merge_start(min), chunks.take(k), chunks.len()).unwrap(),
            chunks,
            k,
            min,
            res.0,
            res.1,
        ),
    decreases k,
{
    let start = merge::merge_start(min);
    if k == 0 {
        let none = Seq::<(int, int)>::empty();
        assert(group_chunks(chunks, none) == Seq::<RawChunkView>::empty());
        (none, 0)
    } else {
        let chunk = chunks[k - 1];
        assert(chunks.take(k).drop_last() == chunks.take(k - 1));
        assert(chunks.take(k).last() == chunk);
        let (groups, a) = lemma_merging(chunks, min, k - 1);
        let v = merge::merge_fold(start, chunks.take(k - 1), chunks.len()).unwrap();
        let w = merge::merge_fold(start, chunks.take(k), chunks.len()).unwrap();
        lemma_one_more(chunks, a, k - 1);
        assert(merge::with_pending(v, chunk) == in_one(chunks, a, k));
        assert forall|m: int| a < m < k implies !#[trigger] enough(chunks, a, m, min) by {}
        if enough(chunks, a, k, min) || k == chunks.len() {
            let more = groups.push((a, k));
            assert forall|i: int| 0 <= i < more.len() implies 0 <= (#[trigger] more[i]).0
                < more[i].1 <= chunks.len() by {
                if i < groups.len() {
                    assert(more[i] == groups[i]);
                }
            }
            assert forall|i: int| 0 <= i < more.len() - 1 implies (#[trigger] more[i]).1 == more[i
                + 1].0 by {
                assert(more[i] == groups[i]);
                if i < groups.len() - 1 {
                    assert(groups[i].1 == groups[i + 1].0);
                }
            }
            assert forall|i: int, m: int|
                0 <= i < more.len() && more[i].0 < m < more[i].1 implies !#[trigger] enough(
                chunks,
                more[i].0,
                m,
                min,
            ) by {
                if i < groups.len() {
                    assert(more[i] == groups[i]);
                    assert(!enough(chunks, groups[i].0, m, min));
                }
            }
            assert forall|i: int| 0 <= i < groups.len() implies enough(
                chunks,
                (#[trigger] more[i]).0,
                more[i].1,
                min,
            ) by {
                assert(more[i] == groups[i]);
            }
            assert(w.out == v.out.push(in_one(chunks, a, k)));
            assert(group_chunks(chunks, more) == group_chunks(chunks, groups).push(
                in_one(chunks, a, k),
            ));
            (more, k)
        } else {
            (groups, a)
        }
    }
}

/// Chunks are merged in order, group by group. A group ends as soon as its chunks in one have the
/// minimum, and the last one at the end. A last group that has less joins the one before it, if there
/// is one. A single chunk stays as it is.
pub proof fn law_merging(chunks: Seq<RawChunkView>, min: nat)
    requires
        merge::merged(chunks, min) is Some,
    ensures
        chunks.len() <= 1 ==> merge::merged(chunks, min).unwrap() == chunks,
        chunks.len() > 1 ==> exists|groups: Seq<(int, int)>|
            {
                let out = merge::merged(chunks, min).unwrap();
                let n = chunks.len() as int;
                let g = groups.len() as int;
                &&& #[trigger] grouped(chunks, groups, chunks.len() as int, min)
                &&& all_enough(chunks, groups, g - 1, min)
                &&& if g >= 2 && !enough(chunks, groups[g - 1].0, n, min) {
                    out == group_chunks(chunks, groups.take(g - 2)).push(
                        in_one(chunks, groups[g - 2].0, n),
                    )
                } else {
                    out == group_chunks(chunks, groups)
                }
            },
{
    let n = chunks.len() as int;
    if n > 1 {
        assert(chunks.take(n) == chunks);
        let (groups, a) = lemma_merging(chunks, min, n);
        let v = merge::merge_fold(merge::merge_start(min), chunks, chunks.len()).unwrap();
        let g = groups.len() as int;
        assert(grouped(chunks, groups, n, min));
        assert(v.out.last() == in_one(chunks, groups[g - 1].0, n));
        if g >= 2 && !enough(chunks, groups[g - 1].0, n, min) {
            let (x, y) = groups[g - 2];
            assert(groups[g - 2].1 == groups[g - 1].0);
            let left = chunks.subrange(x, y);
            let right = chunks.subrange(y, n);
            assert(left + right == chunks.subrange(x, n));
            lemma_joined_concat(left, right);
            assert(merge::glued(in_one(chunks, x, y), in_one(chunks, y, n)) == in_one(
                chunks,
                x,
                n,
            ));
            assert(v.out.take(g - 2) == group_chunks(chunks, groups.take(g - 2)));
        }
    }
}

proof fn lemma_joined_concat(a: Seq<RawChunkView>, b: Seq<RawChunkView>)
    requires
        a.len() > 0,
        b.len() > 0,
    ensures
        merge_laws::joined_text(a + b) == merge_laws::joined_text(a).push('\n')
            + merge_laws::joined_text(b),
    decreases b.len(),
{
    let before = b.drop_last();
    assert(a + b == (a + before).push(b.last()));
    assert(b == before.push(b.last()));
    merge_laws::lemma_joined_push(a + before, b.last());
    merge_laws::lemma_joined_push(before, b.last());
    if before.len() == 0 {
        assert(a + before == a);
    } else {
        lemma_joined_concat(a, before);
        let x = merge_laws::joined_text(a).push('\n');
        let y = merge_laws::joined_text(before);
        assert((x + y).push('\n') + b.last().text == x + (y.push('\n') + b.last().text));
    }
}

/// Chunks can be merged wherever the tokenizer takes every run of them in one.
pub proof fn law_merge_succeeds(chunks: Seq<RawChunkView>, min: nat)
    requires
        forall|a: int, b: int|
            0 <= a < b <= chunks.len() ==> tokenizer::token_count(
                (#[trigger] in_one(chunks, a, b)).text,
            ) is Some,
    ensures
        merge::merged(chunks, min) is Some,
{
    let n = chunks.len() as int;
    if n > 1 {
        assert(chunks.take(n) == chunks);
        lemma_fold_succeeds(chunks, min, n);
        let (groups, a) = lemma_merging(chunks, min, n);
        let v = merge::merge_fold(merge::merge_start(min), chunks, chunks.len()).unwrap();
        let last = groups[groups.len() - 1];
        assert(v.out.last() == in_one(chunks, last.0, n));
    }
}

proof fn lemma_fold_succeeds(chunks: Seq<RawChunkView>, min: nat, k: int)
    requires
        0 <= k <= chunks.len(),
        forall|a: int, b: int|
            0 <= a < b <= chunks.len() ==> tokenizer::token_count(
                (#[trigger] in_one(chunks, a, b)).text,
            ) is Some,
    ensures
        merge::merge_fold(merge::merge_start(min), chunks.take(k), chunks.len()) is Some,
    decreases k,
{
    if k > 0 {
        assert(chunks.take(k).drop_last() == chunks.take(k - 1));
        assert(chunks.take(k).last() == chunks[k - 1]);
        lemma_fold_succeeds(chunks, min, k - 1);
        let (groups, a) = lemma_merging(chunks, min, k - 1);
        let v = merge::merge_fold(
            merge::merge_start(min),
            chunks.take(k - 1),
            chunks.len(),
        ).unwrap();
        lemma_one_more(chunks, a, k - 1);
        assert(merge::with_pending(v, chunks[k - 1]) == in_one(chunks, a, k));
    }
}

} // verus!
