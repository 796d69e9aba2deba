//! What the metrics of a retrieval say of where the expected passages lie.

use crate::eval::checks;
use crate::eval::coverage;
use crate::eval::coverage::Coverage;
use crate::eval::coverage_laws;
use crate::eval::examples;
use crate::eval::examples::EvalExample;
use crate::eval::metrics;
use crate::eval::normalize;
use crate::model::RetrievalResultView;
use crate::text;
use vstd::prelude::*;

verus! {

/// Whether a chunk holds a passage: the compared form of one of its phrasings is part of the compared
/// form of the chunk's text.
pub open spec fn chunk_holds(result: RetrievalResultView, passage: Seq<Seq<char>>) -> bool {
    exists|p: int|
        0 <= p < passage.len() && text::occurs(
            normalize::normalized(result.chunk.text),
            normalize::normalized(#[trigger] passage[p]),
        )
}

/// Whether one of the first `depth` chunks holds a passage.
pub open spec fn passage_within(
    passage: Seq<Seq<char>>,
    retrieval: Seq<RetrievalResultView>,
    depth: int,
) -> bool {
    exists|i: int|
        0 <= i < depth && i < retrieval.len() && chunk_holds(#[trigger] retrieval[i], passage)
}

/// What is compared of a chunk is its text.
proof fn lemma_compared(passage: Seq<Seq<char>>, retrieval: Seq<RetrievalResultView>)
    ensures
        coverage::compared_texts(retrieval).len() == retrieval.len(),
        forall|i: int|
            #![trigger retrieval[i]]
            #![trigger coverage::compared_texts(retrieval)[i]]
            0 <= i < retrieval.len() ==> (chunk_holds(retrieval[i], passage)
                <==> checks::any_phrase_in(passage, coverage::compared_texts(retrieval)[i])),
{
    assert forall|i: int|
        #![trigger retrieval[i]]
        0 <= i < retrieval.len() implies (chunk_holds(retrieval[i], passage)
        <==> checks::any_phrase_in(passage, coverage::compared_texts(retrieval)[i])) by {
        let hay = coverage::compared_texts(retrieval)[i];
        assert(hay == normalize::normalized(retrieval[i].chunk.text));
    }
}

/// Whether there are expected passages, and each is in one of the first `depth` chunks.
pub open spec fn all_within(
    example: EvalExample,
    retrieval: Seq<RetrievalResultView>,
    depth: int,
) -> bool {
    &&& example.expected_chunks@.len() > 0
    &&& forall|k: int|
        0 <= k < example.expected_chunks@.len() ==> passage_within(
            (#[trigger] example.expected_chunks@[k])@,
            retrieval,
            depth,
        )
}

/// Whether chunk `i` is the first that holds a passage.
pub open spec fn first_holds(
    passage: Seq<Seq<char>>,
    retrieval: Seq<RetrievalResultView>,
    i: int,
) -> bool {
    &&& 0 <= i < retrieval.len()
    &&& passage_within(passage, retrieval, i + 1)
    &&& !passage_within(passage, retrieval, i)
}

/// Whether chunk `i` is the first that holds some expected passage.
pub open spec fn contributes(
    example: EvalExample,
    retrieval: Seq<RetrievalResultView>,
    i: int,
) -> bool {
    exists|k: int|
        0 <= k < example.expected_chunks@.len() && first_holds(
            (#[trigger] example.expected_chunks@[k])@,
            retrieval,
            i,
        )
}

/// Whether a coverage is that of an example's passages by a retrieval.
pub open spec fn is_coverage(
    c: Option<Coverage>,
    example: EvalExample,
    retrieval: Seq<RetrievalResultView>,
) -> bool {
    coverage::coverage(example, retrieval) == (match c {
        Some(c) => Some((c.rank as int, c.floor as int)),
        None => None,
    })
}

/// There is a coverage exactly when all passages are found, and its rank is the depth, counted from
/// zero, at which the last of them is.
pub proof fn law_rank_is_depth(example: EvalExample, retrieval: Seq<RetrievalResultView>, depth: int)
    requires
        0 <= depth,
    ensures
        all_within(example, retrieval, depth) <==> coverage::coverage(example, retrieval) is Some
            && coverage::coverage(example, retrieval).unwrap().0 < depth,
        coverage::coverage(example, retrieval) is Some ==> 0 <= coverage::coverage(
            example,
            retrieval,
        ).unwrap().0 < retrieval.len(),
{
    let passages = examples::passage_views(example.expected_chunks@);
    let chunks = coverage::compared_texts(retrieval);
    coverage_laws::law_coverage_exists(passages, chunks);
    coverage_laws::lemma_earliest(passages, chunks);
    match coverage::coverage(example, retrieval) {
        Some(c) => {
            let positions = coverage::earliest(passages, chunks).unwrap();
            coverage::lemma_deepest(positions);
            let d = choose|d: int| 0 <= d < positions.len() && #[trigger] positions[d] == c.0;
            assert(0 <= positions[d] < chunks.len());
            if c.0 < depth {
                assert forall|k: int|
                    0 <= k < example.expected_chunks@.len() implies passage_within(
                    (#[trigger] example.expected_chunks@[k])@,
                    retrieval,
                    depth,
                ) by {
                    assert(passages[k] == example.expected_chunks@[k]@);
                    lemma_compared(passages[k], retrieval);
                    coverage_laws::law_first_with(passages[k], chunks, 0);
                    assert(coverage::first_with(passages[k], chunks, 0) == Some(positions[k]));
                    assert(positions[k] <= c.0);
                    assert(checks::any_phrase_in(passages[k], chunks[positions[k]]));
                }
            }
            if all_within(example, retrieval, depth) {
                assert(passages[d] == example.expected_chunks@[d]@);
                lemma_compared(passages[d], retrieval);
                assert(passage_within(example.expected_chunks@[d]@, retrieval, depth));
                coverage_laws::law_first_with(passages[d], chunks, 0);
                assert(coverage::first_with(passages[d], chunks, 0) == Some(positions[d]));
            }
        },
        None => {
            if all_within(example, retrieval, depth) {
                assert forall|k: int| 0 <= k < passages.len() implies coverage_laws::found(
                    #[trigger] passages[k],
                    chunks,
                ) by {
                    assert(passages[k] == example.expected_chunks@[k]@);
                    lemma_compared(passages[k], retrieval);
                    assert(passage_within(example.expected_chunks@[k]@, retrieval, depth));
                }
            }
        },
    }
}

/// Recall at a depth says whether every expected passage is found among as many chunks. The passages
/// were found at the least depth that reaches all of them, and the reciprocal rank is one over it.
pub proof fn law_recall_is_depth(
    example: EvalExample,
    retrieval: Seq<RetrievalResultView>,
    c: Option<Coverage>,
    elapsed_millis: u64,
)
    requires
        is_coverage(c, example, retrieval),
        retrieval.len() <= usize::MAX,
    ensures
        ({
            let m = metrics::metrics_for(c, elapsed_millis);
            &&& m.recall_at_1 <==> all_within(example, retrieval, 1)
            &&& m.recall_at_3 <==> all_within(example, retrieval, 3)
            &&& m.recall_at_5 <==> all_within(example, retrieval, 5)
            &&& m.recall_at_10 <==> all_within(example, retrieval, 10)
            &&& m.found_at > 0 <==> all_within(example, retrieval, retrieval.len() as int)
            &&& m.found_at > 0 ==> all_within(example, retrieval, m.found_at as int) && !all_within(
                example,
                retrieval,
                m.found_at - 1,
            )
            &&& m.found_at > 0 ==> m.mrr.numerator == 1 && m.mrr.denominator == m.found_at
            &&& m.found_at == 0 ==> m.mrr.numerator == 0
            &&& m.elapsed_millis == elapsed_millis
        }),
{
    law_rank_is_depth(example, retrieval, 1);
    law_rank_is_depth(example, retrieval, 3);
    law_rank_is_depth(example, retrieval, 5);
    law_rank_is_depth(example, retrieval, 10);
    law_rank_is_depth(example, retrieval, retrieval.len() as int);
    match c {
        Some(c) => {
            law_rank_is_depth(example, retrieval, c.rank + 1);
            law_rank_is_depth(example, retrieval, c.rank as int);
        },
        None => {},
    }
}

/// Recall at a depth says whether as many chunks alone have a coverage.
pub proof fn law_coverage_of_the_first(
    example: EvalExample,
    retrieval: Seq<RetrievalResultView>,
    depth: int,
)
    requires
        0 <= depth <= retrieval.len(),
    ensures
        coverage::coverage(example, retrieval.take(depth)) is Some <==> all_within(
            example,
            retrieval,
            depth,
        ),
{
    let first = retrieval.take(depth);
    law_rank_is_depth(example, first, depth);
    assert forall|k: int| 0 <= k < example.expected_chunks@.len() implies passage_within(
        (#[trigger] example.expected_chunks@[k])@,
        first,
        depth,
    ) == passage_within(example.expected_chunks@[k]@, retrieval, depth) by {
        let passage = example.expected_chunks@[k]@;
        if passage_within(passage, retrieval, depth) {
            let i = choose|i: int|
                0 <= i < depth && i < retrieval.len() && chunk_holds(
                    #[trigger] retrieval[i],
                    passage,
                );
            assert(chunk_holds(first[i], passage));
        }
        if passage_within(passage, first, depth) {
            let i = choose|i: int|
                0 <= i < depth && i < first.len() && chunk_holds(#[trigger] first[i], passage);
            assert(chunk_holds(retrieval[i], passage));
        }
    }
}

/// The positions at which passages are first found are those of the chunks that contribute.
proof fn lemma_contributing(example: EvalExample, retrieval: Seq<RetrievalResultView>, i: int)
    requires
        coverage::coverage(example, retrieval) is Some,
    ensures
        coverage::earliest(
            examples::passage_views(example.expected_chunks@),
            coverage::compared_texts(retrieval),
        ).unwrap().contains(i) == contributes(example, retrieval, i),
{
    let passages = examples::passage_views(example.expected_chunks@);
    let chunks = coverage::compared_texts(retrieval);
    let positions = coverage::earliest(passages, chunks).unwrap();
    coverage_laws::lemma_earliest(passages, chunks);
    assert forall|k: int| 0 <= k < passages.len() implies (positions[k] == i <==> first_holds(
        (#[trigger] example.expected_chunks@[k])@,
        retrieval,
        i,
    )) by {
        assert(passages[k] == example.expected_chunks@[k]@);
        lemma_compared(passages[k], retrieval);
        coverage_laws::law_first_with(passages[k], chunks, 0);
        assert(coverage::first_with(passages[k], chunks, 0) == Some(positions[k]));
        let at = positions[k];
        if at == i {
            assert(chunk_holds(retrieval[i], passages[k]));
        }
        if first_holds(passages[k], retrieval, i) {
            let j = choose|j: int|
                0 <= j < i + 1 && j < retrieval.len() && chunk_holds(
                    #[trigger] retrieval[j],
                    passages[k],
                );
            assert(at <= j);
            assert(chunk_holds(retrieval[at], passages[k]));
        }
    }
    if positions.contains(i) {
        let k = choose|k: int| 0 <= k < positions.len() && positions[k] == i;
        assert(first_holds(example.expected_chunks@[k]@, retrieval, i));
    }
    if contributes(example, retrieval, i) {
        let k = choose|k: int|
            0 <= k < example.expected_chunks@.len() && first_holds(
                (#[trigger] example.expected_chunks@[k])@,
                retrieval,
                i,
            );
        assert(positions[k] == i);
    }
}

/// The floor is one less than the number of chunks that are the first to hold some passage.
pub proof fn law_floor_counts(example: EvalExample, retrieval: Seq<RetrievalResultView>)
    requires
        coverage::coverage(example, retrieval) is Some,
    ensures
        Set::new(|i: int| contributes(example, retrieval, i)).finite(),
        coverage::coverage(example, retrieval).unwrap().1 + 1 == Set::new(
            |i: int| contributes(example, retrieval, i),
        ).len(),
{
    let positions = coverage::earliest(
        examples::passage_views(example.expected_chunks@),
        coverage::compared_texts(retrieval),
    ).unwrap();
    let all = Set::new(|i: int| contributes(example, retrieval, i));
    assert forall|i: int| positions.to_set().contains(i) == all.contains(i) by {
        lemma_contributing(example, retrieval, i);
    }
    assert(positions.to_set() =~= all);
    vstd::seq_lib::seq_to_set_is_finite(positions);
}

/// Coverage is perfect where the passages are found and each chunk down to the last of them is the
/// first that holds one.
pub proof fn law_perfect_coverage(
    example: EvalExample,
    retrieval: Seq<RetrievalResultView>,
    c: Option<Coverage>,
    elapsed_millis: u64,
)
    requires
        is_coverage(c, example, retrieval),
        retrieval.len() <= usize::MAX,
    ensures
        ({
            let m = metrics::metrics_for(c, elapsed_millis);
            m.perfect_coverage <==> m.found_at > 0 && forall|i: int|
                0 <= i < m.found_at ==> #[trigger] contributes(example, retrieval, i)
        }),
{
    let passages = examples::passage_views(example.expected_chunks@);
    let chunks = coverage::compared_texts(retrieval);
    law_rank_is_depth(example, retrieval, 0);
    match c {
        Some(c) => {
            let positions = coverage::earliest(passages, chunks).unwrap();
            coverage_laws::law_floor(passages, chunks);
            assert forall|i: int| #[trigger] positions.contains(i) == contributes(
                example,
                retrieval,
                i,
            ) by {
                lemma_contributing(example, retrieval, i);
            }
            if forall|i: int| 0 <= i < c.rank + 1 ==> #[trigger] contributes(example, retrieval, i) {
                assert forall|i: int| 0 <= i <= c.rank implies #[trigger] positions.contains(i) by {
                    assert(contributes(example, retrieval, i));
                }
            }
            if forall|i: int| 0 <= i <= c.rank ==> #[trigger] positions.contains(i) {
                assert forall|i: int| 0 <= i < c.rank + 1 implies #[trigger] contributes(
                    example,
                    retrieval,
                    i,
                ) by {
                    assert(positions.contains(i));
                }
            }
        },
        None => {},
    }
}

} // verus!
