//! Results out of a reranker's reply.

use crate::model;
use crate::model::{Chunk, ChunkView, RetrievalResult, RetrievalResultView};
use crate::text;
use vstd::prelude::*;

verus! {

/// The position of a document in a request, with the score it got: the bit pattern of an IEEE 754
/// single.
#[derive(Debug, Clone, Copy, PartialEq, Eq, Structural)]
pub struct ScoredIndex {
    pub index: usize,
    pub score_bits: u32,
}

/// The texts to rerank.
pub open spec fn chunk_documents(chunks: Seq<ChunkView>) -> Seq<Seq<char>> {
    chunks.map_values(|c: ChunkView| c.text)
}

/// The chunks that a reply names, in its order. Positions that no document has are left out.
pub open spec fn reranked(chunks: Seq<ChunkView>, reply: Seq<ScoredIndex>) -> Seq<RetrievalResultView>
    decreases reply.len(),
{
    if reply.len() == 0 {
        seq![]
    } else {
        let before = reranked(chunks, reply.drop_last());
        let last = reply.last();
        if last.index < chunks.len() {
            before.push(
                RetrievalResultView {
                    chunk: chunks[last.index as int],
                    score_bits: last.score_bits,
                },
            )
        } else {
            before
        }
    }
}

/// The texts to rerank.
pub fn documents(chunks: &Vec<Chunk>) -> (res: Vec<String>)
    ensures
        text::texts(res@) == chunk_documents(model::chunk_views(chunks@)),
{
    let ghost all = chunk_documents(model::chunk_views(chunks@));
    let mut out: Vec<String> = Vec::new();
    let mut i: usize = 0;
    assert(text::texts(out@) == all.take(0));
    while i < chunks.len()
        invariant
            all == chunk_documents(model::chunk_views(chunks@)),
            i <= chunks@.len(),
            text::texts(out@) == all.take(i as int),
        decreases chunks@.len() - i,
    {
        let ghost before = text::texts(out@);
        out.push(chunks[i].text.clone());
        assert(text::texts(out@) == before.push(chunks@[i as int].text@));
        assert(all.take(i + 1) == all.take(i as int).push(all[i as int]));
        i = i + 1;
    }
    assert(all.take(i as int) == all);
    out
}

/// The chunks that a reply names, in its order.
pub fn rerank_results(chunks: &Vec<Chunk>, reply: &Vec<ScoredIndex>) -> (res: Vec<RetrievalResult>)
    ensures
        model::result_views(res@) == reranked(model::chunk_views(chunks@), reply@),
{
    let ghost views = model::chunk_views(chunks@);
    let mut out: Vec<RetrievalResult> = Vec::new();
    let mut i: usize = 0;
    assert(reply@.take(0).len() == 0);
    assert(model::result_views(out@) == Seq::<RetrievalResultView>::empty());
    while i < reply.len()
        invariant
            views == model::chunk_views(chunks@),
            i <= reply@.len(),
            model::result_views(out@) == reranked(views, reply@.take(i as int)),
        decreases reply@.len() - i,
    {
        let scored = reply[i];
        proof {
            assert(reply@.take(i + 1).drop_last() == reply@.take(i as int));
            assert(reply@.take(i + 1).last() == scored);
        }
        if scored.index < chunks.len() {
            let ghost before = model::result_views(out@);
            let result = RetrievalResult {
                chunk: chunks[scored.index].clone(),
                score_bits: scored.score_bits,
            };
            assert(views[scored.index as int] == chunks@[scored.index as int]@);
            out.push(result);
            assert(model::result_views(out@) == before.push(result@));
        }
        i = i + 1;
    }
    assert(reply@.take(i as int) == reply@);
    out
}

/// A reply that names only documents of the request gives as many results as it has entries.
pub proof fn law_no_document_is_lost(chunks: Seq<ChunkView>, reply: Seq<ScoredIndex>)
    requires
        forall|i: int| 0 <= i < reply.len() ==> (#[trigger] reply[i]).index < chunks.len(),
    ensures
        reranked(chunks, reply).len() == reply.len(),
        forall|i: int|
            0 <= i < reply.len() ==> #[trigger] reranked(chunks, reply)[i] == (RetrievalResultView {
                chunk: chunks[reply[i].index as int],
                score_bits: reply[i].score_bits,
            }),
    decreases reply.len(),
{
    if reply.len() > 0 {
        let before = reply.drop_last();
        assert forall|i: int| 0 <= i < before.len() implies (#[trigger] before[i]).index
            < chunks.len() by {
            assert(before[i] == reply[i]);
        }
        law_no_document_is_lost(chunks, before);
        assert(reply.last() == reply[reply.len() - 1]);
        assert forall|i: int| 0 <= i < reply.len() implies #[trigger] reranked(chunks, reply)[i] == (
        RetrievalResultView {
            chunk: chunks[reply[i].index as int],
            score_bits: reply[i].score_bits,
        }) by {
            if i < before.len() {
                assert(reranked(chunks, before)[i] == reranked(chunks, reply)[i]);
                assert(before[i] == reply[i]);
            }
        }
    }
}

/// The results are those of the reply's entries that name a document of the request, in order: each
/// is that document's chunk with the entry's score.
pub proof fn law_reranked(chunks: Seq<ChunkView>, reply: Seq<ScoredIndex>)
    ensures
        reranked(chunks, reply) == reply.filter(
            |s: ScoredIndex| s.index < chunks.len(),
        ).map_values(
            |s: ScoredIndex|
                RetrievalResultView { chunk: chunks[s.index as int], score_bits: s.score_bits },
        ),
    decreases reply.len(),
{
    reveal(Seq::filter);
    if reply.len() > 0 {
        law_reranked(chunks, reply.drop_last());
    }
}

/// The texts to rerank are those of the chunks, one each and in order.
pub proof fn law_documents(chunks: Seq<ChunkView>)
    ensures
        chunk_documents(chunks).len() == chunks.len(),
        forall|i: int| 0 <= i < chunks.len() ==> #[trigger] chunk_documents(chunks)[i] == chunks[i].text,
{
}

} // verus!
