//! Merges chunks that are too small with their neighbours.

use crate::model;
use crate::model::{RawChunk, RawChunkView};
use crate::tokenizer;
use vstd::prelude::*;

verus! {

/// Gathers chunks until they have `min` tokens.
#[derive(Debug)]
pub struct Merger {
    pub min: usize,
    pub pending: Option<RawChunk>,
    pub out: Vec<RawChunk>,
}

/// What a [`Merger`] holds.
#[verifier::ext_equal]
pub struct MergerView {
    pub min: nat,
    pub pending: Option<RawChunkView>,
    pub out: Seq<RawChunkView>,
}

impl View for Merger {
    type V = MergerView;

    open spec fn view(&self) -> MergerView {
        MergerView {
            min: self.min as nat,
            pending: match self.pending {
                Some(c) => Some(c@),
                None => None,
            },
            out: model::raw_views(self.out@),
        }
    }
}

/// Before the first chunk.
pub open spec fn merge_start(min: nat) -> MergerView {
    MergerView { min, pending: None, out: seq![] }
}

/// Two chunks in one, on the page of the first.
pub open spec fn glued(a: RawChunkView, b: RawChunkView) -> RawChunkView {
    RawChunkView { text: a.text.push('\n') + b.text, page: a.page }
}

/// A chunk behind what is pending.
pub open spec fn with_pending(v: MergerView, chunk: RawChunkView) -> RawChunkView {
    match v.pending {
        Some(p) => glued(p, chunk),
        None => chunk,
    }
}

/// What was pending together with the next chunk has `tokens` tokens: it is emitted if that is
/// enough or nothing follows, and is pending otherwise.
pub open spec fn chunk_added(
    v: MergerView,
    current: RawChunkView,
    tokens: nat,
    last: bool,
) -> MergerView {
    if tokens >= v.min || last {
        MergerView { pending: None, out: v.out.push(current), ..v }
    } else {
        MergerView { pending: Some(current), ..v }
    }
}

/// The chunks at the end: a last one of too few tokens joins the one before it.
pub open spec fn finished(v: MergerView, last_tokens: nat) -> Seq<RawChunkView> {
    let n = v.out.len() as int;
    if last_tokens < v.min && n >= 2 {
        v.out.take(n - 2).push(glued(v.out[n - 2], v.out[n - 1]))
    } else {
        v.out
    }
}

/// One more chunk; `None` where the tokenizer reports an error.
pub open spec fn merge_step(v: MergerView, chunk: RawChunkView, last: bool) -> Option<MergerView> {
    match tokenizer::token_count(with_pending(v, chunk).text) {
        Some(n) => Some(chunk_added(v, with_pending(v, chunk), n, last)),
        None => None,
    }
}

/// The state behind some of `total` chunks.
pub open spec fn merge_fold(v: MergerView, chunks: Seq<RawChunkView>, total: nat) -> Option<MergerView>
    decreases chunks.len(),
{
    if chunks.len() == 0 {
        Some(v)
    } else {
        match merge_fold(v, chunks.drop_last(), total) {
            Some(w) => merge_step(w, chunks.last(), chunks.len() == total),
            None => None,
        }
    }
}

/// The chunks after those of fewer than `min` tokens have joined a neighbour: the next chunk, or for
/// the last one the chunk before it. `None` where the tokenizer reports an error.
pub open spec fn merged(chunks: Seq<RawChunkView>, min: nat) -> Option<Seq<RawChunkView>> {
    if chunks.len() <= 1 {
        Some(chunks)
    } else {
        match merge_fold(merge_start(min), chunks, chunks.len()) {
            Some(v) => match tokenizer::token_count(v.out.last().text) {
                Some(n) => Some(finished(v, n)),
                None => None,
            },
            None => None,
        }
    }
}

/// Two chunks in one, on the page of the first.
fn glue(a: RawChunk, b: RawChunk) -> (res: RawChunk)
    ensures
        res@ == glued(a@, b@),
{
    let mut text = a.text;
    text.push('\n');
    text.append(b.text.as_str());
    RawChunk { text, page: a.page }
}

impl Merger {
    /// A merger with nothing pending.
    pub fn new(min: usize) -> (res: Self)
        ensures
            res@ == merge_start(min as nat),
    {
        let res = Merger { min, pending: None, out: Vec::new() };
        assert(res@ == merge_start(min as nat));
        res
    }

    /// Takes what is pending, with `chunk` behind it.
    pub fn take_with(&mut self, chunk: RawChunk) -> (res: RawChunk)
        ensures
            res@ == with_pending(old(self)@, chunk@),
            final(self)@ == (MergerView { pending: None, ..old(self)@ }),
    {
        match self.pending.take() {
            Some(p) => glue(p, chunk),
            None => chunk,
        }
    }

    /// Adds a chunk of `tokens` tokens.
    pub fn add_chunk(&mut self, current: RawChunk, tokens: usize, last: bool)
        ensures
            final(self)@ == chunk_added(
                (MergerView { pending: None, ..old(self)@ }),
                current@,
                tokens as nat,
                last,
            ),
    {
        self.pending = None;
        if tokens >= self.min || last {
            let ghost before = self@.out;
            self.out.push(current);
            assert(self@.out == before.push(current@));
        } else {
            self.pending = Some(current);
        }
        assert(self@ == chunk_added(
            (MergerView { pending: None, ..old(self)@ }),
            current@,
            tokens as nat,
            last,
        ));
    }

    /// The chunks, where the last one has `last_tokens` tokens.
    pub fn finish(self, last_tokens: usize) -> (res: Vec<RawChunk>)
        ensures
            model::raw_views(res@) == finished(self@, last_tokens as nat),
    {
        let min: usize = self.min;
        let mut out = self.out;
        let n: usize = out.len();
        if last_tokens < min && n >= 2 {
            let ghost views = model::raw_views(out@);
            let last = out.remove(n - 1);
            let before = out.remove(n - 2);
            out.push(glue(before, last));
            assert(model::raw_views(out@) == finished(self@, last_tokens as nat));
        }
        out
    }
}

/// An error on an earlier chunk is an error of the whole.
proof fn lemma_merge_none_persists(v: MergerView, chunks: Seq<RawChunkView>, total: nat, n: int)
    requires
        0 <= n <= chunks.len(),
        merge_fold(v, chunks.take(n), total) is None,
    ensures
        merge_fold(v, chunks, total) is None,
    decreases chunks.len() - n,
{
    if n == chunks.len() {
        assert(chunks.take(n) == chunks);
    } else {
        assert(chunks.take(n + 1).drop_last() == chunks.take(n));
        lemma_merge_none_persists(v, chunks, total, n + 1);
    }
}

/// Merges chunks of fewer than `min` tokens with a neighbour. `None` where the tokenizer reports an
/// error.
pub fn merge_small_chunks(chunks: Vec<RawChunk>, min: usize) -> (res: Option<Vec<RawChunk>>)
    ensures
        merged(model::raw_views(chunks@), min as nat) == (match res {
            Some(out) => Some(model::raw_views(out@)),
            None => None,
        }),
{
    if chunks.len() <= 1 {
        return Some(chunks);
    }
    let total: usize = chunks.len();
    let ghost all = model::raw_views(chunks@);
    let ghost start = merge_start(min as nat);
    let mut merger = Merger::new(min);
    let mut i: usize = 0;
    assert(all.take(0).len() == 0);
    while i < total
        invariant
            total == chunks@.len(),
            total >= 2,
            all == model::raw_views(chunks@),
            start == merge_start(min as nat),
            merger.min == min,
            i <= total,
            merge_fold(start, all.take(i as int), total as nat) == Some(merger@),
            i == total ==> merger.out@.len() > 0,
        decreases total - i,
    {
        proof {
            assert(all.take(i + 1).drop_last() == all.take(i as int));
            assert(all.take(i + 1).last() == chunks[i as int]@);
        }
        let ghost before = merger@;
        let chunk = chunks[i].clone();
        let current = merger.take_with(chunk);
        let last = i + 1 == total;
        match tokenizer::count_plain_tokens(current.text.as_str()) {
            Some(n) => {
                let ghost view = current@;
                merger.add_chunk(current, n, last);
                assert(merger@ == chunk_added(before, view, n as nat, last));
                assert(last ==> merger@.out.len() > 0);
            },
            None => {
                proof {
                    lemma_merge_none_persists(start, all, total as nat, i + 1);
                }
                return None;
            },
        }
        i = i + 1;
    }
    assert(all.take(i as int) == all);
    let n: usize = merger.out.len();
    assert(merger@.out.last() == merger.out@[n - 1]@);
    match tokenizer::count_plain_tokens(merger.out[n - 1].text.as_str()) {
        Some(tokens) => Some(merger.finish(tokens)),
        None => None,
    }
}

} // verus!
