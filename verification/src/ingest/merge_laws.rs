//! What holds after small chunks have joined their neighbours.

use crate::ingest::merge;
use crate::ingest::merge::MergerView;
use crate::ingest::pack_laws;
use crate::model::RawChunkView;
use crate::text;
use crate::tokenizer;
use vstd::prelude::*;

verus! {

/// Whether a text has at least `min` tokens.
pub open spec fn has_tokens(text: Seq<char>, min: nat) -> bool {
    tokenizer::token_count(text) is Some && tokenizer::token_count(text).unwrap() >= min
}

/// The texts of the chunks, a line feed between neighbours.
pub open spec fn joined_text(chunks: Seq<RawChunkView>) -> Seq<char> {
    text::joined(pack_laws::chunk_texts(chunks), seq!['\n'])
}

/// Whether a chunk is a chunk of enough tokens with a smaller one behind it.
pub open spec fn took_tail(chunk: RawChunkView, min: nat) -> bool {
    exists|a: RawChunkView, b: RawChunkView|
        {
            &&& chunk == #[trigger] merge::glued(a, b)
            &&& has_tokens(a.text, min)
            &&& !has_tokens(b.text, min)
        }
}

/// The chunks that were emitted, and what is pending.
spec fn so_far(v: MergerView) -> Seq<RawChunkView> {
    match v.pending {
        Some(p) => v.out.push(p),
        None => v.out,
    }
}

spec fn sound(v: MergerView, chunks: Seq<RawChunkView>, k: int, min: nat) -> bool {
    &&& v.min == min
    &&& joined_text(so_far(v)) == joined_text(chunks.take(k))
    &&& so_far(v).len() <= k
    &&& k > 0 ==> so_far(v).len() > 0 && so_far(v)[0].page == chunks[0].page
    &&& forall|i: int|
        0 <= i < v.out.len() && (k < chunks.len() || i < v.out.len() - 1) ==> has_tokens(
            (#[trigger] v.out[i]).text,
            min,
        )
    &&& k == chunks.len() && k > 0 ==> v.pending is None
    &&& min == 0 ==> v.pending is None && v.out == chunks.take(k)
}

pub(crate) proof fn lemma_joined_push(list: Seq<RawChunkView>, c: RawChunkView)
    ensures
        list.len() > 0 ==> joined_text(list.push(c)) == joined_text(list).push('\n') + c.text,
        list.len() == 0 ==> joined_text(list.push(c)) == c.text,
{
    let all = pack_laws::chunk_texts(list.push(c));
    assert(all.drop_last() == pack_laws::chunk_texts(list));
    assert(joined_text(list) + seq!['\n'] == joined_text(list).push('\n'));
}

proof fn lemma_joined_glued(list: Seq<RawChunkView>, a: RawChunkView, b: RawChunkView)
    ensures
        joined_text(list.push(merge::glued(a, b))) == joined_text(list.push(a).push(b)),
{
    lemma_joined_push(list, merge::glued(a, b));
    lemma_joined_push(list, a);
    lemma_joined_push(list.push(a), b);
    if list.len() > 0 {
        assert(joined_text(list).push('\n') + (a.text.push('\n') + b.text) == (joined_text(
            list,
        ).push('\n') + a.text).push('\n') + b.text);
    }
}

proof fn lemma_merge_sound(chunks: Seq<RawChunkView>, min: nat, k: int)
    requires
        0 <= k <= chunks.len(),
        merge::merge_fold(merge::merge_start(min), chunks.take(k), chunks.len()) is Some,
    ensures
        sound(
            merge::merge_fold(merge::merge_start(min), chunks.take(k), chunks.len()).unwrap(),
            chunks,
            k,
            min,
        ),
    decreases k,
{
    let start = merge::merge_start(min);
    let total = chunks.len();
    if k > 0 {
        let before = chunks.take(k - 1);
        let chunk = chunks[k - 1];
        assert(chunks.take(k).drop_last() == before);
        assert(chunks.take(k) == before.push(chunk));
        lemma_merge_sound(chunks, min, k - 1);
        let v = merge::merge_fold(start, before, total).unwrap();
        let current = merge::with_pending(v, chunk);
        lemma_joined_push(so_far(v), chunk);
        lemma_joined_push(before, chunk);
        match v.pending {
            Some(p) => {
                lemma_joined_glued(v.out, p, chunk);
            },
            None => {},
        }
        assert(joined_text(v.out.push(current)) == joined_text(chunks.take(k)));
        let w = merge::chunk_added(
            v,
            current,
            tokenizer::token_count(current.text).unwrap(),
            k == total,
        );
        assert(so_far(w) == v.out.push(current));
    } else {
        assert(so_far(start) == chunks.take(0));
    }
}

/// Joined by line feeds, the merged chunks hold the text that the chunks held before. The first chunk
/// keeps its page, and no chunk is added. Where several remain, all but the last have the minimum,
/// and the last has it too or took a small tail. Without a minimum nothing changes.
pub proof fn law_merge(chunks: Seq<RawChunkView>, min: nat)
    requires
        merge::merged(chunks, min) is Some,
    ensures
        ({
            let out = merge::merged(chunks, min).unwrap();
            &&& joined_text(out) == joined_text(chunks)
            &&& out.len() <= chunks.len()
            &&& chunks.len() > 0 ==> out.len() > 0 && out[0].page == chunks[0].page
            &&& forall|i: int|
                0 <= i < out.len() - 1 ==> has_tokens((#[trigger] out[i]).text, min)
            &&& out.len() >= 2 ==> has_tokens(out.last().text, min) || took_tail(out.last(), min)
            &&& min == 0 ==> out == chunks
        }),
{
    let n = chunks.len() as int;
    if n > 1 {
        assert(chunks.take(n) == chunks);
        lemma_merge_sound(chunks, min, n);
        let v = merge::merge_fold(merge::merge_start(min), chunks, chunks.len()).unwrap();
        let tokens = tokenizer::token_count(v.out.last().text).unwrap();
        let out = merge::finished(v, tokens);
        let m = v.out.len() as int;
        assert(so_far(v) == v.out);
        if tokens < min && m >= 2 {
            let rest = v.out.take(m - 2);
            assert(v.out == rest.push(v.out[m - 2]).push(v.out[m - 1]));
            lemma_joined_glued(rest, v.out[m - 2], v.out[m - 1]);
            assert(out.last() == merge::glued(v.out[m - 2], v.out[m - 1]));
            assert(took_tail(out.last(), min));
            assert forall|i: int| 0 <= i < out.len() - 1 implies has_tokens(
                (#[trigger] out[i]).text,
                min,
            ) by {
                assert(out[i] == v.out[i]);
            }
        }
    }
}

/// What holds of the pages behind the first `k` chunks.
spec fn pages_sound(list: Seq<RawChunkView>, chunks: Seq<RawChunkView>, k: int, last: nat) -> bool {
    &&& pack_laws::paged(list, last)
    &&& forall|i: int, j: int|
        0 <= i < list.len() && k <= j < chunks.len() ==> (#[trigger] list[i]).page.unwrap() <= (
        #[trigger] chunks[j]).page.unwrap()
}

proof fn lemma_merge_pages(chunks: Seq<RawChunkView>, min: nat, k: int, last: nat)
    requires
        0 <= k <= chunks.len(),
        pack_laws::paged(chunks, last),
        merge::merge_fold(merge::merge_start(min), chunks.take(k), chunks.len()) is Some,
    ensures
        pages_sound(
            so_far(
                merge::merge_fold(merge::merge_start(min), chunks.take(k), chunks.len()).unwrap(),
            ),
            chunks,
            k,
            last,
        ),
    decreases k,
{
    if k > 0 {
        let start = merge::merge_start(min);
        let chunk = chunks[k - 1];
        assert(chunks.take(k).drop_last() == chunks.take(k - 1));
        assert(chunks.take(k).last() == chunk);
        lemma_merge_pages(chunks, min, k - 1, last);
        let v = merge::merge_fold(start, chunks.take(k - 1), chunks.len()).unwrap();
        let w = merge::merge_fold(start, chunks.take(k), chunks.len()).unwrap();
        let before = so_far(v);
        let now = so_far(w);
        let current = merge::with_pending(v, chunk);
        assert(now == v.out.push(current));
        assert forall|i: int| 0 <= i < now.len() implies (#[trigger] now[i]).page == (if i
            < before.len() {
            before[i].page
        } else {
            chunk.page
        }) by {
            if i < v.out.len() {
                assert(now[i] == v.out[i]);
                assert(before[i] == v.out[i]);
            } else {
                match v.pending {
                    Some(p) => {
                        assert(before[i] == p);
                    },
                    None => {},
                }
            }
        }
        assert(now.len() == before.len() || now.len() == before.len() + 1);
        assert forall|i: int, j: int| 0 <= i <= j < now.len() implies (
        #[trigger] now[i]).page.unwrap() <= (#[trigger] now[j]).page.unwrap() by {
            if j < before.len() {
                assert(before[i].page.unwrap() <= before[j].page.unwrap());
            } else if i < before.len() {
                assert(before[i].page.unwrap() <= chunks[k - 1].page.unwrap());
            }
        }
        assert forall|i: int, j: int| 0 <= i < now.len() && k <= j < chunks.len() implies (
        #[trigger] now[i]).page.unwrap() <= (#[trigger] chunks[j]).page.unwrap() by {
            if i < before.len() {
                assert(before[i].page.unwrap() <= chunks[j].page.unwrap());
            } else {
                assert(chunks[k - 1].page.unwrap() <= chunks[j].page.unwrap());
            }
        }
        assert forall|i: int| 0 <= i < now.len() implies (#[trigger] now[i]).page is Some
            && now[i].page.unwrap() <= last by {
            if i < before.len() {
                assert(before[i].page is Some);
            } else {
                assert(chunks[k - 1].page is Some);
            }
        }
    }
}

/// Where the pages of chunks never go back, nor do those of the merged chunks.
pub proof fn law_merge_pages(chunks: Seq<RawChunkView>, min: nat, last: nat)
    requires
        pack_laws::paged(chunks, last),
        merge::merged(chunks, min) is Some,
    ensures
        pack_laws::paged(merge::merged(chunks, min).unwrap(), last),
{
    let n = chunks.len() as int;
    if n > 1 {
        assert(chunks.take(n) == chunks);
        lemma_merge_sound(chunks, min, n);
        lemma_merge_pages(chunks, min, n, last);
        let v = merge::merge_fold(merge::merge_start(min), chunks, chunks.len()).unwrap();
        let out = merge::merged(chunks, min).unwrap();
        assert(so_far(v) == v.out);
        assert forall|i: int| 0 <= i < out.len() implies (#[trigger] out[i]).page == v.out[i].page by {}
        assert forall|i: int, j: int| 0 <= i <= j < out.len() implies (
        #[trigger] out[i]).page.unwrap() <= (#[trigger] out[j]).page.unwrap() by {
            assert(v.out[i].page.unwrap() <= v.out[j].page.unwrap());
        }
    }
}

} // verus!
