//! What holds of the chunks of every oversized section.

use crate::ingest::sections;
use crate::ingest::sections::SectionView;
use crate::ingest::split;
use crate::ingest::split::SplitterView;
use crate::model::RawChunkView;
use crate::text;
use crate::tokenizer;
use vstd::prelude::*;

verus! {

/// The paragraphs, each with a line feed behind it.
pub open spec fn with_feeds(paragraphs: Seq<Seq<char>>) -> Seq<Seq<char>> {
    paragraphs.map_values(|p: Seq<char>| p.push('\n'))
}

/// The tokens of some texts, counted text by text.
pub open spec fn tokens_in(texts: Seq<Seq<char>>) -> nat
    decreases texts.len(),
{
    if texts.len() == 0 {
        0
    } else {
        tokens_in(texts.drop_last()) + tokenizer::token_count(texts.last()).unwrap()
    }
}

/// What is emitted of a paragraph: all of it, or the texts of its slices if it is over the limit.
pub open spec fn body(paragraph: Seq<char>, max: nat) -> Seq<char> {
    match tokenizer::cl100k_encode(paragraph.push('\n')) {
        Some(tokens) => if tokens.len() <= max {
            paragraph.push('\n')
        } else {
            split::slice_texts(tokens, max).flatten_alt()
        },
        None => seq![],
    }
}

/// What is emitted of each paragraph.
pub open spec fn bodies(paragraphs: Seq<Seq<char>>, max: nat) -> Seq<Seq<char>> {
    paragraphs.map_values(|p: Seq<char>| body(p, max))
}

/// Whether a text is the paragraphs from `a` to `b`, within the limit.
pub open spec fn is_run(text: Seq<char>, paragraphs: Seq<Seq<char>>, a: int, b: int, max: nat) -> bool {
    &&& 0 <= a < b <= paragraphs.len()
    &&& text == with_feeds(paragraphs).subrange(a, b).flatten_alt()
    &&& tokens_in(with_feeds(paragraphs).subrange(a, b)) <= max
}

/// Whether a text is the slice `j` of paragraph `i`, within the limit.
pub open spec fn is_slice(text: Seq<char>, paragraphs: Seq<Seq<char>>, i: int, j: int, max: nat) -> bool {
    &&& 0 <= i < paragraphs.len()
    &&& tokenizer::cl100k_encode(paragraphs[i].push('\n')) is Some
    &&& {
        let parts = split::slices(tokenizer::cl100k_encode(paragraphs[i].push('\n')).unwrap(), max);
        &&& 0 <= j < parts.len()
        &&& parts[j].len() <= max
        &&& text == tokenizer::text_of_tokens(parts[j])
    }
}

/// Whether a text is made of whole paragraphs, or of one slice of a paragraph, within the limit.
pub open spec fn fits(text: Seq<char>, paragraphs: Seq<Seq<char>>, max: nat) -> bool {
    ||| exists|a: int, b: int| is_run(text, paragraphs, a, b, max)
    ||| exists|i: int, j: int| is_slice(text, paragraphs, i, j, max)
}

/// Whether chunks are the texts of `raw` on one page, all but the first behind the prefix.
pub open spec fn are_prefixed(
    chunks: Seq<RawChunkView>,
    prefix: Option<Seq<char>>,
    page: u32,
    raw: Seq<Seq<char>>,
) -> bool {
    &&& chunks.len() == raw.len()
    &&& forall|i: int|
        0 <= i < chunks.len() ==> #[trigger] chunks[i] == (RawChunkView {
            text: if i == 0 || prefix is None {
                raw[i]
            } else {
                prefix.unwrap() + raw[i]
            },
            page: Some(page),
        })
}

/// Whether `raw` is a division of the paragraphs' bodies into texts within the limit.
pub open spec fn is_division(raw: Seq<Seq<char>>, paragraphs: Seq<Seq<char>>, max: nat) -> bool {
    &&& forall|i: int| 0 <= i < raw.len() ==> fits(#[trigger] raw[i], paragraphs, max)
    &&& raw.flatten_alt() == bodies(paragraphs, max).flatten_alt()
}

/// The slices of tokens are as long as the limit, but for the last one, which is no longer; none is
/// empty, and one after another they are the tokens.
pub proof fn law_slices(tokens: Seq<u32>, n: nat)
    requires
        n > 0,
    ensures
        split::slices(tokens, n).flatten_alt() == tokens,
        forall|j: int|
            0 <= j < split::slices(tokens, n).len() ==> 0 < (#[trigger] split::slices(
                tokens,
                n,
            )[j]).len() <= n,
        forall|j: int|
            0 <= j < split::slices(tokens, n).len() - 1 ==> (#[trigger] split::slices(
                tokens,
                n,
            )[j]).len() == n,
    decreases tokens.len(),
{
    let all = split::slices(tokens, n);
    if tokens.len() == 0 {
    } else if tokens.len() <= n {
        lemma_flatten_push(seq![], tokens);
        assert(all == Seq::<Seq<u32>>::empty().push(tokens));
        assert(Seq::<Seq<u32>>::empty().flatten_alt() + tokens == tokens);
    } else {
        let rest = split::slices(tokens.skip(n as int), n);
        law_slices(tokens.skip(n as int), n);
        lemma_flatten_cons(tokens.take(n as int), rest);
        assert(tokens.take(n as int) + tokens.skip(n as int) == tokens);
        assert forall|j: int| 0 <= j < all.len() implies 0 < (#[trigger] all[j]).len() <= n by {
            if j > 0 {
                assert(all[j] == rest[j - 1]);
            }
        }
        assert forall|j: int| 0 <= j < all.len() - 1 implies (#[trigger] all[j]).len() == n by {
            if j > 0 {
                assert(all[j] == rest[j - 1]);
            }
        }
    }
}

proof fn lemma_flatten_cons<T>(head: Seq<T>, rest: Seq<Seq<T>>)
    ensures
        (seq![head] + rest).flatten_alt() == head + rest.flatten_alt(),
    decreases rest.len(),
{
    let all = seq![head] + rest;
    if rest.len() == 0 {
        lemma_flatten_push(seq![], head);
        assert(all == Seq::<Seq<T>>::empty().push(head));
        assert(Seq::<Seq<T>>::empty().flatten_alt() + head == head + rest.flatten_alt());
    } else {
        assert(all.drop_last() == seq![head] + rest.drop_last());
        lemma_flatten_cons(head, rest.drop_last());
    }
}

pub(crate) proof fn lemma_flatten_concat<T>(a: Seq<Seq<T>>, b: Seq<Seq<T>>)
    ensures
        (a + b).flatten_alt() == a.flatten_alt() + b.flatten_alt(),
    decreases b.len(),
{
    if b.len() == 0 {
        assert(a + b == a);
        assert(a.flatten_alt() + Seq::<T>::empty() == a.flatten_alt());
    } else {
        assert((a + b).drop_last() == a + b.drop_last());
        lemma_flatten_concat(a, b.drop_last());
    }
}

pub(crate) proof fn lemma_flatten_push<T>(a: Seq<Seq<T>>, x: Seq<T>)
    ensures
        a.push(x).flatten_alt() == a.flatten_alt() + x,
{
    assert(a.push(x).drop_last() == a);
}

/// What holds behind the first `k` paragraphs: `raw` was emitted, and the paragraphs from `a` on are
/// gathered.
spec fn sound(
    v: SplitterView,
    start: SplitterView,
    paragraphs: Seq<Seq<char>>,
    k: int,
    raw: Seq<Seq<char>>,
    a: int,
) -> bool {
    &&& v.prefix == start.prefix && v.page == start.page && v.max == start.max
    &&& are_prefixed(v.out, v.prefix, v.page, raw)
    &&& forall|i: int| 0 <= i < raw.len() ==> fits(#[trigger] raw[i], paragraphs, v.max)
    &&& 0 <= a <= k <= paragraphs.len()
    &&& v.acc == with_feeds(paragraphs).subrange(a, k).flatten_alt()
    &&& v.acc_tokens == tokens_in(with_feeds(paragraphs).subrange(a, k))
    &&& v.acc_tokens <= v.max
    &&& v.acc.len() == 0 ==> a == k
    &&& raw.flatten_alt() + v.acc == bodies(paragraphs.take(k), v.max).flatten_alt()
}

proof fn lemma_flush_sound(
    v: SplitterView,
    start: SplitterView,
    paragraphs: Seq<Seq<char>>,
    k: int,
    raw: Seq<Seq<char>>,
    a: int,
) -> (res: Seq<Seq<char>>)
    requires
        sound(v, start, paragraphs, k, raw, a),
    ensures
        sound(split::flushed(v), start, paragraphs, k, res, k),
{
    let w = split::flushed(v);
    let none = with_feeds(paragraphs).subrange(k, k);
    assert(none.len() == 0);
    if v.acc.len() > 0 {
        let next = raw.push(v.acc);
        assert(is_run(v.acc, paragraphs, a, k, v.max));
        lemma_flatten_push(raw, v.acc);
        assert(next.flatten_alt() + Seq::<char>::empty() == next.flatten_alt());
        assert forall|i: int| 0 <= i < next.len() implies fits(
            #[trigger] next[i],
            paragraphs,
            v.max,
        ) by {
            if i < raw.len() {
                assert(next[i] == raw[i]);
            }
        }
        next
    } else {
        raw
    }
}

pub(crate) proof fn lemma_pieces_sound(
    v: SplitterView,
    pieces: Seq<Seq<char>>,
    raw: Seq<Seq<char>>,
)
    requires
        are_prefixed(v.out, v.prefix, v.page, raw),
    ensures
        ({
            let w = split::pieces_emitted(v, pieces);
            &&& w.prefix == v.prefix && w.page == v.page && w.max == v.max
            &&& w.acc == v.acc && w.acc_tokens == v.acc_tokens
            &&& are_prefixed(w.out, v.prefix, v.page, raw + pieces)
        }),
    decreases pieces.len(),
{
    if pieces.len() == 0 {
        assert(raw + pieces == raw);
    } else {
        lemma_pieces_sound(v, pieces.drop_last(), raw);
        assert(raw + pieces == (raw + pieces.drop_last()).push(pieces.last()));
    }
}

proof fn lemma_split_sound(start: SplitterView, paragraphs: Seq<Seq<char>>, k: int) -> (res: (
    Seq<Seq<char>>,
    int,
))
    requires
        start.acc.len() == 0,
        start.acc_tokens == 0,
        start.out.len() == 0,
        0 <= k <= paragraphs.len(),
        split::split_fold(start, paragraphs.take(k)) is Some,
    ensures
        sound(
            split::split_fold(start, paragraphs.take(k)).unwrap(),
            start,
            paragraphs,
            k,
            res.0,
            res.1,
        ),
    decreases k,
{
    let feeds = with_feeds(paragraphs);
    if k == 0 {
        let raw: Seq<Seq<char>> = seq![];
        assert(feeds.subrange(0, 0).len() == 0);
        assert(bodies(paragraphs.take(0), start.max).len() == 0);
        assert(raw.flatten_alt() + start.acc == Seq::<char>::empty());
        assert(start.acc == Seq::<char>::empty());
        (raw, 0)
    } else {
        let before = paragraphs.take(k - 1);
        let paragraph = paragraphs[k - 1];
        let text = paragraph.push('\n');
        assert(paragraphs.take(k).drop_last() == before);
        assert(paragraphs.take(k).last() == paragraph);
        let (raw, a) = lemma_split_sound(start, paragraphs, k - 1);
        let v = split::split_fold(start, before).unwrap();
        let tokens = tokenizer::cl100k_encode(text).unwrap();
        assert(bodies(paragraphs.take(k), v.max) == bodies(before, v.max).push(
            body(paragraph, v.max),
        ));
        lemma_flatten_push(bodies(before, v.max), body(paragraph, v.max));
        let flushed_raw = lemma_flush_sound(v, start, paragraphs, k - 1, raw, a);
        let f = split::flushed(v);
        assert(f.acc == Seq::<char>::empty());
        assert(flushed_raw.flatten_alt() + f.acc == flushed_raw.flatten_alt());
        if tokens.len() > v.max {
            let pieces = split::slice_texts(tokens, v.max);
            lemma_pieces_sound(f, pieces, flushed_raw);
            law_slices(tokens, v.max);
            let next = flushed_raw + pieces;
            lemma_flatten_concat(flushed_raw, pieces);
            assert(next.flatten_alt() + f.acc == next.flatten_alt());
            assert(feeds.subrange(k, k).len() == 0);
            assert forall|i: int| 0 <= i < next.len() implies fits(
                #[trigger] next[i],
                paragraphs,
                v.max,
            ) by {
                if i < flushed_raw.len() {
                    assert(next[i] == flushed_raw[i]);
                } else {
                    assert(is_slice(next[i], paragraphs, k - 1, i - flushed_raw.len(), v.max));
                }
            }
            (next, k)
        } else {
            let fresh = v.acc.len() > 0 && v.acc_tokens + tokens.len() > v.max;
            let from: int = if fresh {
                k - 1
            } else {
                a
            };
            let w = if fresh {
                f
            } else {
                v
            };
            let emitted = if fresh {
                flushed_raw
            } else {
                raw
            };
            let run = feeds.subrange(from, k);
            assert(run.drop_last() == feeds.subrange(from, k - 1));
            assert(run.last() == text);
            assert((emitted.flatten_alt() + w.acc) + text == emitted.flatten_alt() + (w.acc + text));
            (emitted, from)
        }
    }
}

/// The chunks of an oversized section are on its page and hold what its paragraphs hold, in order and
/// without loss beyond a paragraph that is cut by tokens. Each is made of whole paragraphs or of one
/// slice of a paragraph, within the limit that the prefix leaves, and all but the first start with
/// the prefix.
pub proof fn law_split(section: SectionView, max_size: nat)
    requires
        split::split_section(section, max_size) is Some,
    ensures
        ({
            let chunks = split::split_section(section, max_size).unwrap();
            let (prefix, max) = split::split_budget(section, max_size).unwrap();
            exists|raw: Seq<Seq<char>>|
                {
                    &&& #[trigger] are_prefixed(chunks, prefix, section.page, raw)
                    &&& is_division(raw, section.paragraphs, max)
                }
        }),
{
    let (prefix, max) = split::split_budget(section, max_size).unwrap();
    let start = split::split_start(prefix, section.page, max);
    let n = section.paragraphs.len() as int;
    assert(section.paragraphs.take(n) == section.paragraphs);
    let (raw, a) = lemma_split_sound(start, section.paragraphs, n);
    let v = split::split_fold(start, section.paragraphs).unwrap();
    let done = lemma_flush_sound(v, start, section.paragraphs, n, raw, a);
    assert(split::flushed(v).acc == Seq::<char>::empty());
    assert(done.flatten_alt() + split::flushed(v).acc == done.flatten_alt());
    assert(is_division(done, section.paragraphs, max));
    let chunks = split::split_section(section, max_size).unwrap();
    assert(are_prefixed(chunks, prefix, section.page, done));
}

/// Whether chunks hold all the paragraphs of a section, each with a line feed behind it, provided that
/// no character is cut apart. All chunks but the first have the prefix before that.
pub open spec fn keeps_paragraphs(
    chunks: Seq<RawChunkView>,
    section: SectionView,
    max_size: nat,
) -> bool {
    let (prefix, max) = split::split_budget(section, max_size).unwrap();
    (forall|i: int|
        0 <= i < section.paragraphs.len() ==> split::paragraph_whole(
            #[trigger] section.paragraphs[i],
            max,
        )) ==> exists|raw: Seq<Seq<char>>|
        {
            &&& #[trigger] are_prefixed(chunks, prefix, section.page, raw)
            &&& raw.flatten_alt() == with_feeds(section.paragraphs).flatten_alt()
        }
}

/// Paragraphs that are emitted whole are all kept.
pub(crate) proof fn lemma_keeps_paragraphs(section: SectionView, max_size: nat)
    requires
        split::split_section(section, max_size) is Some,
        ({
            let (prefix, max) = split::split_budget(section, max_size).unwrap();
            forall|i: int|
                0 <= i < section.paragraphs.len() && split::paragraph_whole(
                    #[trigger] section.paragraphs[i],
                    max,
                ) ==> body(section.paragraphs[i], max) == section.paragraphs[i].push('\n')
        }),
    ensures
        keeps_paragraphs(split::split_section(section, max_size).unwrap(), section, max_size),
{
    let (prefix, max) = split::split_budget(section, max_size).unwrap();
    let chunks = split::split_section(section, max_size).unwrap();
    law_split(section, max_size);
    let raw = choose|raw: Seq<Seq<char>>|
        {
            &&& #[trigger] are_prefixed(chunks, prefix, section.page, raw)
            &&& is_division(raw, section.paragraphs, max)
        };
    if forall|i: int|
        0 <= i < section.paragraphs.len() ==> split::paragraph_whole(
            #[trigger] section.paragraphs[i],
            max,
        ) {
        assert(bodies(section.paragraphs, max) == with_feeds(section.paragraphs));
        assert(are_prefixed(chunks, prefix, section.page, raw));
    }
}

/// A heading line that takes less than a quarter of the maximum is the prefix, with a line feed behind
/// it, and what it takes is not left for the texts. Any other section has no prefix, and the whole
/// maximum for its texts.
pub proof fn law_split_budget(section: SectionView, max_size: nat)
    requires
        split::split_budget(section, max_size) is Some,
    ensures
        ({
            let (prefix, max) = split::split_budget(section, max_size).unwrap();
            let line = text::lines(section.paragraphs[0])[0].push('\n');
            let n = tokenizer::token_count(line).unwrap();
            if sections::heading_level(section) is Some && n * 4 < max_size {
                prefix == Some(line) && max + n == max_size
            } else {
                prefix is None && max == max_size
            }
        }),
        ({
            let (prefix, max) = split::split_budget(section, max_size).unwrap();
            match prefix {
                Some(p) => {
                    &&& split::heading_prefix(section) == Some(p)
                    &&& tokenizer::token_count(p).unwrap() + max == max_size
                    &&& tokenizer::token_count(p).unwrap() * 4 < max_size
                },
                None => max == max_size,
            }
        }),
{
}

proof fn lemma_pieces_len(v: SplitterView, pieces: Seq<Seq<char>>)
    ensures
        split::pieces_emitted(v, pieces).out.len() == v.out.len() + pieces.len(),
    decreases pieces.len(),
{
    if pieces.len() > 0 {
        lemma_pieces_len(v, pieces.drop_last());
    }
}

proof fn lemma_something_gathered(start: SplitterView, paragraphs: Seq<Seq<char>>)
    requires
        paragraphs.len() > 0,
        split::split_fold(start, paragraphs) is Some,
    ensures
        ({
            let v = split::split_fold(start, paragraphs).unwrap();
            v.out.len() > 0 || v.acc.len() > 0
        }),
{
    let v = split::split_fold(start, paragraphs.drop_last()).unwrap();
    let tokens = tokenizer::cl100k_encode(paragraphs.last().push('\n')).unwrap();
    if tokens.len() > v.max {
        law_slices(tokens, v.max);
        lemma_pieces_len(split::flushed(v), split::slice_texts(tokens, v.max));
    }
}

/// A section with a paragraph has a chunk.
pub proof fn law_split_is_not_empty(section: SectionView, max_size: nat)
    requires
        section.paragraphs.len() > 0,
        split::split_section(section, max_size) is Some,
    ensures
        split::split_section(section, max_size).unwrap().len() > 0,
{
    let (prefix, max) = split::split_budget(section, max_size).unwrap();
    lemma_something_gathered(
        split::split_start(prefix, section.page, max),
        section.paragraphs,
    );
}

} // verus!
