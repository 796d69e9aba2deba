//! Where the chunks of an oversized section begin and end.

use crate::ingest::sections::SectionView;
use crate::ingest::split;
use crate::ingest::split::SplitterView;
use crate::ingest::split_laws;
use crate::tokenizer;
use vstd::prelude::*;

verus! {

/// The tokens of a paragraph with a line feed behind it.
pub open spec fn paragraph_tokens(paragraph: Seq<char>) -> Seq<u32> {
    tokenizer::cl100k_encode(paragraph.push('\n')).unwrap()
}

/// Whether a paragraph is over the limit by itself.
pub open spec fn too_long(paragraph: Seq<char>, max: nat) -> bool {
    paragraph_tokens(paragraph).len() > max
}

/// The tokens of the paragraphs from `a` to `b`, counted one by one.
pub open spec fn run_tokens(paragraphs: Seq<Seq<char>>, a: int, b: int) -> nat {
    split_laws::tokens_in(split_laws::with_feeds(paragraphs).subrange(a, b))
}

/// Whether a piece is a paragraph that is over the limit, or a run of others within it.
pub open spec fn is_piece(paragraphs: Seq<Seq<char>>, piece: (int, int), max: nat) -> bool {
    let (a, b) = piece;
    &&& 0 <= a < b <= paragraphs.len()
    &&& too_long(paragraphs[a], max) ==> b == a + 1
    &&& !too_long(paragraphs[a], max) ==> {
        &&& forall|k: int| a <= k < b ==> !too_long(#[trigger] paragraphs[k], max)
        &&& run_tokens(paragraphs, a, b) <= max
    }
}

/// Why a piece ends where it does: it is over the limit, or the next paragraph is, or that one does
/// not fit any more.
pub open spec fn ends_there(paragraphs: Seq<Seq<char>>, piece: (int, int), max: nat) -> bool {
    let (a, b) = piece;
    ||| too_long(paragraphs[a], max)
    ||| too_long(paragraphs[b], max)
    ||| run_tokens(paragraphs, a, b) + paragraph_tokens(paragraphs[b]).len() > max
}

/// Whether the first `n` paragraphs are cut into pieces one after another.
pub open spec fn cut_into(
    paragraphs: Seq<Seq<char>>,
    pieces: Seq<(int, int)>,
    n: int,
    max: nat,
) -> bool {
    &&& pieces.len() == 0 ==> n == 0
    &&& pieces.len() > 0 ==> pieces[0].0 == 0 && pieces.last().1 == n
    &&& forall|i: int| 0 <= i < pieces.len() ==> is_piece(paragraphs, #[trigger] pieces[i], max)
    &&& forall|i: int|
        0 <= i < pieces.len() - 1 ==> (#[trigger] pieces[i]).1 == pieces[i + 1].0 && ends_there(
            paragraphs,
            pieces[i],
            max,
        )
}

/// The texts of a piece: of a paragraph that is over the limit those of its slices, and of a run one
/// text with all its paragraphs.
pub open spec fn piece_texts(paragraphs: Seq<Seq<char>>, piece: (int, int), max: nat) -> Seq<
    Seq<char>,
> {
    if too_long(paragraphs[piece.0], max) {
        split::slices(paragraph_tokens(paragraphs[piece.0]), max).map_values(
            |t: Seq<u32>| tokenizer::text_of_tokens(t),
        )
    } else {
        seq![split_laws::with_feeds(paragraphs).subrange(piece.0, piece.1).flatten_alt()]
    }
}

/// The texts of pieces, one after another.
pub open spec fn texts_of(paragraphs: Seq<Seq<char>>, pieces: Seq<(int, int)>, max: nat) -> Seq<
    Seq<char>,
> {
    pieces.map_values(|p: (int, int)| piece_texts(paragraphs, p, max)).flatten_alt()
}

proof fn lemma_piece_pushed(
    paragraphs: Seq<Seq<char>>,
    pieces: Seq<(int, int)>,
    n: int,
    piece: (int, int),
    max: nat,
)
    requires
        cut_into(paragraphs, pieces, n, max),
        piece.0 == n,
        is_piece(paragraphs, piece, max),
        pieces.len() > 0 ==> ends_there(paragraphs, pieces.last(), max),
    ensures
        cut_into(paragraphs, pieces.push(piece), piece.1, max),
        texts_of(paragraphs, pieces.push(piece), max) == texts_of(paragraphs, pieces, max)
            + piece_texts(paragraphs, piece, max),
{
    let more = pieces.push(piece);
    assert forall|i: int| 0 <= i < more.len() implies is_piece(
        paragraphs,
        #[trigger] more[i],
        max,
    ) by {
        if i < pieces.len() {
            assert(more[i] == pieces[i]);
        }
    }
    assert forall|i: int| 0 <= i < more.len() - 1 implies (#[trigger] more[i]).1 == more[i + 1].0
        && ends_there(paragraphs, more[i], max) by {
        assert(more[i] == pieces[i]);
        if i < pieces.len() - 1 {
            assert(pieces[i].1 == pieces[i + 1].0);
        }
    }
    let parts = pieces.map_values(|p: (int, int)| piece_texts(paragraphs, p, max));
    assert(more.map_values(|p: (int, int)| piece_texts(paragraphs, p, max)) == parts.push(
        piece_texts(paragraphs, piece, max),
    ));
    split_laws::lemma_flatten_push(parts, piece_texts(paragraphs, piece, max));
}

/// What holds behind the first `k` paragraphs: the pieces are done, and the paragraphs from `a` on are
/// gathered.
spec fn splitting(
    v: SplitterView,
    start: SplitterView,
    paragraphs: Seq<Seq<char>>,
    k: int,
    pieces: Seq<(int, int)>,
    a: int,
) -> bool {
    &&& v.prefix == start.prefix && v.page == start.page && v.max == start.max
    &&& 0 <= a <= k <= paragraphs.len()
    &&& cut_into(paragraphs, pieces, a, v.max)
    &&& split_laws::are_prefixed(v.out, v.prefix, v.page, texts_of(paragraphs, pieces, v.max))
    &&& v.acc == split_laws::with_feeds(paragraphs).subrange(a, k).flatten_alt()
    &&& v.acc.len() == 0 <==> a == k
    &&& v.acc_tokens == run_tokens(paragraphs, a, k)
    &&& v.acc_tokens <= v.max
    &&& forall|j: int| a <= j < k ==> !too_long(#[trigger] paragraphs[j], v.max)
    &&& pieces.len() > 0 && a == k ==> too_long(paragraphs[pieces.last().0], v.max)
    &&& pieces.len() > 0 && a < k ==> ends_there(paragraphs, pieces.last(), v.max)
}

/// What is gathered becomes a piece.
proof fn lemma_flushed(
    v: SplitterView,
    start: SplitterView,
    paragraphs: Seq<Seq<char>>,
    k: int,
    pieces: Seq<(int, int)>,
    a: int,
) -> (done: Seq<(int, int)>)
    requires
        splitting(v, start, paragraphs, k, pieces, a),
    ensures
        cut_into(paragraphs, done, k, v.max),
        split_laws::are_prefixed(
            split::flushed(v).out,
            v.prefix,
            v.page,
            texts_of(paragraphs, done, v.max),
        ),
        done == if a < k {
            pieces.push((a, k))
        } else {
            pieces
        },
{
    if a < k {
        lemma_piece_pushed(paragraphs, pieces, a, (a, k), v.max);
        let texts = texts_of(paragraphs, pieces, v.max);
        assert(!too_long(paragraphs[a], v.max));
        assert(texts + seq![v.acc] == texts.push(v.acc));
        pieces.push((a, k))
    } else {
        pieces
    }
}

proof fn lemma_run_grows(paragraphs: Seq<Seq<char>>, a: int, k: int)
    requires
        0 <= a < k <= paragraphs.len(),
    ensures
        run_tokens(paragraphs, a, k) == run_tokens(paragraphs, a, k - 1) + tokenizer::token_count(
            paragraphs[k - 1].push('\n'),
        ).unwrap(),
        split_laws::with_feeds(paragraphs).subrange(a, k).flatten_alt() == split_laws::with_feeds(
            paragraphs,
        ).subrange(a, k - 1).flatten_alt() + paragraphs[k - 1].push('\n'),
        run_tokens(paragraphs, k, k) == 0,
        split_laws::with_feeds(paragraphs).subrange(k, k).flatten_alt() == Seq::<char>::empty(),
{
    let feeds = split_laws::with_feeds(paragraphs);
    let run = feeds.subrange(a, k);
    assert(run.drop_last() == feeds.subrange(a, k - 1));
    assert(run.last() == paragraphs[k - 1].push('\n'));
    assert(feeds.subrange(k, k).len() == 0);
}

#[verifier::rlimit(30)]
proof fn lemma_splitting(start: SplitterView, paragraphs: Seq<Seq<char>>, k: int) -> (res: (
    Seq<(int, int)>,
    int,
))
    requires
        start.acc.len() == 0,
        start.acc_tokens == 0,
        start.out.len() == 0,
        0 <= k <= paragraphs.len(),
        split::split_fold(start, paragraphs.take(k)) is Some,
    ensures
        splitting(
            split::split_fold(start, paragraphs.take(k)).unwrap(),
            start,
            paragraphs,
            k,
            res.0,
            res.1,
        ),
    decreases k,
{
    let feeds = split_laws::with_feeds(paragraphs);
    let max = start.max;
    if k == 0 {
        let none = Seq::<(int, int)>::empty();
        assert(feeds.subrange(0, 0).len() == 0);
        assert(none.map_values(|p: (int, int)| piece_texts(paragraphs, p, max)).len() == 0);
        assert(start.acc == feeds.subrange(0, 0).flatten_alt());
        assert(paragraphs.take(0).len() == 0);
        assert(splitting(start, start, paragraphs, 0, none, 0));
        (none, 0)
    } else {
        let paragraph = paragraphs[k - 1];
        assert(paragraphs.take(k).drop_last() == paragraphs.take(k - 1));
        assert(paragraphs.take(k).last() == paragraph);
        let (pieces, a) = lemma_splitting(start, paragraphs, k - 1);
        let v = split::split_fold(start, paragraphs.take(k - 1)).unwrap();
        let w = split::split_fold(start, paragraphs.take(k)).unwrap();
        let tokens = paragraph_tokens(paragraph);
        let done = lemma_flushed(v, start, paragraphs, k - 1, pieces, a);
        lemma_run_grows(paragraphs, k - 1, k);
        assert(feeds.subrange(k - 1, k - 1).len() == 0);
        if tokens.len() <= max {
            if v.acc.len() > 0 && v.acc_tokens + tokens.len() > max {
                assert(ends_there(paragraphs, done.last(), max));
                assert(w.acc == split::flushed(v).acc + paragraph.push('\n'));
                assert(split::flushed(v).acc == feeds.subrange(k - 1, k - 1).flatten_alt());
                assert(splitting(w, start, paragraphs, k, done, k - 1));
                (done, k - 1)
            } else {
                lemma_run_grows(paragraphs, a, k);
                if pieces.len() > 0 {
                    assert(ends_there(paragraphs, pieces.last(), max));
                }
                assert(splitting(w, start, paragraphs, k, pieces, a));
                (pieces, a)
            }
        } else {
            let f = split::flushed(v);
            let texts = split::slice_texts(tokens, max);
            let more = done.push((k - 1, k));
            if done.len() > 0 {
                assert(ends_there(paragraphs, done.last(), max));
            }
            lemma_piece_pushed(paragraphs, done, k - 1, (k - 1, k), max);
            split_laws::lemma_pieces_sound(f, texts, texts_of(paragraphs, done, max));
            assert(texts == piece_texts(paragraphs, (k - 1, k), max));
            assert(w.acc == feeds.subrange(k, k).flatten_alt());
            assert(splitting(w, start, paragraphs, k, more, k));
            (more, k)
        }
    }
}

/// An oversized section is cut, in order, into paragraphs that are over the limit and runs of others.
/// A run goes on as long as the next paragraph fits. The chunks are on the section's page and hold the
/// texts of the pieces, all but the first behind the prefix.
pub proof fn law_splitting(section: SectionView, max_size: nat)
    requires
        split::split_section(section, max_size) is Some,
    ensures
        ({
            let chunks = split::split_section(section, max_size).unwrap();
            let (prefix, max) = split::split_budget(section, max_size).unwrap();
            exists|pieces: Seq<(int, int)>|
                {
                    &&& #[trigger] cut_into(
                        section.paragraphs,
                        pieces,
                        section.paragraphs.len() as int,
                        max,
                    )
                    &&& split_laws::are_prefixed(
                        chunks,
                        prefix,
                        section.page,
                        texts_of(section.paragraphs, pieces, max),
                    )
                }
        }),
{
    let (prefix, max) = split::split_budget(section, max_size).unwrap();
    let start = split::split_start(prefix, section.page, max);
    let n = section.paragraphs.len() as int;
    assert(section.paragraphs.take(n) == section.paragraphs);
    let (pieces, a) = lemma_splitting(start, section.paragraphs, n);
    let v = split::split_fold(start, section.paragraphs).unwrap();
    let done = lemma_flushed(v, start, section.paragraphs, n, pieces, a);
    assert(cut_into(section.paragraphs, done, n, max));
}

/// A section can be cut wherever there is a maximum and the tokenizer takes its heading line and its
/// paragraphs.
pub proof fn law_split_succeeds(section: SectionView, max_size: nat)
    requires
        max_size > 0,
        split::heading_prefix(section) is Some ==> tokenizer::token_count(
            split::heading_prefix(section).unwrap(),
        ) is Some,
        forall|i: int|
            0 <= i < section.paragraphs.len() ==> tokenizer::cl100k_encode(
                (#[trigger] section.paragraphs[i]).push('\n'),
            ) is Some,
    ensures
        split::split_section(section, max_size) is Some,
{
    let (prefix, max) = split::split_budget(section, max_size).unwrap();
    lemma_fold_succeeds(split::split_start(prefix, section.page, max), section.paragraphs);
}

proof fn lemma_fold_succeeds(start: SplitterView, paragraphs: Seq<Seq<char>>)
    requires
        start.max > 0,
        forall|i: int|
            0 <= i < paragraphs.len() ==> tokenizer::cl100k_encode(
                (#[trigger] paragraphs[i]).push('\n'),
            ) is Some,
    ensures
        split::split_fold(start, paragraphs) is Some,
        split::split_fold(start, paragraphs).unwrap().max == start.max,
    decreases paragraphs.len(),
{
    if paragraphs.len() > 0 {
        let before = paragraphs.drop_last();
        assert forall|i: int| 0 <= i < before.len() implies tokenizer::cl100k_encode(
            (#[trigger] before[i]).push('\n'),
        ) is Some by {
            assert(before[i] == paragraphs[i]);
        }
        lemma_fold_succeeds(start, before);
        assert(paragraphs.last() == paragraphs[paragraphs.len() - 1]);
        let v = split::split_fold(start, before).unwrap();
        let tokens = paragraph_tokens(paragraphs.last());
        lemma_max_kept(split::flushed(v), split::slice_texts(tokens, v.max));
    }
}

proof fn lemma_max_kept(v: SplitterView, pieces: Seq<Seq<char>>)
    ensures
        split::pieces_emitted(v, pieces).max == v.max,
    decreases pieces.len(),
{
    if pieces.len() > 0 {
        lemma_max_kept(v, pieces.drop_last());
    }
}

} // verus!
