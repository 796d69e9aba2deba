//! Where the chunks that sections are packed into begin and end.

use crate::ingest::pack;
use crate::ingest::pack::PackerView;
use crate::ingest::pack_laws;
use crate::ingest::sections;
use crate::ingest::sections::SectionView;
use crate::ingest::split;
use crate::ingest::split_laws;
use crate::model::RawChunkView;
use crate::tokenizer;
use vstd::prelude::*;

verus! {

/// Whether a section is over the maximum by itself.
pub open spec fn oversized(section: SectionView, max: nat) -> bool {
    tokenizer::token_count(pack::section_text(section)).unwrap() > max
}

/// The tokens of the sections from `a` to `b`, counted section by section.
pub open spec fn run_tokens(list: Seq<SectionView>, a: int, b: int) -> nat {
    split_laws::tokens_in(pack_laws::section_texts(list).subrange(a, b))
}

/// Whether section `b` has a heading with no more number signs than the first heading of the sections
/// from `a` on.
pub open spec fn heading_ends(list: Seq<SectionView>, a: int, b: int) -> bool {
    exists|j: int|
        {
            &&& #[trigger] pack_laws::first_heading(pack_laws::levels(list).subrange(a, b), j)
            &&& sections::heading_level(list[b]) is Some
            &&& sections::heading_level(list[b]).unwrap() <= sections::heading_level(
                list[a + j],
            ).unwrap()
        }
}

/// Whether nothing is left open behind piece `i`: it is an oversized section, or it has reached the
/// target. A single section that had to start a chunk, because it did not fit into the one before,
/// is not measured by the target.
pub open spec fn complete(
    list: Seq<SectionView>,
    pieces: Seq<(int, int)>,
    i: int,
    target: nat,
    max: nat,
) -> bool
    decreases i + 1,
{
    if i < 0 {
        true
    } else {
        let (a, b) = pieces[i];
        oversized(list[a], max) || (run_tokens(list, a, b) >= target && (b - a >= 2 || complete(
            list,
            pieces,
            i - 1,
            target,
            max,
        )))
    }
}

/// Whether the sections from `a` to `m`, behind some pieces, would be complete.
pub open spec fn would_complete(
    list: Seq<SectionView>,
    pieces: Seq<(int, int)>,
    i: int,
    a: int,
    m: int,
    target: nat,
    max: nat,
) -> bool {
    run_tokens(list, a, m) >= target && (m - a >= 2 || complete(list, pieces, i - 1, target, max))
}

/// Whether piece `i` is an oversized section, or a run of others that fits into a chunk and is not
/// complete before its end.
pub open spec fn is_piece(
    list: Seq<SectionView>,
    pieces: Seq<(int, int)>,
    i: int,
    target: nat,
    max: nat,
) -> bool {
    let (a, b) = pieces[i];
    &&& 0 <= a < b <= list.len()
    &&& oversized(list[a], max) ==> b == a + 1
    &&& !oversized(list[a], max) ==> {
        &&& forall|k: int| a <= k < b ==> !oversized(#[trigger] list[k], max)
        &&& run_tokens(list, a, b) <= max
        &&& pack_laws::nested(pack_laws::levels(list).subrange(a, b))
        &&& forall|m: int|
            a < m < b ==> !#[trigger] would_complete(list, pieces, i, a, m, target, max)
    }
}

/// Why piece `i` ends where it does: it is complete, or the next section is oversized, does not fit
/// any more, or has a heading that ends it.
pub open spec fn ends_there(
    list: Seq<SectionView>,
    pieces: Seq<(int, int)>,
    i: int,
    target: nat,
    max: nat,
) -> bool {
    let (a, b) = pieces[i];
    ||| complete(list, pieces, i, target, max)
    ||| oversized(list[b], max)
    ||| run_tokens(list, a, b) + tokenizer::token_count(pack::section_text(list[b])).unwrap() > max
    ||| heading_ends(list, a, b)
}

/// Whether the first `n` sections are cut into pieces one after another.
pub open spec fn cut_into(
    list: Seq<SectionView>,
    pieces: Seq<(int, int)>,
    n: int,
    target: nat,
    max: nat,
) -> bool {
    &&& pieces.len() == 0 ==> n == 0
    &&& pieces.len() > 0 ==> pieces[0].0 == 0 && pieces.last().1 == n
    &&& forall|i: int| 0 <= i < pieces.len() ==> #[trigger] is_piece(list, pieces, i, target, max)
    &&& forall|i: int|
        0 <= i < pieces.len() - 1 ==> (#[trigger] pieces[i]).1 == pieces[i + 1].0 && ends_there(
            list,
            pieces,
            i,
            target,
            max,
        )
}

/// The chunks of a piece.
pub open spec fn piece_chunks(list: Seq<SectionView>, piece: (int, int), max: nat) -> Seq<
    RawChunkView,
> {
    if oversized(list[piece.0], max) {
        split::split_section(list[piece.0], max).unwrap()
    } else {
        seq![
            RawChunkView {
                text: pack_laws::section_texts(list).subrange(piece.0, piece.1).flatten_alt(),
                page: Some(list[piece.0].page),
            },
        ]
    }
}

/// The chunks of pieces, one after another.
pub open spec fn chunks_of(list: Seq<SectionView>, pieces: Seq<(int, int)>, max: nat) -> Seq<
    RawChunkView,
> {
    pieces.map_values(|p: (int, int)| piece_chunks(list, p, max)).flatten_alt()
}

proof fn lemma_complete_prefix(
    list: Seq<SectionView>,
    pieces: Seq<(int, int)>,
    more: Seq<(int, int)>,
    i: int,
    target: nat,
    max: nat,
)
    requires
        i < pieces.len(),
        pieces.len() <= more.len(),
        more.take(pieces.len() as int) == pieces,
    ensures
        complete(list, pieces, i, target, max) == complete(list, more, i, target, max),
    decreases i + 1,
{
    if i >= 0 {
        assert(more.take(pieces.len() as int)[i] == more[i]);
        lemma_complete_prefix(list, pieces, more, i - 1, target, max);
    }
}

/// One more piece.
proof fn lemma_piece_pushed(
    list: Seq<SectionView>,
    pieces: Seq<(int, int)>,
    n: int,
    piece: (int, int),
    target: nat,
    max: nat,
)
    requires
        cut_into(list, pieces, n, target, max),
        piece.0 == n,
        is_piece(list, pieces.push(piece), pieces.len() as int, target, max),
        pieces.len() > 0 ==> ends_there(list, pieces, pieces.len() - 1, target, max),
    ensures
        cut_into(list, pieces.push(piece), piece.1, target, max),
        chunks_of(list, pieces.push(piece), max) == chunks_of(list, pieces, max) + piece_chunks(
            list,
            piece,
            max,
        ),
        pieces.len() > 0 ==> complete(list, pieces.push(piece), pieces.len() - 1, target, max)
            == complete(list, pieces, pieces.len() - 1, target, max),
{
    let more = pieces.push(piece);
    assert(more.take(pieces.len() as int) == pieces);
    assert forall|i: int| 0 <= i < more.len() implies #[trigger] is_piece(
        list,
        more,
        i,
        target,
        max,
    ) by {
        if i < pieces.len() {
            assert(is_piece(list, pieces, i, target, max));
            lemma_complete_prefix(list, pieces, more, i - 1, target, max);
            let (a, b) = more[i];
            assert forall|m: int| a < m < b && !oversized(list[a], max) implies !#[trigger] would_complete(
                list,
                more,
                i,
                a,
                m,
                target,
                max,
            ) by {
                assert(!would_complete(list, pieces, i, a, m, target, max));
            }
        }
    }
    assert forall|i: int| 0 <= i < more.len() - 1 implies (#[trigger] more[i]).1 == more[i + 1].0
        && ends_there(list, more, i, target, max) by {
        lemma_complete_prefix(list, pieces, more, i, target, max);
        assert(more[i] == pieces[i]);
        if i < pieces.len() - 1 {
            assert(pieces[i].1 == pieces[i + 1].0);
            assert(ends_there(list, pieces, i, target, max));
        } else {
            assert(ends_there(list, pieces, i, target, max));
        }
    }
    if pieces.len() > 0 {
        lemma_complete_prefix(list, pieces, more, pieces.len() - 1, target, max);
    }
    let parts = pieces.map_values(|p: (int, int)| piece_chunks(list, p, max));
    assert(more.map_values(|p: (int, int)| piece_chunks(list, p, max)) == parts.push(
        piece_chunks(list, piece, max),
    ));
    split_laws::lemma_flatten_push(parts, piece_chunks(list, piece, max));
}

/// What holds behind the first `k` sections: the pieces are done, and the sections from `a` on are
/// gathered and not yet complete.
spec fn packing(
    v: PackerView,
    list: Seq<SectionView>,
    k: int,
    target: nat,
    max: nat,
    pieces: Seq<(int, int)>,
    a: int,
) -> bool {
    &&& v.target == target && v.max == max
    &&& 0 <= a <= k <= list.len()
    &&& cut_into(list, pieces, a, target, max)
    &&& v.out == chunks_of(list, pieces, max)
    &&& v.chunk == pack_laws::section_texts(list).subrange(a, k).flatten_alt()
    &&& v.chunk.len() == 0 ==> a == k
    &&& v.tokens == run_tokens(list, a, k)
    &&& v.tokens <= max
    &&& v.page == if a < k {
        Some(list[a].page)
    } else {
        None
    }
    &&& v.level == pack_laws::first_level(pack_laws::levels(list).subrange(a, k))
    &&& pack_laws::nested(pack_laws::levels(list).subrange(a, k))
    &&& forall|j: int| a <= j < k ==> !oversized(#[trigger] list[j], max)
    &&& forall|m: int|
        a < m <= k ==> !#[trigger] would_complete(
            list,
            pieces,
            pieces.len() as int,
            a,
            m,
            target,
            max,
        )
    &&& a == k ==> complete(list, pieces, pieces.len() - 1, target, max)
    &&& a < k && pieces.len() > 0 ==> ends_there(list, pieces, pieces.len() - 1, target, max)
}

/// What is gathered from `a` to `k` as a piece.
proof fn lemma_gathered_piece(
    list: Seq<SectionView>,
    pieces: Seq<(int, int)>,
    a: int,
    k: int,
    target: nat,
    max: nat,
)
    requires
        0 <= a < k <= list.len(),
        forall|j: int| a <= j < k ==> !oversized(#[trigger] list[j], max),
        run_tokens(list, a, k) <= max,
        pack_laws::nested(pack_laws::levels(list).subrange(a, k)),
        forall|m: int|
            a < m < k ==> !#[trigger] would_complete(
                list,
                pieces,
                pieces.len() as int,
                a,
                m,
                target,
                max,
            ),
    ensures
        is_piece(list, pieces.push((a, k)), pieces.len() as int, target, max),
        complete(list, pieces.push((a, k)), pieces.len() as int, target, max) == would_complete(
            list,
            pieces,
            pieces.len() as int,
            a,
            k,
            target,
            max,
        ),
{
    let more = pieces.push((a, k));
    let i = pieces.len() as int;
    assert(more.take(i) == pieces);
    assert(more[i] == (a, k));
    assert(!oversized(list[a], max));
    lemma_complete_prefix(list, pieces, more, i - 1, target, max);
    assert forall|m: int| a < m < k implies !#[trigger] would_complete(
        list,
        more,
        i,
        a,
        m,
        target,
        max,
    ) by {
        assert(!would_complete(list, pieces, i, a, m, target, max));
    }
}

/// What is gathered becomes a piece.
proof fn lemma_flushed(
    v: PackerView,
    list: Seq<SectionView>,
    k: int,
    target: nat,
    max: nat,
    pieces: Seq<(int, int)>,
    a: int,
)
    requires
        packing(v, list, k, target, max, pieces, a),
    ensures
        a < k ==> {
            let open = pieces.push((a, k));
            &&& cut_into(list, open, k, target, max)
            &&& pack::flushed(v).out == chunks_of(list, open, max)
            &&& !complete(list, open, open.len() - 1, target, max)
            &&& v.chunk.len() > 0
        },
        a == k ==> v.chunk.len() == 0 && v.tokens == 0 && v.level is None && pack::flushed(v).out
            == v.out,
{
    if a < k {
        lemma_gathered_piece(list, pieces, a, k, target, max);
        lemma_piece_pushed(list, pieces, a, (a, k), target, max);
        assert(!oversized(list[a], max));
        assert(!would_complete(list, pieces, pieces.len() as int, a, k, target, max));
    } else {
        assert(pack_laws::section_texts(list).subrange(a, a).len() == 0);
        assert(pack_laws::levels(list).subrange(a, a).len() == 0);
    }
}

proof fn lemma_step_oversized(
    v: PackerView,
    list: Seq<SectionView>,
    k: int,
    target: nat,
    max: nat,
    pieces: Seq<(int, int)>,
    a: int,
) -> (more: Seq<(int, int)>)
    requires
        0 < k <= list.len(),
        packing(v, list, k - 1, target, max, pieces, a),
        oversized(list[k - 1], max),
    ensures
        packing(
            pack::split_added(v, split::split_section(list[k - 1], max).unwrap()),
            list,
            k,
            target,
            max,
            more,
            k,
        ),
{
    lemma_flushed(v, list, k - 1, target, max, pieces, a);
    let open = pieces.push((a, k - 1));
    let done = if a < k - 1 {
        open
    } else {
        pieces
    };
    let more = done.push((k - 1, k));
    assert(more[done.len() as int] == (k - 1, k));
    if a < k - 1 {
        assert(open[open.len() - 1] == (a, k - 1));
    }
    if done.len() > 0 {
        assert(ends_there(list, done, done.len() - 1, target, max));
    }
    assert(is_piece(list, more, done.len() as int, target, max));
    lemma_piece_pushed(list, done, k - 1, (k - 1, k), target, max);
    assert(complete(list, more, more.len() - 1, target, max));
    assert(pack_laws::section_texts(list).subrange(k, k).len() == 0);
    assert(pack_laws::levels(list).subrange(k, k).len() == 0);
    more
}

#[verifier::rlimit(40)]
proof fn lemma_step_fresh(
    v: PackerView,
    list: Seq<SectionView>,
    k: int,
    target: nat,
    max: nat,
    pieces: Seq<(int, int)>,
    a: int,
)
    requires
        0 < k <= list.len(),
        packing(v, list, k - 1, target, max, pieces, a),
        !oversized(list[k - 1], max),
        ({
            let n = tokenizer::token_count(pack::section_text(list[k - 1])).unwrap();
            n + v.tokens > max || pack::heading_ends_chunk(
                v.level,
                sections::heading_level(list[k - 1]),
            )
        }),
    ensures
        packing(
            pack::section_added(
                v,
                pack::section_text(list[k - 1]),
                tokenizer::token_count(pack::section_text(list[k - 1])).unwrap(),
                sections::heading_level(list[k - 1]),
                list[k - 1].page,
            ),
            list,
            k,
            target,
            max,
            pieces.push((a, k - 1)),
            k - 1,
        ),
{
    let texts = pack_laws::section_texts(list);
    let levels = pack_laws::levels(list);
    let body = pack::section_text(list[k - 1]);
    let level = sections::heading_level(list[k - 1]);
    let open = pieces.push((a, k - 1));
    lemma_flushed(v, list, k - 1, target, max, pieces, a);
    assert(a < k - 1);
    let run = texts.subrange(k - 1, k);
    assert(run.drop_last().len() == 0);
    assert(run.last() == body);
    assert(run.drop_last().flatten_alt() == Seq::<char>::empty());
    assert(Seq::<char>::empty() + body == body);
    assert(run.flatten_alt() == body);
    assert(levels.subrange(k - 1, k - 1).len() == 0);
    assert(pack_laws::nested(levels.subrange(k - 1, k - 1)));
    assert(levels[k - 1] == level);
    pack_laws::lemma_level_pushed(levels, k - 1, k);
    assert(pack_laws::first_level(levels.subrange(k - 1, k)) == level);
    assert(split_laws::tokens_in(run.drop_last()) == 0);
    assert(run_tokens(list, k - 1, k) == tokenizer::token_count(body).unwrap());
    if pack::heading_ends_chunk(v.level, level) {
        let run_levels = levels.subrange(a, k - 1);
        pack_laws::lemma_first_level(run_levels);
        let j = choose|j: int| #[trigger] pack_laws::first_heading(run_levels, j);
        assert(run_levels[j] == sections::heading_level(list[a + j]));
        assert(heading_ends(list, a, k - 1));
    }
    assert(open[open.len() - 1] == (a, k - 1));
    assert(ends_there(list, open, open.len() - 1, target, max));
    assert forall|m: int| k - 1 < m <= k implies !#[trigger] would_complete(
        list,
        open,
        open.len() as int,
        k - 1,
        m,
        target,
        max,
    ) by {}
    let w = pack::section_added(
        v,
        body,
        tokenizer::token_count(body).unwrap(),
        level,
        list[k - 1].page,
    );
    assert(w.chunk == body && w.chunk.len() > 0);
    assert(w.out == chunks_of(list, open, max));
    assert(w.level == pack_laws::first_level(levels.subrange(k - 1, k)));
}

#[verifier::rlimit(40)]
proof fn lemma_step_joined(
    v: PackerView,
    list: Seq<SectionView>,
    k: int,
    target: nat,
    max: nat,
    pieces: Seq<(int, int)>,
    a: int,
) -> (res: (Seq<(int, int)>, int))
    requires
        0 < k <= list.len(),
        packing(v, list, k - 1, target, max, pieces, a),
        !oversized(list[k - 1], max),
        ({
            let n = tokenizer::token_count(pack::section_text(list[k - 1])).unwrap();
            n + v.tokens <= max && !pack::heading_ends_chunk(
                v.level,
                sections::heading_level(list[k - 1]),
            )
        }),
    ensures
        packing(
            pack::section_added(
                v,
                pack::section_text(list[k - 1]),
                tokenizer::token_count(pack::section_text(list[k - 1])).unwrap(),
                sections::heading_level(list[k - 1]),
                list[k - 1].page,
            ),
            list,
            k,
            target,
            max,
            res.0,
            res.1,
        ),
{
    let texts = pack_laws::section_texts(list);
    let levels = pack_laws::levels(list);
    let body = pack::section_text(list[k - 1]);
    let n = tokenizer::token_count(body).unwrap();
    let run = texts.subrange(a, k);
    let i = pieces.len() as int;
    lemma_flushed(v, list, k - 1, target, max, pieces, a);
    assert(run.drop_last() == texts.subrange(a, k - 1));
    assert(run.last() == body);
    pack_laws::lemma_level_pushed(levels, a, k);
    assert(run_tokens(list, a, k) == v.tokens + n);
    assert(texts.subrange(k, k).len() == 0);
    assert(levels.subrange(k, k).len() == 0);
    assert forall|m: int| a < m < k implies !#[trigger] would_complete(
        list,
        pieces,
        i,
        a,
        m,
        target,
        max,
    ) by {}
    if i > 0 {
        assert(ends_there(list, pieces, i - 1, target, max));
    }
    let level = sections::heading_level(list[k - 1]);
    let w = pack::section_added(v, body, n, level, list[k - 1].page);
    assert(levels[k - 1] == level);
    assert(run.flatten_alt() == v.chunk + body);
    assert(run_tokens(list, a, k) <= max);
    assert(pack_laws::nested(levels.subrange(a, k)));
    if n + v.tokens >= target {
        let more = pieces.push((a, k));
        lemma_gathered_piece(list, pieces, a, k, target, max);
        lemma_piece_pushed(list, pieces, a, (a, k), target, max);
        assert(would_complete(list, pieces, i, a, k, target, max));
        assert(complete(list, more, more.len() - 1, target, max));
        assert(!oversized(list[a], max));
        assert(w.out == v.out.push(
            RawChunkView { text: v.chunk + body, page: Some(list[a].page) },
        ));
        assert(w.out == chunks_of(list, more, max));
        assert(w.chunk.len() == 0 && w.tokens == 0 && w.page is None && w.level is None);
        assert(w.chunk == texts.subrange(k, k).flatten_alt());
        assert(pack_laws::nested(levels.subrange(k, k)));
        (more, k)
    } else {
        assert(w.out == v.out);
        assert(w.level == pack_laws::first_level(levels.subrange(a, k)));
        assert(!would_complete(list, pieces, i, a, k, target, max));
        (pieces, a)
    }
}

proof fn lemma_packing(list: Seq<SectionView>, target: nat, max: nat, k: int) -> (res: (
    Seq<(int, int)>,
    int,
))
    requires
        0 <= k <= list.len(),
        pack::pack_fold(pack::pack_start(target, max), list.take(k)) is Some,
    ensures
        packing(
            pack::pack_fold(pack::pack_start(target, max), list.take(k)).unwrap(),
            list,
            k,
            target,
            max,
            res.0,
            res.1,
        ),
    decreases k,
{
    let start = pack::pack_start(target, max);
    if k == 0 {
        let none = Seq::<(int, int)>::empty();
        assert(pack_laws::section_texts(list).subrange(0, 0).len() == 0);
        assert(pack_laws::levels(list).subrange(0, 0).len() == 0);
        assert(none.map_values(|p: (int, int)| piece_chunks(list, p, max)).len() == 0);
        (none, 0)
    } else {
        assert(list.take(k).drop_last() == list.take(k - 1));
        assert(list.take(k).last() == list[k - 1]);
        let (pieces, a) = lemma_packing(list, target, max, k - 1);
        let v = pack::pack_fold(start, list.take(k - 1)).unwrap();
        let n = tokenizer::token_count(pack::section_text(list[k - 1])).unwrap();
        if n > max {
            (lemma_step_oversized(v, list, k, target, max, pieces, a), k)
        } else if n + v.tokens > max || pack::heading_ends_chunk(
            v.level,
            sections::heading_level(list[k - 1]),
        ) {
            lemma_step_fresh(v, list, k, target, max, pieces, a);
            (pieces.push((a, k - 1)), k - 1)
        } else {
            lemma_step_joined(v, list, k, target, max, pieces, a)
        }
    }
}

/// Packing cuts the sections, in order, into oversized ones and runs of others. A run goes on until it
/// reaches the target, and ends before that only where the next section is oversized, does not fit
/// into the maximum, or has a heading with no more number signs than the run's first. The chunks are
/// those of the pieces.
pub proof fn law_packing(list: Seq<SectionView>, target: nat, max: nat)
    requires
        pack::packed(list, target, max) is Some,
    ensures
        exists|pieces: Seq<(int, int)>|
            {
                &&& #[trigger] cut_into(list, pieces, list.len() as int, target, max)
                &&& pack::packed(list, target, max).unwrap() == chunks_of(list, pieces, max)
            },
{
    let n = list.len() as int;
    assert(list.take(n) == list);
    let (pieces, a) = lemma_packing(list, target, max, n);
    if a < n {
        lemma_gathered_piece(list, pieces, a, n, target, max);
        lemma_piece_pushed(list, pieces, a, (a, n), target, max);
        assert(!oversized(list[a], max));
        assert(cut_into(list, pieces.push((a, n)), n, target, max));
    } else {
        assert(pack_laws::section_texts(list).subrange(a, a).len() == 0);
        assert(cut_into(list, pieces, n, target, max));
    }
}

/// Sections can be packed wherever the tokenizer takes their texts and those over the maximum can be
/// cut.
pub proof fn law_pack_succeeds(list: Seq<SectionView>, target: nat, max: nat)
    requires
        forall|i: int|
            0 <= i < list.len() ==> tokenizer::token_count(
                pack::section_text(#[trigger] list[i]),
            ) is Some && (oversized(list[i], max) ==> split::split_section(list[i], max) is Some),
    ensures
        pack::packed(list, target, max) is Some,
{
    lemma_fold_succeeds(list, target, max);
}

proof fn lemma_fold_succeeds(list: Seq<SectionView>, target: nat, max: nat)
    requires
        forall|i: int|
            0 <= i < list.len() ==> tokenizer::token_count(
                pack::section_text(#[trigger] list[i]),
            ) is Some && (oversized(list[i], max) ==> split::split_section(list[i], max) is Some),
    ensures
        pack::pack_fold(pack::pack_start(target, max), list) is Some,
        pack::pack_fold(pack::pack_start(target, max), list).unwrap().max == max,
    decreases list.len(),
{
    if list.len() > 0 {
        let before = list.drop_last();
        assert forall|i: int| 0 <= i < before.len() implies tokenizer::token_count(
            pack::section_text(#[trigger] before[i]),
        ) is Some && (oversized(before[i], max) ==> split::split_section(
            before[i],
            max,
        ) is Some) by {
            assert(before[i] == list[i]);
        }
        lemma_fold_succeeds(before, target, max);
        assert(list.last() == list[list.len() - 1]);
    }
}

} // verus!
