//! What holds of the chunks that sections are packed into.

use crate::ingest::pack;
use crate::ingest::pack::PackerView;
use crate::ingest::section_laws;
use crate::ingest::sections;
use crate::ingest::sections::SectionView;
use crate::ingest::split;
use crate::ingest::split_laws;
use crate::model::RawChunkView;
use crate::tokenizer;
use vstd::prelude::*;

verus! {

/// The texts of chunks.
pub open spec fn chunk_texts(chunks: Seq<RawChunkView>) -> Seq<Seq<char>> {
    chunks.map_values(|c: RawChunkView| c.text)
}

/// The texts of sections.
pub open spec fn section_texts(list: Seq<SectionView>) -> Seq<Seq<char>> {
    list.map_values(|s: SectionView| pack::section_text(s))
}

/// The heading levels of sections.
pub open spec fn levels(list: Seq<SectionView>) -> Seq<Option<u8>> {
    list.map_values(|s: SectionView| sections::heading_level(s))
}

/// The first level that is there.
pub open spec fn first_level(list: Seq<Option<u8>>) -> Option<u8>
    decreases list.len(),
{
    if list.len() == 0 {
        None
    } else {
        pack::first_of(first_level(list.drop_last()), list.last())
    }
}

/// Whether a heading at position `k` is deeper than the first one before it.
pub open spec fn deeper_at(list: Seq<Option<u8>>, k: int) -> bool {
    !pack::heading_ends_chunk(first_level(list.take(k)), list[k])
}

/// Whether the first heading is at position `j`.
pub open spec fn first_heading(list: Seq<Option<u8>>, j: int) -> bool {
    &&& 0 <= j < list.len()
    &&& list[j] is Some
    &&& forall|i: int| 0 <= i < j ==> (#[trigger] list[i]) is None
}

/// Whether every heading behind the first one has more number signs than that.
pub open spec fn nested(list: Seq<Option<u8>>) -> bool {
    forall|j: int, k: int|
        #![trigger first_heading(list, j), list[k]]
        first_heading(list, j) && j < k < list.len() && list[k] is Some ==> list[k].unwrap()
            > list[j].unwrap()
}

/// The first level is that of the first heading.
pub(crate) proof fn lemma_first_level(list: Seq<Option<u8>>)
    ensures
        forall|j: int| #[trigger] first_heading(list, j) ==> first_level(list) == list[j],
        first_level(list) is Some ==> exists|j: int| #[trigger] first_heading(list, j),
        first_level(list) is None ==> forall|i: int|
            0 <= i < list.len() ==> (#[trigger] list[i]) is None,
    decreases list.len(),
{
    if list.len() > 0 {
        let before = list.drop_last();
        let n = list.len() - 1;
        lemma_first_level(before);
        assert forall|j: int| #[trigger] first_heading(list, j) implies first_level(list)
            == list[j] by {
            if j < n {
                assert forall|i: int| 0 <= i < j implies (#[trigger] before[i]) is None by {
                    assert(before[i] == list[i]);
                }
                assert(first_heading(before, j));
            } else if first_level(before) is Some {
                let h = choose|h: int| #[trigger] first_heading(before, h);
                assert(before[h] == list[h]);
            }
        }
        if first_level(before) is Some {
            let h = choose|h: int| #[trigger] first_heading(before, h);
            assert forall|i: int| 0 <= i < h implies (#[trigger] list[i]) is None by {
                assert(before[i] == list[i]);
            }
            assert(first_heading(list, h));
        } else {
            assert forall|i: int| 0 <= i < n implies (#[trigger] list[i]) is None by {
                assert(before[i] == list[i]);
            }
            if list[n] is Some {
                assert(first_heading(list, n));
            }
        }
    }
}

/// No heading ends what is before it exactly when every heading behind the first one has more number
/// signs than that.
pub proof fn law_headings_nest(list: Seq<Option<u8>>)
    ensures
        nested(list) <==> forall|k: int| 0 <= k < list.len() ==> #[trigger] deeper_at(list, k),
{
    if nested(list) {
        assert forall|k: int| 0 <= k < list.len() implies #[trigger] deeper_at(list, k) by {
            let before = list.take(k);
            lemma_first_level(before);
            if first_level(before) is Some {
                let j = choose|j: int| #[trigger] first_heading(before, j);
                assert forall|i: int| 0 <= i < j implies (#[trigger] list[i]) is None by {
                    assert(before[i] == list[i]);
                }
                assert(before[j] == list[j]);
                assert(first_heading(list, j));
                assert(list[k] == list[k]);
            }
        }
    }
    if forall|k: int| 0 <= k < list.len() ==> #[trigger] deeper_at(list, k) {
        assert forall|j: int, k: int|
            #![trigger first_heading(list, j), list[k]]
            first_heading(list, j) && j < k < list.len() && list[k] is Some implies list[k].unwrap()
            > list[j].unwrap() by {
            let before = list.take(k);
            assert(deeper_at(list, k));
            assert forall|i: int| 0 <= i < j implies (#[trigger] before[i]) is None by {
                assert(before[i] == list[i]);
            }
            assert(before[j] == list[j]);
            assert(first_heading(before, j));
            lemma_first_level(before);
        }
    }
}

/// Whether a chunk is the sections from `a` to `b`: within the maximum, on the page of the first one,
/// and with headings that all have more number signs than the first one.
pub open spec fn is_run(chunk: RawChunkView, list: Seq<SectionView>, a: int, b: int, max: nat) -> bool {
    &&& 0 <= a < b <= list.len()
    &&& chunk.text == section_texts(list).subrange(a, b).flatten_alt()
    &&& chunk.page == Some(list[a].page)
    &&& split_laws::tokens_in(section_texts(list).subrange(a, b)) <= max
    &&& nested(levels(list).subrange(a, b))
}

/// Whether a chunk is chunk `j` of the oversized section `i`.
pub open spec fn is_split(chunk: RawChunkView, list: Seq<SectionView>, i: int, j: int, max: nat) -> bool {
    &&& 0 <= i < list.len()
    &&& tokenizer::token_count(pack::section_text(list[i])) is Some
    &&& tokenizer::token_count(pack::section_text(list[i])).unwrap() > max
    &&& split::split_section(list[i], max) is Some
    &&& 0 <= j < split::split_section(list[i], max).unwrap().len()
    &&& chunk == split::split_section(list[i], max).unwrap()[j]
}

/// Whether a chunk is a run of whole sections or a piece of an oversized one.
pub open spec fn fits(chunk: RawChunkView, list: Seq<SectionView>, max: nat) -> bool {
    ||| exists|a: int, b: int| is_run(chunk, list, a, b, max)
    ||| exists|i: int, j: int| is_split(chunk, list, i, j, max)
}

/// What is emitted of a section: its text, or the texts of its chunks if it is over the maximum.
pub open spec fn section_body(section: SectionView, max: nat) -> Seq<char> {
    match tokenizer::token_count(pack::section_text(section)) {
        Some(n) => if n > max {
            chunk_texts(split::split_section(section, max).unwrap()).flatten_alt()
        } else {
            pack::section_text(section)
        },
        None => seq![],
    }
}

/// What is emitted of each section.
pub open spec fn section_bodies(list: Seq<SectionView>, max: nat) -> Seq<Seq<char>> {
    list.map_values(|s: SectionView| section_body(s, max))
}

/// What holds behind the first `k` sections: those from `a` on are gathered.
spec fn sound(v: PackerView, list: Seq<SectionView>, k: int, max: nat, a: int) -> bool {
    &&& v.max == max
    &&& forall|i: int| 0 <= i < v.out.len() ==> fits(#[trigger] v.out[i], list, max)
    &&& 0 <= a <= k <= list.len()
    &&& v.chunk == section_texts(list).subrange(a, k).flatten_alt()
    &&& v.tokens == split_laws::tokens_in(section_texts(list).subrange(a, k))
    &&& v.tokens <= max
    &&& v.chunk.len() == 0 ==> a == k
    &&& v.page == if a < k {
        Some(list[a].page)
    } else {
        None
    }
    &&& v.level == first_level(levels(list).subrange(a, k))
    &&& nested(levels(list).subrange(a, k))
    &&& chunk_texts(v.out).flatten_alt() + v.chunk == section_bodies(
        list.take(k),
        max,
    ).flatten_alt()
}

proof fn lemma_flush_sound(v: PackerView, list: Seq<SectionView>, k: int, max: nat, a: int)
    requires
        sound(v, list, k, max, a),
    ensures
        sound(pack::flushed(v), list, k, max, k),
{
    let w = pack::flushed(v);
    assert(section_texts(list).subrange(k, k).len() == 0);
    assert(levels(list).subrange(k, k).len() == 0);
    assert(chunk_texts(w.out).flatten_alt() + w.chunk == chunk_texts(w.out).flatten_alt());
    if v.chunk.len() > 0 {
        let chunk = RawChunkView { text: v.chunk, page: v.page };
        if a == k {
            assert(section_texts(list).subrange(a, k).len() == 0);
        }
        assert(is_run(chunk, list, a, k, max));
        split_laws::lemma_flatten_push(chunk_texts(v.out), v.chunk);
        assert(chunk_texts(w.out) == chunk_texts(v.out).push(v.chunk));
        assert forall|i: int| 0 <= i < w.out.len() implies fits(#[trigger] w.out[i], list, max) by {
            if i < v.out.len() {
                assert(w.out[i] == v.out[i]);
            }
        }
    } else {
        assert(chunk_texts(v.out).flatten_alt() + v.chunk == chunk_texts(v.out).flatten_alt());
    }
}

/// A level at the end.
pub(crate) proof fn lemma_level_pushed(list: Seq<Option<u8>>, a: int, k: int)
    requires
        0 <= a < k <= list.len(),
    ensures
        first_level(list.subrange(a, k)) == pack::first_of(
            first_level(list.subrange(a, k - 1)),
            list[k - 1],
        ),
        nested(list.subrange(a, k - 1)) && !pack::heading_ends_chunk(
            first_level(list.subrange(a, k - 1)),
            list[k - 1],
        ) ==> nested(list.subrange(a, k)),
{
    let all = list.subrange(a, k);
    let before = list.subrange(a, k - 1);
    assert(all.drop_last() == before);
    if nested(before) && !pack::heading_ends_chunk(first_level(before), list[k - 1]) {
        lemma_first_level(before);
        assert forall|j: int, i: int|
            #![trigger first_heading(all, j), all[i]]
            first_heading(all, j) && j < i < all.len() && all[i] is Some implies all[i].unwrap()
            > all[j].unwrap() by {
            assert forall|h: int| 0 <= h < j implies (#[trigger] before[h]) is None by {
                assert(before[h] == all[h]);
            }
            assert(before[j] == all[j]);
            assert(first_heading(before, j));
            if i < before.len() {
                assert(before[i] == all[i]);
            }
        }
    }
}

proof fn lemma_pack_sound(target: nat, max: nat, list: Seq<SectionView>, k: int) -> (a: int)
    requires
        0 <= k <= list.len(),
        pack::pack_fold(pack::pack_start(target, max), list.take(k)) is Some,
    ensures
        sound(
            pack::pack_fold(pack::pack_start(target, max), list.take(k)).unwrap(),
            list,
            k,
            max,
            a,
        ),
    decreases k,
{
    let start = pack::pack_start(target, max);
    let texts = section_texts(list);
    if k == 0 {
        assert(texts.subrange(0, 0).len() == 0);
        assert(levels(list).subrange(0, 0).len() == 0);
        assert(section_bodies(list.take(0), max).len() == 0);
        assert(chunk_texts(start.out).len() == 0);
        assert(chunk_texts(start.out).flatten_alt() + start.chunk == Seq::<char>::empty());
        0
    } else {
        let before = list.take(k - 1);
        let section = list[k - 1];
        let body = pack::section_text(section);
        assert(list.take(k).drop_last() == before);
        assert(list.take(k).last() == section);
        let a = lemma_pack_sound(target, max, list, k - 1);
        let v = pack::pack_fold(start, before).unwrap();
        let n = tokenizer::token_count(body).unwrap();
        let level = sections::heading_level(section);
        assert(section_bodies(list.take(k), max) == section_bodies(before, max).push(
            section_body(section, max),
        ));
        split_laws::lemma_flatten_push(section_bodies(before, max), section_body(section, max));
        lemma_flush_sound(v, list, k - 1, max, a);
        let f = pack::flushed(v);
        let done = chunk_texts(f.out).flatten_alt();
        assert(done + f.chunk == done);
        if n > max {
            let chunks = split::split_section(section, max).unwrap();
            let w = pack::split_added(v, chunks);
            assert(chunk_texts(w.out) == chunk_texts(f.out) + chunk_texts(chunks));
            split_laws::lemma_flatten_concat(chunk_texts(f.out), chunk_texts(chunks));
            assert(chunk_texts(w.out).flatten_alt() + w.chunk == chunk_texts(w.out).flatten_alt());
            assert(texts.subrange(k, k).len() == 0);
            assert(levels(list).subrange(k, k).len() == 0);
            assert forall|i: int| 0 <= i < w.out.len() implies fits(
                #[trigger] w.out[i],
                list,
                max,
            ) by {
                if i < f.out.len() {
                    assert(w.out[i] == f.out[i]);
                } else {
                    assert(is_split(w.out[i], list, k - 1, i - f.out.len(), max));
                }
            }
            k
        } else {
            let fresh = n + v.tokens > max || pack::heading_ends_chunk(v.level, level);
            let from: int = if fresh {
                k - 1
            } else {
                a
            };
            let w = if fresh {
                f
            } else {
                v
            };
            let run = texts.subrange(from, k);
            assert(run.drop_last() == texts.subrange(from, k - 1));
            assert(run.last() == body);
            lemma_level_pushed(levels(list), from, k);
            let out = chunk_texts(w.out).flatten_alt();
            assert((out + w.chunk) + body == out + (w.chunk + body));
            assert(f.chunk + body == body);
            if fresh {
                k - 1
            } else {
                let x = PackerView {
                    chunk: v.chunk + body,
                    tokens: v.tokens + n,
                    level: pack::first_of(v.level, level),
                    page: pack::first_of(v.page, Some(section.page)),
                    ..v
                };
                assert(sound(x, list, k, max, a));
                if n + v.tokens >= v.target {
                    lemma_flush_sound(x, list, k, max, a);
                    k
                } else {
                    a
                }
            }
        }
    }
}

/// Packing loses nothing: one after another the chunks hold what the sections hold, in order. Each
/// chunk is either a run of whole sections, counted section by section within the maximum, on the
/// page of the first of them and with no heading as high as their first, or a piece of an oversized
/// section.
pub proof fn law_pack(list: Seq<SectionView>, target: nat, max: nat)
    requires
        pack::packed(list, target, max) is Some,
    ensures
        ({
            let chunks = pack::packed(list, target, max).unwrap();
            &&& chunk_texts(chunks).flatten_alt() == section_bodies(list, max).flatten_alt()
            &&& forall|i: int| 0 <= i < chunks.len() ==> fits(#[trigger] chunks[i], list, max)
        }),
{
    let n = list.len() as int;
    assert(list.take(n) == list);
    let a = lemma_pack_sound(target, max, list, n);
    let v = pack::pack_fold(pack::pack_start(target, max), list).unwrap();
    lemma_flush_sound(v, list, n, max, a);
    let w = pack::flushed(v);
    assert(chunk_texts(w.out).flatten_alt() + w.chunk == chunk_texts(w.out).flatten_alt());
}

/// Sections that each have a paragraph have a chunk.
pub proof fn law_pack_is_not_empty(list: Seq<SectionView>, target: nat, max: nat)
    requires
        list.len() > 0,
        forall|i: int| 0 <= i < list.len() ==> (#[trigger] list[i]).paragraphs.len() > 0,
        pack::packed(list, target, max) is Some,
    ensures
        pack::packed(list, target, max).unwrap().len() > 0,
{
    let start = pack::pack_start(target, max);
    let v = pack::pack_fold(start, list.drop_last()).unwrap();
    let w = pack::pack_fold(start, list).unwrap();
    let section = list[list.len() - 1];
    assert(w == pack::pack_step(v, section).unwrap());
    if tokenizer::token_count(pack::section_text(section)).unwrap() > v.max {
        split_laws::law_split_is_not_empty(section, v.max);
    }
}

/// Whether all chunks have a page, the pages never go back, and none passes `last`.
pub open spec fn paged(chunks: Seq<RawChunkView>, last: nat) -> bool {
    &&& forall|i: int|
        0 <= i < chunks.len() ==> (#[trigger] chunks[i]).page is Some && chunks[i].page.unwrap()
            <= last
    &&& forall|i: int, j: int|
        0 <= i <= j < chunks.len() ==> (#[trigger] chunks[i]).page.unwrap() <= (
        #[trigger] chunks[j]).page.unwrap()
}

/// Whether the pages of chunks and sections never go back from the chunks to the sections.
spec fn before_sections(chunks: Seq<RawChunkView>, list: Seq<SectionView>, k: int) -> bool {
    forall|i: int, j: int|
        0 <= i < chunks.len() && k <= j < list.len() ==> (#[trigger] chunks[i]).page.unwrap() <= (
        #[trigger] list[j]).page
}

/// What holds of the pages behind the first `k` sections.
spec fn pages_sound(v: PackerView, list: Seq<SectionView>, k: int, last: nat) -> bool {
    &&& v.chunk.len() > 0 ==> v.page is Some
    &&& paged(v.out, last)
    &&& before_sections(v.out, list, k)
    &&& v.page is Some ==> {
        &&& v.page.unwrap() <= last
        &&& forall|i: int|
            0 <= i < v.out.len() ==> (#[trigger] v.out[i]).page.unwrap() <= v.page.unwrap()
        &&& forall|j: int| k <= j < list.len() ==> v.page.unwrap() <= (#[trigger] list[j]).page
    }
}

proof fn lemma_flush_pages(v: PackerView, list: Seq<SectionView>, k: int, last: nat)
    requires
        pages_sound(v, list, k, last),
    ensures
        pages_sound(pack::flushed(v), list, k, last),
{
}

proof fn lemma_split_pages(section: SectionView, max: nat)
    requires
        split::split_section(section, max) is Some,
    ensures
        forall|i: int|
            0 <= i < split::split_section(section, max).unwrap().len() ==> (
            #[trigger] split::split_section(section, max).unwrap()[i]).page == Some(section.page),
{
    split_laws::law_split(section, max);
    let (prefix, limit) = split::split_budget(section, max).unwrap();
    let chunks = split::split_section(section, max).unwrap();
    let raw = choose|raw: Seq<Seq<char>>|
        {
            &&& #[trigger] split_laws::are_prefixed(chunks, prefix, section.page, raw)
            &&& split_laws::is_division(raw, section.paragraphs, limit)
        };
    assert(split_laws::are_prefixed(chunks, prefix, section.page, raw));
}

proof fn lemma_pack_pages(target: nat, max: nat, list: Seq<SectionView>, k: int, last: nat)
    requires
        0 <= k <= list.len(),
        section_laws::pages_in_order(list, last),
        pack::pack_fold(pack::pack_start(target, max), list.take(k)) is Some,
    ensures
        pages_sound(
            pack::pack_fold(pack::pack_start(target, max), list.take(k)).unwrap(),
            list,
            k,
            last,
        ),
    decreases k,
{
    if k > 0 {
        let start = pack::pack_start(target, max);
        let section = list[k - 1];
        assert(list.take(k).drop_last() == list.take(k - 1));
        assert(list.take(k).last() == section);
        lemma_pack_pages(target, max, list, k - 1, last);
        let v = pack::pack_fold(start, list.take(k - 1)).unwrap();
        let w = pack::pack_fold(start, list.take(k)).unwrap();
        let f = pack::flushed(v);
        lemma_flush_pages(v, list, k - 1, last);
        let text = pack::section_text(section);
        let n = tokenizer::token_count(text).unwrap();
        let level = sections::heading_level(section);
        if n > v.max {
            let chunks = split::split_section(section, v.max).unwrap();
            lemma_split_pages(section, v.max);
            assert(w == pack::split_added(v, chunks));
            assert forall|i: int| 0 <= i < w.out.len() implies (#[trigger] w.out[i]).page is Some
                && w.out[i].page.unwrap() <= section.page by {
                if i < f.out.len() {
                    assert(w.out[i] == f.out[i]);
                    assert(f.out[i].page.unwrap() <= list[k - 1].page);
                } else {
                    assert(w.out[i] == chunks[i - f.out.len()]);
                }
            }
            assert forall|i: int, j: int| 0 <= i <= j < w.out.len() implies (
            #[trigger] w.out[i]).page.unwrap() <= (#[trigger] w.out[j]).page.unwrap() by {
                if j < f.out.len() {
                    assert(w.out[i] == f.out[i] && w.out[j] == f.out[j]);
                } else {
                    assert(w.out[j] == chunks[j - f.out.len()]);
                }
            }
        } else {
            let fresh = n + v.tokens > v.max || pack::heading_ends_chunk(v.level, level);
            if fresh {
                assert forall|i: int| 0 <= i < w.out.len() implies (
                #[trigger] w.out[i]).page.unwrap() <= section.page by {
                    assert(w.out[i] == f.out[i]);
                    assert(f.out[i].page.unwrap() <= list[k - 1].page);
                }
            } else {
                let x = PackerView {
                    chunk: v.chunk + text,
                    tokens: v.tokens + n,
                    level: pack::first_of(v.level, level),
                    page: pack::first_of(v.page, Some(section.page)),
                    ..v
                };
                assert forall|i: int| 0 <= i < x.out.len() implies (
                #[trigger] x.out[i]).page.unwrap() <= x.page.unwrap() by {
                    assert(v.out[i].page.unwrap() <= list[k - 1].page);
                }
                assert(pages_sound(x, list, k, last));
                lemma_flush_pages(x, list, k, last);
            }
        }
    }
}

/// Where the pages of sections never go back, nor do those of the chunks they are packed into.
pub proof fn law_pack_pages(list: Seq<SectionView>, target: nat, max: nat, last: nat)
    requires
        section_laws::pages_in_order(list, last),
        pack::packed(list, target, max) is Some,
    ensures
        paged(pack::packed(list, target, max).unwrap(), last),
{
    let n = list.len() as int;
    assert(list.take(n) == list);
    lemma_pack_pages(target, max, list, n, last);
    let v = pack::pack_fold(pack::pack_start(target, max), list).unwrap();
    lemma_flush_pages(v, list, n, last);
}

} // verus!
