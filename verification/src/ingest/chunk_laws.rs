//! What holds of the chunks of a whole text.

use crate::ingest::merge;
use crate::ingest::merge_laws;
use crate::ingest::pack;
use crate::ingest::pack_laws;
use crate::ingest::pages;
use crate::ingest::paragraph;
use crate::ingest::section_laws;
use crate::ingest::sections;
use crate::ingest::sections::SectionView;
use crate::model::RawChunkView;
use crate::text;
use vstd::prelude::*;

verus! {

/// Whether a text has three line feeds in a row at position `i`.
pub open spec fn triple_newline_at(s: Seq<char>, i: int) -> bool {
    0 <= i && i + 2 < s.len() && s[i] == '\n' && s[i + 1] == '\n' && s[i + 2] == '\n'
}

/// A text that starts with something else than a line feed and never has three in a row.
spec fn calm(s: Seq<char>) -> bool {
    &&& s.len() > 0
    &&& s[0] != '\n'
    &&& forall|i: int| !#[trigger] triple_newline_at(s, i)
}

/// A calm text that ends with exactly one line feed.
spec fn calm_end(s: Seq<char>) -> bool {
    &&& calm(s)
    &&& s.len() >= 2
    &&& s[s.len() - 1] == '\n'
    &&& s[s.len() - 2] != '\n'
}

proof fn lemma_calm_concat(a: Seq<char>, b: Seq<char>)
    requires
        calm(a),
        calm(b),
    ensures
        calm(a + b),
{
    let s = a + b;
    assert forall|i: int| !#[trigger] triple_newline_at(s, i) by {
        if triple_newline_at(s, i) {
            if i + 2 < a.len() {
                assert(triple_newline_at(a, i));
            } else if i >= a.len() {
                assert(s[i] == b[i - a.len()]);
                assert(s[i + 1] == b[i + 1 - a.len()]);
                assert(s[i + 2] == b[i + 2 - a.len()]);
                assert(triple_newline_at(b, i - a.len()));
            } else if i + 2 == a.len() {
                assert(s[i + 2] == b[0]);
            } else {
                assert(s[i + 1] == b[i + 1 - a.len()]);
                assert(i + 1 == a.len());
            }
        }
    }
}

proof fn lemma_paragraph_calm(p: Seq<char>)
    requires
        section_laws::well_formed_paragraph(p),
    ensures
        calm_end(p),
{
    assert forall|i: int| !#[trigger] triple_newline_at(p, i) by {
        assert(!section_laws::double_newline_at(p, i));
    }
    assert(!section_laws::double_newline_at(p, p.len() - 2));
}

/// A calm text with one more line feed is calm.
proof fn lemma_calm_push(s: Seq<char>)
    requires
        calm_end(s),
    ensures
        calm(s.push('\n')),
{
    let t = s.push('\n');
    assert forall|i: int| !#[trigger] triple_newline_at(t, i) by {
        if triple_newline_at(t, i) {
            if i + 2 < s.len() {
                assert(triple_newline_at(s, i));
            } else {
                assert(i == s.len() - 2);
            }
        }
    }
}

proof fn lemma_joined_calm(paragraphs: Seq<Seq<char>>)
    requires
        paragraphs.len() > 0,
        forall|i: int|
            0 <= i < paragraphs.len() ==> section_laws::well_formed_paragraph(
                #[trigger] paragraphs[i],
            ),
    ensures
        calm_end(text::joined(paragraphs, "\n"@)),
    decreases paragraphs.len(),
{
    reveal_strlit("\n");
    lemma_paragraph_calm(paragraphs[paragraphs.len() - 1]);
    if paragraphs.len() > 1 {
        let before = text::joined(paragraphs.drop_last(), "\n"@);
        lemma_joined_calm(paragraphs.drop_last());
        lemma_calm_push(before);
        lemma_calm_concat(before.push('\n'), paragraphs.last());
        assert(before + "\n"@ == before.push('\n'));
    }
}

proof fn lemma_run_calm(texts: Seq<Seq<char>>)
    requires
        texts.len() > 0,
        forall|i: int| 0 <= i < texts.len() ==> calm(#[trigger] texts[i]),
    ensures
        calm(texts.flatten_alt()),
    decreases texts.len(),
{
    let before = texts.drop_last();
    assert(calm(texts[texts.len() - 1]));
    if before.len() > 0 {
        lemma_run_calm(before);
        lemma_calm_concat(before.flatten_alt(), texts.last());
    } else {
        assert(before.flatten_alt() + texts.last() == texts.last());
    }
}

/// However many blank lines a text has, a chunk that is a run of its sections never has more than one
/// empty line in a row.
pub proof fn law_blank_lines_collapse(
    text: Seq<char>,
    chunk: RawChunkView,
    a: int,
    b: int,
    max: nat,
)
    requires
        pages::marker_count(text::lines(text)) <= u32::MAX,
        pack_laws::is_run(chunk, sections::sections_of(text), a, b, max),
    ensures
        forall|i: int| !#[trigger] triple_newline_at(chunk.text, i),
{
    let list = sections::sections_of(text);
    section_laws::law_sections(text);
    let run = pack_laws::section_texts(list).subrange(a, b);
    assert forall|i: int| 0 <= i < run.len() implies calm(#[trigger] run[i]) by {
        let section = list[a + i];
        assert(section_laws::well_formed_section(section));
        lemma_joined_calm(section.paragraphs);
        lemma_calm_push(text::joined(section.paragraphs, "\n"@));
    }
    lemma_run_calm(run);
}

/// From a text to its chunks nothing is lost. The sections hold the lines of content, the packed
/// chunks hold the sections, each within the maximum, and the chunks hold the packed ones.
pub proof fn law_chunks(text: Seq<char>, target: nat, max: nat, min: nat)
    requires
        pages::marker_count(text::lines(text)) <= u32::MAX,
        paragraph::paragraph_chunks(text, target, max, min) is Some,
    ensures
        ({
            let list = sections::sections_of(text);
            let packed = pack::packed(list, target, max).unwrap();
            let chunks = paragraph::paragraph_chunks(text, target, max, min).unwrap();
            &&& section_laws::sections_text(list) == section_laws::content_text(text::lines(text))
            &&& pack_laws::chunk_texts(packed).flatten_alt() == pack_laws::section_bodies(
                list,
                max,
            ).flatten_alt()
            &&& forall|i: int|
                0 <= i < packed.len() ==> pack_laws::fits(#[trigger] packed[i], list, max)
            &&& merge_laws::joined_text(chunks) == merge_laws::joined_text(packed)
            &&& min == 0 ==> chunks == packed
        }),
{
    section_laws::law_sections(text);
    pack_laws::law_pack(sections::sections_of(text), target, max);
    merge_laws::law_merge(pack::packed(sections::sections_of(text), target, max).unwrap(), min);
}

/// A text without a line of content has no chunks, whatever the sizes.
pub proof fn law_no_content_no_chunks(text: Seq<char>, target: nat, max: nat, min: nat)
    requires
        pages::marker_count(text::lines(text)) <= u32::MAX,
        section_laws::content_text(text::lines(text)).len() == 0,
    ensures
        paragraph::paragraph_chunks(text, target, max, min) == Some(Seq::<RawChunkView>::empty()),
{
    section_laws::law_no_content_no_sections(text);
    assert(sections::sections_of(text) == Seq::<SectionView>::empty());
    assert(pack::packed(sections::sections_of(text), target, max).unwrap().len() == 0);
}

/// A text with a line of content has a chunk, whatever the sizes.
pub proof fn law_content_gives_chunks(text: Seq<char>, target: nat, max: nat, min: nat)
    requires
        pages::marker_count(text::lines(text)) <= u32::MAX,
        section_laws::content_text(text::lines(text)).len() > 0,
        paragraph::paragraph_chunks(text, target, max, min) is Some,
    ensures
        paragraph::paragraph_chunks(text, target, max, min).unwrap().len() > 0,
{
    let list = sections::sections_of(text);
    section_laws::law_sections(text);
    if list.len() == 0 {
        assert(section_laws::sections_text(list).len() == 0);
    }
    assert forall|i: int| 0 <= i < list.len() implies (#[trigger] list[i]).paragraphs.len() > 0 by {
        assert(section_laws::well_formed_section(list[i]));
    }
    pack_laws::law_pack_is_not_empty(list, target, max);
    merge_laws::law_merge(pack::packed(list, target, max).unwrap(), min);
}

/// Every chunk of a text has a page. The pages never go back and never pass the number of page
/// markers.
pub proof fn law_chunk_pages(text: Seq<char>, target: nat, max: nat, min: nat)
    requires
        pages::marker_count(text::lines(text)) <= u32::MAX,
        paragraph::paragraph_chunks(text, target, max, min) is Some,
    ensures
        pack_laws::paged(
            paragraph::paragraph_chunks(text, target, max, min).unwrap(),
            pages::marker_count(text::lines(text)),
        ),
{
    let list = sections::sections_of(text);
    let last = pages::marker_count(text::lines(text));
    section_laws::law_sections(text);
    pack_laws::law_pack_pages(list, target, max, last);
    merge_laws::law_merge_pages(pack::packed(list, target, max).unwrap(), min, last);
}

/// The chunks of a text are its sections, packed and then merged, with the target, the maximum and
/// the minimum each in its place. There are none only where one of the steps has none.
pub proof fn law_chunks_are_packed_and_merged(text: Seq<char>, target: nat, max: nat, min: nat)
    ensures
        ({
            let packed = pack::packed(sections::sections_of(text), target, max);
            match paragraph::paragraph_chunks(text, target, max, min) {
                Some(chunks) => packed is Some && merge::merged(packed.unwrap(), min) == Some(
                    chunks,
                ),
                None => packed is None || merge::merged(packed.unwrap(), min) is None,
            }
        }),
{
}

} // verus!
