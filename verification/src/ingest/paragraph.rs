//! Chunks along sections and paragraphs.

use crate::ingest::merge;
use crate::ingest::pack;
use crate::ingest::pages;
use crate::ingest::sections;
use crate::ingest::sections::Section;
use crate::ingest::split;
use crate::ingest::split_laws;
use crate::model;
use crate::model::{RawChunk, RawChunkView};
use crate::page_marker;
use crate::text;
use vstd::prelude::*;

verus! {

/// Packs the sections of a text into chunks. Sizes are in tokens.
#[derive(Debug, Clone, Copy)]
pub struct ParagraphChunker {
    pub target_size: usize,
    pub max_size: usize,
    pub min_size: usize,
}

/// The chunks of a text. `None` where the tokenizer reports an error, or where the maximum is zero.
pub open spec fn paragraph_chunks(text: Seq<char>, target: nat, max: nat, min: nat) -> Option<
    Seq<RawChunkView>,
> {
    match pack::packed(sections::sections_of(text), target, max) {
        Some(chunks) => merge::merged(chunks, min),
        None => None,
    }
}

/// Whether a `u32` can count the page markers of a text.
fn markers_fit(text: &str) -> (res: bool)
    ensures
        res == (pages::marker_count(text::lines(text@)) <= u32::MAX),
{
    let lines = text::lines_of(text);
    let ghost all = text::lines(text@);
    let mut count: u32 = 0;
    let mut i: usize = 0;
    assert(all.take(0).len() == 0);
    while i < lines.len()
        invariant
            all == text::texts(lines@),
            all == text::lines(text@),
            i <= lines@.len(),
            count == pages::marker_count(all.take(i as int)),
        decreases lines@.len() - i,
    {
        proof {
            assert(all.take(i + 1).drop_last() == all.take(i as int));
            assert(all.take(i + 1).last() == lines[i as int]@);
        }
        if page_marker::is_page_marker(lines[i].as_str()) {
            if count == u32::MAX {
                proof {
                    pages::lemma_marker_count_prefix(all, i + 1);
                }
                return false;
            }
            count = count + 1;
        }
        i = i + 1;
    }
    assert(all.take(i as int) == all);
    true
}

impl ParagraphChunker {
    /// The sections of a text.
    pub fn parse_sections(&self, text: &str) -> (res: Vec<Section>)
        requires
            pages::marker_count(text::lines(text@)) <= u32::MAX,
        ensures
            sections::section_views(res@) == sections::sections_of(text@),
    {
        sections::parse_sections(text)
    }

    /// The chunks that sections are packed into. `None` where the tokenizer reports an error, or
    /// where the maximum is zero.
    pub fn pack_sections(&self, list: &Vec<Section>) -> (res: Option<Vec<RawChunk>>)
        ensures
            pack::packed(
                sections::section_views(list@),
                self.target_size as nat,
                self.max_size as nat,
            ) == (match res {
                Some(chunks) => Some(model::raw_views(chunks@)),
                None => None,
            }),
    {
        pack::pack_sections(list, self.target_size, self.max_size)
    }

    /// The chunks of a section that is over the maximum. `None` where the tokenizer reports an error,
    /// or where the maximum is zero. Where no character is cut apart, the chunks hold all the
    /// paragraphs.
    pub fn split_oversized_section(&self, section: &Section) -> (res: Option<Vec<RawChunk>>)
        ensures
            split::split_section(section@, self.max_size as nat) == (match res {
                Some(chunks) => Some(model::raw_views(chunks@)),
                None => None,
            }),
            res is Some ==> split_laws::keeps_paragraphs(
                model::raw_views(res.unwrap()@),
                section@,
                self.max_size as nat,
            ),
    {
        split::split_oversized_section(section, self.max_size)
    }

    /// The chunks after small ones have joined a neighbour. `None` where the tokenizer reports an
    /// error.
    pub fn merge_small_chunks(&self, chunks: Vec<RawChunk>) -> (res: Option<Vec<RawChunk>>)
        ensures
            merge::merged(model::raw_views(chunks@), self.min_size as nat) == (match res {
                Some(out) => Some(model::raw_views(out@)),
                None => None,
            }),
    {
        merge::merge_small_chunks(chunks, self.min_size)
    }

    /// The chunks of a text that can be chunked.
    pub fn chunk_text(&self, text: &str) -> (res: Vec<RawChunk>)
        requires
            pages::marker_count(text::lines(text@)) <= u32::MAX,
            paragraph_chunks(
                text@,
                self.target_size as nat,
                self.max_size as nat,
                self.min_size as nat,
            ) is Some,
        ensures
            Some(model::raw_views(res@)) == paragraph_chunks(
                text@,
                self.target_size as nat,
                self.max_size as nat,
                self.min_size as nat,
            ),
    {
        let list = self.parse_sections(text);
        match self.pack_sections(&list) {
            Some(packed) => match self.merge_small_chunks(packed) {
                Some(chunks) => chunks,
                None => Vec::new(),
            },
            None => Vec::new(),
        }
    }

    /// Whether a text can be chunked: the tokenizer takes all its parts, no section has to be split
    /// to a maximum of zero, and its pages can be numbered.
    pub fn can_chunk(&self, text: &str) -> (res: bool)
        ensures
            res == (pages::marker_count(text::lines(text@)) <= u32::MAX && paragraph_chunks(
                text@,
                self.target_size as nat,
                self.max_size as nat,
                self.min_size as nat,
            ) is Some),
    {
        if !markers_fit(text) {
            return false;
        }
        let list = self.parse_sections(text);
        match self.pack_sections(&list) {
            Some(packed) => self.merge_small_chunks(packed).is_some(),
            None => false,
        }
    }

    /// The chunks of a text, `None` if it cannot be chunked.
    pub fn try_chunk_text(&self, text: &str) -> (res: Option<Vec<RawChunk>>)
        ensures
            res is Some <==> (pages::marker_count(text::lines(text@)) <= u32::MAX
                && paragraph_chunks(
                text@,
                self.target_size as nat,
                self.max_size as nat,
                self.min_size as nat,
            ) is Some),
            res is Some ==> Some(model::raw_views(res.unwrap()@)) == paragraph_chunks(
                text@,
                self.target_size as nat,
                self.max_size as nat,
                self.min_size as nat,
            ),
    {
        if self.can_chunk(text) {
            Some(self.chunk_text(text))
        } else {
            None
        }
    }
}

} // verus!
