//! Packs sections into chunks of a target size.

use crate::ingest::sections;
use crate::ingest::sections::{Section, SectionView};
use crate::ingest::split;
use crate::model;
use crate::model::{RawChunk, RawChunkView};
use crate::text;
use crate::tokenizer;
use vstd::prelude::*;

verus! {

/// Gathers sections into chunks. `level` is the level of the first heading in what was gathered, and
/// `page` the page of its first section.
#[derive(Debug)]
pub struct Packer {
    pub target: usize,
    pub max: usize,
    pub chunk: String,
    pub tokens: usize,
    pub level: Option<u8>,
    pub page: Option<u32>,
    pub out: Vec<RawChunk>,
}

/// What a [`Packer`] holds.
#[verifier::ext_equal]
pub struct PackerView {
    pub target: nat,
    pub max: nat,
    pub chunk: Seq<char>,
    pub tokens: nat,
    pub level: Option<u8>,
    pub page: Option<u32>,
    pub out: Seq<RawChunkView>,
}

impl View for Packer {
    type V = PackerView;

    open spec fn view(&self) -> PackerView {
        PackerView {
            target: self.target as nat,
            max: self.max as nat,
            chunk: self.chunk@,
            tokens: self.tokens as nat,
            level: self.level,
            page: self.page,
            out: model::raw_views(self.out@),
        }
    }
}

/// Before the first section.
pub open spec fn pack_start(target: nat, max: nat) -> PackerView {
    PackerView { target, max, chunk: seq![], tokens: 0, level: None, page: None, out: seq![] }
}

/// What was gathered becomes a chunk, unless it is empty.
pub open spec fn flushed(v: PackerView) -> PackerView {
    PackerView {
        chunk: seq![],
        tokens: 0,
        level: None,
        page: None,
        out: if v.chunk.len() > 0 {
            v.out.push(RawChunkView { text: v.chunk, page: v.page })
        } else {
            v.out
        },
        ..v
    }
}

/// Whether a heading of level `section` ends a chunk whose first heading has level `chunk`: it does
/// unless it is deeper.
pub open spec fn heading_ends_chunk(chunk: Option<u8>, section: Option<u8>) -> bool {
    chunk is Some && section is Some && section.unwrap() <= chunk.unwrap()
}

/// The first of two optional values that is there.
pub open spec fn first_of<T>(a: Option<T>, b: Option<T>) -> Option<T> {
    if a is Some {
        a
    } else {
        b
    }
}

/// One more section of `tokens` tokens. It starts a new chunk where it would take the present one
/// over the maximum, or where its heading ends that one; the present chunk is complete once it has
/// reached the target.
pub open spec fn section_added(
    v: PackerView,
    text: Seq<char>,
    tokens: nat,
    level: Option<u8>,
    page: u32,
) -> PackerView {
    if tokens + v.tokens > v.max || heading_ends_chunk(v.level, level) {
        PackerView { chunk: text, tokens, level, page: Some(page), ..flushed(v) }
    } else {
        let w = PackerView {
            chunk: v.chunk + text,
            tokens: v.tokens + tokens,
            level: first_of(v.level, level),
            page: first_of(v.page, Some(page)),
            ..v
        };
        if tokens + v.tokens >= v.target {
            flushed(w)
        } else {
            w
        }
    }
}

/// The chunks of an oversized section, behind what was gathered.
pub open spec fn split_added(v: PackerView, chunks: Seq<RawChunkView>) -> PackerView {
    PackerView { out: flushed(v).out + chunks, ..flushed(v) }
}

/// The text of a section: its paragraphs with an empty line between them, and a line feed.
pub open spec fn section_text(section: SectionView) -> Seq<char> {
    text::joined(section.paragraphs, "\n"@).push('\n')
}

/// One more section. `None` where the tokenizer reports an error, or where the maximum is zero.
pub open spec fn pack_step(v: PackerView, section: SectionView) -> Option<PackerView> {
    match tokenizer::token_count(section_text(section)) {
        Some(n) => if n > v.max {
            match split::split_section(section, v.max) {
                Some(chunks) => Some(split_added(v, chunks)),
                None => None,
            }
        } else {
            Some(
                section_added(
                    v,
                    section_text(section),
                    n,
                    sections::heading_level(section),
                    section.page,
                ),
            )
        },
        None => None,
    }
}

/// The state behind some sections.
pub open spec fn pack_fold(v: PackerView, list: Seq<SectionView>) -> Option<PackerView>
    decreases list.len(),
{
    if list.len() == 0 {
        Some(v)
    } else {
        match pack_fold(v, list.drop_last()) {
            Some(w) => pack_step(w, list.last()),
            None => None,
        }
    }
}

/// The chunks that sections are packed into. `None` where the tokenizer reports an error, or where
/// the maximum is zero.
pub open spec fn packed(list: Seq<SectionView>, target: nat, max: nat) -> Option<Seq<RawChunkView>> {
    match pack_fold(pack_start(target, max), list) {
        Some(v) => Some(flushed(v).out),
        None => None,
    }
}

impl Packer {
    /// What was gathered never exceeds the maximum and has a page unless it is empty.
    pub open spec fn wf(self) -> bool {
        &&& self.tokens <= self.max
        &&& self.chunk@.len() > 0 ==> self.page is Some
    }

    /// A packer with nothing gathered.
    pub fn new(target: usize, max: usize) -> (res: Self)
        ensures
            res.wf(),
            res@ == pack_start(target as nat, max as nat),
    {
        let res = Packer {
            target,
            max,
            chunk: String::new(),
            tokens: 0,
            level: None,
            page: None,
            out: Vec::new(),
        };
        assert(res@ == pack_start(target as nat, max as nat));
        res
    }

    /// Emits what was gathered, unless it is empty.
    pub fn flush(&mut self)
        requires
            old(self).wf(),
        ensures
            final(self).wf(),
            final(self)@ == flushed(old(self)@),
    {
        let ghost before = self@.out;
        if !self.chunk.as_str().is_empty() {
            let chunk = RawChunk { text: self.chunk.clone(), page: self.page };
            self.out.push(chunk);
            assert(self@.out == before.push(chunk@));
        }
        self.chunk = String::new();
        self.tokens = 0;
        self.level = None;
        self.page = None;
        assert(self@ == flushed(old(self)@));
    }

    /// Adds a section of `tokens` tokens.
    pub fn add_section(&mut self, text: &str, tokens: usize, level: Option<u8>, page: u32)
        requires
            old(self).wf(),
            tokens <= old(self).max,
        ensures
            final(self).wf(),
            final(self)@ == section_added(old(self)@, text@, tokens as nat, level, page),
    {
        let ends = match (self.level, level) {
            (Some(chunk_level), Some(section_level)) => section_level <= chunk_level,
            _ => false,
        };
        if tokens > self.max - self.tokens || ends {
            self.flush();
            self.chunk.append(text);
            self.tokens = tokens;
            self.level = level;
            self.page = Some(page);
            assert(self.chunk@ == text@);
            assert(self@ == section_added(old(self)@, text@, tokens as nat, level, page));
        } else {
            self.chunk.append(text);
            self.tokens = self.tokens + tokens;
            if self.level.is_none() {
                self.level = level;
            }
            if self.page.is_none() {
                self.page = Some(page);
            }
            if self.tokens >= self.target {
                self.flush();
            }
            assert(self@ == section_added(old(self)@, text@, tokens as nat, level, page));
        }
    }

    /// Adds the chunks of an oversized section.
    pub fn add_split(&mut self, chunks: Vec<RawChunk>)
        requires
            old(self).wf(),
        ensures
            final(self).wf(),
            final(self)@ == split_added(old(self)@, model::raw_views(chunks@)),
    {
        let ghost added = model::raw_views(chunks@);
        self.flush();
        let ghost before = self@.out;
        let mut rest = chunks;
        self.out.append(&mut rest);
        assert(self@.out == before + added);
        assert(self@ == split_added(old(self)@, added));
    }
}

/// An error on an earlier section is an error of the whole.
proof fn lemma_pack_none_persists(v: PackerView, list: Seq<SectionView>, n: int)
    requires
        0 <= n <= list.len(),
        pack_fold(v, list.take(n)) is None,
    ensures
        pack_fold(v, list) is None,
    decreases list.len() - n,
{
    if n == list.len() {
        assert(list.take(n) == list);
    } else {
        assert(list.take(n + 1).drop_last() == list.take(n));
        lemma_pack_none_persists(v, list, n + 1);
    }
}

/// Packs sections into chunks of about `target` tokens and at most `max`. `None` where the tokenizer
/// reports an error, or where the maximum is zero.
pub fn pack_sections(list: &Vec<Section>, target: usize, max: usize) -> (res: Option<Vec<RawChunk>>)
    ensures
        packed(sections::section_views(list@), target as nat, max as nat) == (match res {
            Some(chunks) => Some(model::raw_views(chunks@)),
            None => None,
        }),
{
    let ghost start = pack_start(target as nat, max as nat);
    let ghost all = sections::section_views(list@);
    let mut packer = Packer::new(target, max);
    let mut i: usize = 0;
    assert(all.take(0).len() == 0);
    while i < list.len()
        invariant
            all == sections::section_views(list@),
            start == pack_start(target as nat, max as nat),
            packer.wf(),
            packer.max == max,
            i <= list@.len(),
            pack_fold(start, all.take(i as int)) == Some(packer@),
        decreases list@.len() - i,
    {
        let section = &list[i];
        proof {
            assert(all.take(i + 1).drop_last() == all.take(i as int));
            assert(all.take(i + 1).last() == section@);
        }
        let mut body = text::join(&section.paragraphs, "\n");
        body.push('\n');
        match tokenizer::count_plain_tokens(body.as_str()) {
            Some(n) => {
                if n > max {
                    match split::split_oversized_section(section, max) {
                        Some(chunks) => {
                            packer.add_split(chunks);
                        },
                        None => {
                            proof {
                                lemma_pack_none_persists(start, all, i + 1);
                            }
                            return None;
                        },
                    }
                } else {
                    packer.add_section(body.as_str(), n, section.heading_level(), section.page);
                }
            },
            None => {
                proof {
                    lemma_pack_none_persists(start, all, i + 1);
                }
                return None;
            },
        }
        i = i + 1;
    }
    assert(all.take(i as int) == all);
    packer.flush();
    Some(packer.out)
}

} // verus!
