//! Cuts a section that is over the token limit into chunks that fit.

use crate::ingest::sections;
use crate::ingest::sections::{Section, SectionView};
use crate::ingest::split_laws;
use crate::model;
use crate::model::{RawChunk, RawChunkView};
use crate::tokenizer;
use vstd::prelude::*;
use vstd::utf8::*;

verus! {

/// Gathers the paragraphs of an oversized section into chunks of at most `max` tokens. Every chunk
/// but the first starts with `prefix`.
#[derive(Debug)]
pub struct Splitter {
    pub prefix: Option<String>,
    pub page: u32,
    pub max: usize,
    pub acc: String,
    pub acc_tokens: usize,
    pub out: Vec<RawChunk>,
}

/// What a [`Splitter`] holds.
#[verifier::ext_equal]
pub struct SplitterView {
    pub prefix: Option<Seq<char>>,
    pub page: u32,
    pub max: nat,
    pub acc: Seq<char>,
    pub acc_tokens: nat,
    pub out: Seq<RawChunkView>,
}

impl View for Splitter {
    type V = SplitterView;

    open spec fn view(&self) -> SplitterView {
        SplitterView {
            prefix: model::option_text(self.prefix),
            page: self.page,
            max: self.max as nat,
            acc: self.acc@,
            acc_tokens: self.acc_tokens as nat,
            out: model::raw_views(self.out@),
        }
    }
}

/// The text of a chunk before which `emitted` others came.
pub open spec fn prefixed(prefix: Option<Seq<char>>, text: Seq<char>, emitted: nat) -> Seq<char> {
    match prefix {
        Some(p) => if emitted == 0 {
            text
        } else {
            p + text
        },
        None => text,
    }
}

/// One more chunk.
pub open spec fn emitted(v: SplitterView, text: Seq<char>) -> SplitterView {
    SplitterView {
        out: v.out.push(
            RawChunkView { text: prefixed(v.prefix, text, v.out.len()), page: Some(v.page) },
        ),
        ..v
    }
}

/// What was gathered becomes a chunk, unless it is empty.
pub open spec fn flushed(v: SplitterView) -> SplitterView {
    let w = if v.acc.len() > 0 {
        emitted(v, v.acc)
    } else {
        v
    };
    SplitterView { acc: seq![], acc_tokens: 0, ..w }
}

/// A paragraph of `tokens` tokens joins what was gathered where that leaves it within the limit, and
/// starts anew otherwise.
pub open spec fn paragraph_added(v: SplitterView, paragraph: Seq<char>, tokens: nat) -> SplitterView {
    let w = if v.acc.len() > 0 && v.acc_tokens + tokens > v.max {
        flushed(v)
    } else {
        v
    };
    SplitterView { acc: w.acc + paragraph, acc_tokens: w.acc_tokens + tokens, ..w }
}

/// The pieces become one chunk each.
pub open spec fn pieces_emitted(v: SplitterView, pieces: Seq<Seq<char>>) -> SplitterView
    decreases pieces.len(),
{
    if pieces.len() == 0 {
        v
    } else {
        emitted(pieces_emitted(v, pieces.drop_last()), pieces.last())
    }
}

/// Runs of `n` tokens, the last one shorter where `n` does not divide their number.
pub open spec fn slices(tokens: Seq<u32>, n: nat) -> Seq<Seq<u32>>
    decreases tokens.len(),
{
    if tokens.len() == 0 || n == 0 {
        seq![]
    } else if tokens.len() <= n {
        seq![tokens]
    } else {
        seq![tokens.take(n as int)] + slices(tokens.skip(n as int), n)
    }
}

/// The texts of the slices of at most `n` tokens.
pub open spec fn slice_texts(tokens: Seq<u32>, n: nat) -> Seq<Seq<char>> {
    slices(tokens, n).map_values(|t: Seq<u32>| tokenizer::text_of_tokens(t))
}

/// Whether no slice cuts a character apart: the bytes of each are UTF-8.
pub open spec fn slices_whole(tokens: Seq<u32>, n: nat) -> bool {
    forall|j: int|
        0 <= j < slices(tokens, n).len() ==> valid_utf8(
            tokenizer::bytes_of_tokens(#[trigger] slices(tokens, n)[j]),
        )
}

/// Whether a paragraph is not cut by tokens, or only between characters.
pub open spec fn paragraph_whole(paragraph: Seq<char>, max: nat) -> bool {
    match tokenizer::cl100k_encode(paragraph.push('\n')) {
        Some(tokens) => tokens.len() <= max || slices_whole(tokens, max),
        None => true,
    }
}

/// One more paragraph. One that is over the limit by itself is cut by tokens. `None` where the
/// tokenizer reports an error or the limit is zero.
pub open spec fn split_step(v: SplitterView, paragraph: Seq<char>) -> Option<SplitterView> {
    match tokenizer::cl100k_encode(paragraph.push('\n')) {
        Some(tokens) => if tokens.len() <= v.max {
            Some(paragraph_added(v, paragraph.push('\n'), tokens.len()))
        } else if v.max == 0 {
            None
        } else {
            Some(pieces_emitted(flushed(v), slice_texts(tokens, v.max)))
        },
        None => None,
    }
}

/// The state behind some paragraphs.
pub open spec fn split_fold(v: SplitterView, paragraphs: Seq<Seq<char>>) -> Option<SplitterView>
    decreases paragraphs.len(),
{
    if paragraphs.len() == 0 {
        Some(v)
    } else {
        match split_fold(v, paragraphs.drop_last()) {
            Some(w) => split_step(w, paragraphs.last()),
            None => None,
        }
    }
}

/// The heading line of a section with its line feed, if the section starts with a heading.
pub open spec fn heading_prefix(section: SectionView) -> Option<Seq<char>> {
    match sections::heading_level(section) {
        Some(_) => Some(sections::first_line(section).unwrap().push('\n')),
        None => None,
    }
}

/// The prefix for all chunks but the first, and the limit for what stands behind it. A heading that
/// takes a quarter of the limit or more is left out. `None` where the tokenizer reports an error.
pub open spec fn split_budget(section: SectionView, max_size: nat) -> Option<
    (Option<Seq<char>>, nat),
> {
    match heading_prefix(section) {
        Some(prefix) => match tokenizer::token_count(prefix) {
            Some(n) => if n * 4 >= max_size {
                Some((None, max_size))
            } else {
                Some((Some(prefix), (max_size - n) as nat))
            },
            None => None,
        },
        None => Some((None, max_size)),
    }
}

/// Before the first paragraph.
pub open spec fn split_start(prefix: Option<Seq<char>>, page: u32, max: nat) -> SplitterView {
    SplitterView { prefix, page, max, acc: seq![], acc_tokens: 0, out: seq![] }
}

/// The chunks of an oversized section; `None` where the tokenizer reports an error or the limit is
/// zero.
pub open spec fn split_section(section: SectionView, max_size: nat) -> Option<Seq<RawChunkView>> {
    match split_budget(section, max_size) {
        Some(budget) => match split_fold(
            split_start(budget.0, section.page, budget.1),
            section.paragraphs,
        ) {
            Some(v) => Some(flushed(v).out),
            None => None,
        },
        None => None,
    }
}

impl Splitter {
    /// What was gathered never exceeds the limit, and is zero tokens when it is empty.
    pub open spec fn wf(self) -> bool {
        &&& self.acc_tokens <= self.max
        &&& self.acc@.len() == 0 ==> self.acc_tokens == 0
    }

    /// A splitter with nothing gathered.
    pub fn new(prefix: Option<String>, page: u32, max: usize) -> (res: Self)
        ensures
            res.wf(),
            res@ == split_start(model::option_text(prefix), page, max as nat),
    {
        let res = Splitter { prefix, page, max, acc: String::new(), acc_tokens: 0, out: Vec::new() };
        assert(res@ == split_start(model::option_text(prefix), page, max as nat));
        res
    }

    /// Emits one chunk.
    pub fn emit(&mut self, text: String)
        ensures
            final(self)@ == emitted(old(self)@, text@),
            old(self).wf() ==> final(self).wf(),
    {
        let mut whole = String::new();
        if self.out.len() > 0 {
            match &self.prefix {
                Some(p) => {
                    whole.append(p.as_str());
                },
                None => {},
            }
        }
        whole.append(text.as_str());
        proof {
            assert(Seq::<char>::empty() + text@ == text@);
            assert(whole@ == prefixed(self@.prefix, text@, self@.out.len()));
        }
        let ghost before = self@.out;
        let chunk = RawChunk { text: whole, page: Some(self.page) };
        self.out.push(chunk);
        assert(self@.out == before.push(chunk@));
        assert(self@ == emitted(old(self)@, text@));
    }

    /// Emits what was gathered, unless it is empty.
    pub fn flush(&mut self)
        requires
            old(self).wf(),
        ensures
            final(self).wf(),
            final(self)@ == flushed(old(self)@),
    {
        if !self.acc.as_str().is_empty() {
            let gathered = self.acc.clone();
            self.emit(gathered);
        }
        self.acc = String::new();
        self.acc_tokens = 0;
        assert(self@ == flushed(old(self)@));
    }

    /// Adds a paragraph of `tokens` tokens.
    pub fn add_paragraph(&mut self, paragraph: &str, tokens: usize)
        requires
            old(self).wf(),
            tokens <= old(self).max,
            paragraph@.len() > 0,
        ensures
            final(self).wf(),
            final(self)@ == paragraph_added(old(self)@, paragraph@, tokens as nat),
    {
        if !self.acc.as_str().is_empty() && tokens > self.max - self.acc_tokens {
            self.flush();
        }
        self.acc.append(paragraph);
        self.acc_tokens = self.acc_tokens + tokens;
        assert(self@ == paragraph_added(old(self)@, paragraph@, tokens as nat));
    }

    /// Emits the slices of a paragraph that is over the limit. Where none cuts a character apart,
    /// their texts hold the bytes of the tokens.
    pub fn add_slices(&mut self, tokens: &Vec<u32>)
        requires
            old(self).wf(),
            old(self).max > 0,
            tokenizer::in_vocabulary(tokens@),
        ensures
            final(self).wf(),
            final(self)@ == pieces_emitted(
                flushed(old(self)@),
                slice_texts(tokens@, old(self).max as nat),
            ),
            slices_whole(tokens@, old(self).max as nat) ==> encode_utf8(
                slice_texts(tokens@, old(self).max as nat).flatten_alt(),
            ) == tokenizer::bytes_of_tokens(tokens@),
    {
        let n: usize = self.max;
        self.flush();
        let ghost start = self@;
        let ghost all = slice_texts(tokens@, n as nat);
        let ghost mut done: Seq<Seq<char>> = seq![];
        let mut from: usize = 0;
        proof {
            assert(tokens@.skip(0) == tokens@);
            assert(tokens@.take(0).len() == 0);
            assert(done + all == all);
        }
        while from < tokens.len()
            invariant
                self.wf(),
                self.max == n,
                slices_whole(tokens@, n as nat) ==> slices_whole(
                    tokens@.skip(from as int),
                    n as nat,
                ),
                slices_whole(tokens@, n as nat) ==> encode_utf8(done.flatten_alt())
                    == tokenizer::bytes_of_tokens(tokens@.take(from as int)),
                n > 0,
                tokenizer::in_vocabulary(tokens@),
                from <= tokens@.len(),
                all == slice_texts(tokens@, n as nat),
                done + slice_texts(tokens@.skip(from as int), n as nat) == all,
                self@ == pieces_emitted(start, done),
            decreases tokens@.len() - from,
        {
            let to: usize = if tokens.len() - from <= n {
                tokens.len()
            } else {
                from + n
            };
            let piece = tokenizer::decode_text(tokens, from, to);
            proof {
                let rest = tokens@.skip(from as int);
                let slice = tokens@.subrange(from as int, to as int);
                let tail = tokens@.skip(to as int);
                assert(slices(rest, n as nat) == seq![slice] + slices(tail, n as nat)) by {
                    if to == tokens@.len() {
                        assert(slice == rest);
                        assert(tail.len() == 0);
                        assert(seq![slice] + Seq::<Seq<u32>>::empty() == seq![slice]);
                    } else {
                        assert(rest.take(n as int) == slice);
                        assert(rest.skip(n as int) == tail);
                    }
                }
                assert(slice_texts(rest, n as nat) == seq![piece@] + slice_texts(tail, n as nat));
                assert(done.push(piece@) + slice_texts(tail, n as nat) == done + slice_texts(
                    rest,
                    n as nat,
                ));
                if slices_whole(tokens@, n as nat) {
                    let parts = slices(rest, n as nat);
                    assert(valid_utf8(tokenizer::bytes_of_tokens(parts[0])));
                    assert forall|j: int| 0 <= j < slices(tail, n as nat).len() implies valid_utf8(
                        tokenizer::bytes_of_tokens(#[trigger] slices(tail, n as nat)[j]),
                    ) by {
                        assert(slices(tail, n as nat)[j] == parts[j + 1]);
                    }
                    split_laws::lemma_flatten_push(done, piece@);
                    tokenizer::lemma_encode_utf8_concat(done.flatten_alt(), piece@);
                    assert(tokens@.take(to as int) == tokens@.take(from as int) + slice);
                    tokenizer::lemma_bytes_of_tokens_concat(tokens@.take(from as int), slice);
                }
                assert(done.push(piece@).drop_last() == done);
                done = done.push(piece@);
            }
            self.emit(piece);
            from = to;
        }
        proof {
            assert(tokens@.skip(from as int).len() == 0);
            assert(slice_texts(tokens@.skip(from as int), n as nat) == Seq::<Seq<char>>::empty());
            assert(done + Seq::<Seq<char>>::empty() == done);
            assert(tokens@.take(from as int) == tokens@);
        }
    }
}

/// An error on an earlier paragraph is an error of the whole.
proof fn lemma_split_none_persists(v: SplitterView, paragraphs: Seq<Seq<char>>, n: int)
    requires
        0 <= n <= paragraphs.len(),
        split_fold(v, paragraphs.take(n)) is None,
    ensures
        split_fold(v, paragraphs) is None,
    decreases paragraphs.len() - n,
{
    if n == paragraphs.len() {
        assert(paragraphs.take(n) == paragraphs);
    } else {
        assert(paragraphs.take(n + 1).drop_last() == paragraphs.take(n));
        lemma_split_none_persists(v, paragraphs, n + 1);
    }
}

/// The prefix and the limit for the chunks of an oversized section.
fn budget_of(section: &Section, max_size: usize) -> (res: Option<(Option<String>, usize)>)
    ensures
        split_budget(section@, max_size as nat) == (match res {
            Some(b) => Some((model::option_text(b.0), b.1 as nat)),
            None => None,
        }),
{
    match (section.heading_level(), section.first_line()) {
        (Some(_), Some(line)) => {
            let mut prefix = line;
            prefix.push('\n');
            match tokenizer::count_plain_tokens(prefix.as_str()) {
                Some(n) => {
                    let quarter: usize = max_size / 4 + if max_size % 4 == 0 {
                        0
                    } else {
                        1
                    };
                    if n >= quarter {
                        Some((None, max_size))
                    } else {
                        Some((Some(prefix), max_size - n))
                    }
                },
                None => None,
            }
        },
        _ => Some((None, max_size)),
    }
}

/// Cuts a section that is over the limit of `max_size` tokens into chunks. `None` where the tokenizer
/// reports an error or the limit is zero. Where no character is cut apart, the chunks hold all the
/// paragraphs, each with a line feed behind it.
pub fn split_oversized_section(section: &Section, max_size: usize) -> (res: Option<Vec<RawChunk>>)
    ensures
        split_section(section@, max_size as nat) == (match res {
            Some(chunks) => Some(model::raw_views(chunks@)),
            None => None,
        }),
        res is Some ==> split_laws::keeps_paragraphs(
            model::raw_views(res.unwrap()@),
            section@,
            max_size as nat,
        ),
{
    let (prefix, max) = match budget_of(section, max_size) {
        Some(budget) => budget,
        None => {
            return None;
        },
    };
    let ghost start = split_start(model::option_text(prefix), section.page, max as nat);
    let ghost all = section@.paragraphs;
    let mut splitter = Splitter::new(prefix, section.page, max);
    let mut i: usize = 0;
    assert(all.take(0).len() == 0);
    while i < section.paragraphs.len()
        invariant
            all == section@.paragraphs,
            splitter.wf(),
            splitter.max == max,
            i <= section.paragraphs@.len(),
            split_budget(section@, max_size as nat) == Some((start.prefix, max as nat)),
            start == split_start(start.prefix, section.page, max as nat),
            split_fold(start, all.take(i as int)) == Some(splitter@),
            forall|j: int|
                0 <= j < i && paragraph_whole(#[trigger] all[j], max as nat) ==> split_laws::body(
                    all[j],
                    max as nat,
                ) == all[j].push('\n'),
        decreases section.paragraphs@.len() - i,
    {
        let paragraph = &section.paragraphs[i];
        proof {
            assert(all.take(i + 1).drop_last() == all.take(i as int));
            assert(all.take(i + 1).last() == paragraph@);
        }
        let mut with_newline = paragraph.clone();
        with_newline.push('\n');
        match tokenizer::encode(with_newline.as_str()) {
            Some(tokens) => {
                if tokens.len() <= max {
                    splitter.add_paragraph(with_newline.as_str(), tokens.len());
                } else if max == 0 {
                    proof {
                        lemma_split_none_persists(start, all, i + 1);
                    }
                    return None;
                } else {
                    splitter.add_slices(&tokens);
                    proof {
                        if paragraph_whole(all[i as int], max as nat) {
                            encode_utf8_decode_utf8(with_newline@);
                            encode_utf8_decode_utf8(
                                slice_texts(tokens@, max as nat).flatten_alt(),
                            );
                        }
                        lemma_pieces_keep_max(
                            flushed(split_fold(start, all.take(i as int)).unwrap()),
                            slice_texts(tokens@, max as nat),
                        );
                    }
                }
            },
            None => {
                proof {
                    lemma_split_none_persists(start, all, i + 1);
                }
                return None;
            },
        }
        i = i + 1;
    }
    assert(all.take(i as int) == all);
    splitter.flush();
    proof {
        split_laws::lemma_keeps_paragraphs(section@, max_size as nat);
    }
    Some(splitter.out)
}

/// Emitting pieces leaves limit, prefix and page alone.
proof fn lemma_pieces_keep_max(v: SplitterView, pieces: Seq<Seq<char>>)
    ensures
        pieces_emitted(v, pieces).max == v.max,
        pieces_emitted(v, pieces).prefix == v.prefix,
        pieces_emitted(v, pieces).page == v.page,
        pieces_emitted(v, pieces).acc == v.acc,
        pieces_emitted(v, pieces).acc_tokens == v.acc_tokens,
    decreases pieces.len(),
{
    if pieces.len() > 0 {
        lemma_pieces_keep_max(v, pieces.drop_last());
    }
}

} // verus!
