//! Chunks of a fixed number of tokens.

use crate::ingest::pages;
use crate::model;
use crate::model::{RawChunk, RawChunkView};
use crate::page_marker;
use crate::text;
use crate::tokenizer;
use vstd::prelude::*;
use vstd::utf8::*;

verus! {

/// Cuts each page into windows of `size` tokens, of which neighbours share `overlap` tokens.
#[derive(Debug)]
pub struct FixedSizeChunker {
    pub size: usize,
    pub overlap: usize,
}

/// The tokens of a page: those of each line with its line feed, one after another.
pub open spec fn page_tokens(lines: Seq<Seq<char>>) -> Option<Seq<u32>>
    decreases lines.len(),
{
    if lines.len() == 0 {
        Some(seq![])
    } else {
        match (page_tokens(lines.drop_last()), tokenizer::cl100k_encode(lines.last().push('\n'))) {
            (Some(before), Some(tokens)) => Some(before + tokens),
            _ => None,
        }
    }
}

/// The tokens of each page; `None` where the tokenizer reports an error on some line.
pub open spec fn tokens_of_pages(pages: Seq<Seq<Seq<char>>>) -> Option<Seq<Seq<u32>>>
    decreases pages.len(),
{
    if pages.len() == 0 {
        Some(seq![])
    } else {
        match (tokens_of_pages(pages.drop_last()), page_tokens(pages.last())) {
            (Some(before), Some(tokens)) => Some(before.push(tokens)),
            _ => None,
        }
    }
}

/// Whether the windows over `len` tokens advance: a second window is only needed where the first
/// does not reach the end, and it starts further on if the overlap is below the size.
pub open spec fn advances(size: nat, overlap: nat, len: nat) -> bool {
    overlap < size || len <= size
}

/// The windows from `start` on: each covers `size` tokens or what is left, and the next one starts
/// `overlap` tokens before its end.
pub open spec fn windows_from(start: int, len: int, size: nat, overlap: nat) -> Seq<(int, int)>
    decreases len - start,
{
    if start >= len {
        seq![]
    } else if start + size >= len {
        seq![(start, len)]
    } else if overlap >= size {
        seq![]
    } else {
        seq![(start, start + size as int)] + windows_from(
            start + size - overlap,
            len,
            size,
            overlap,
        )
    }
}

/// The chunks of one page.
pub open spec fn page_chunks(tokens: Seq<u32>, page: u32, size: nat, overlap: nat) -> Seq<
    RawChunkView,
> {
    windows_from(0, tokens.len() as int, size, overlap).map_values(
        |w: (int, int)|
            RawChunkView {
                text: tokenizer::text_of_tokens(tokens.subrange(w.0, w.1)),
                page: Some(page),
            },
    )
}

/// The chunks of all pages, page after page. Page numbers count from one.
pub open spec fn chunks_of_pages(pages: Seq<Seq<u32>>, size: nat, overlap: nat) -> Seq<RawChunkView>
    decreases pages.len(),
{
    if pages.len() == 0 {
        seq![]
    } else {
        chunks_of_pages(pages.drop_last(), size, overlap) + page_chunks(
            pages.last(),
            pages.len() as u32,
            size,
            overlap,
        )
    }
}

/// Whether the windows advance on every page.
pub open spec fn all_advance(pages: Seq<Seq<u32>>, size: nat, overlap: nat) -> bool {
    forall|i: int| 0 <= i < pages.len() ==> advances(size, overlap, #[trigger] pages[i].len())
}

/// The tokens of the pages of a text; `None` where the tokenizer reports an error.
pub open spec fn tokenized(text: Seq<char>) -> Option<Seq<Seq<u32>>> {
    tokens_of_pages(pages::pages(text::lines(text)))
}

/// The chunks of a text; `None` where the tokenizer reports an error on a line, or where the windows
/// over some page would not advance.
pub open spec fn fixed_chunks(text: Seq<char>, size: nat, overlap: nat) -> Option<
    Seq<RawChunkView>,
> {
    match tokenized(text) {
        Some(pages) => if all_advance(pages, size, overlap) {
            Some(chunks_of_pages(pages, size, overlap))
        } else {
            None
        },
        None => None,
    }
}

/// The contents of each vector of a list.
pub open spec fn token_views(list: Seq<Vec<u32>>) -> Seq<Seq<u32>> {
    list.map_values(|v: Vec<u32>| v@)
}

/// The tokens of a page whose last line is added.
proof fn lemma_tokens_of_pages_last(before: Seq<Seq<Seq<char>>>, line: Seq<char>)
    requires
        before.len() > 0,
    ensures
        tokens_of_pages(before.drop_last().push(before.last().push(line))) == (match (
            tokens_of_pages(before),
            tokenizer::cl100k_encode(line.push('\n')),
        ) {
            (Some(t), Some(tokens)) => Some(t.drop_last().push(t.last() + tokens)),
            _ => None,
        }),
{
    let grown = before.drop_last().push(before.last().push(line));
    assert(grown.drop_last() == before.drop_last());
    assert(before.last().push(line).drop_last() == before.last());
    match tokens_of_pages(before) {
        Some(t) => {
            assert(t.drop_last() == tokens_of_pages(before.drop_last()).unwrap());
        },
        None => {},
    }
}

/// An error on an earlier line is an error of the whole.
proof fn lemma_tokens_none_persists(lines: Seq<Seq<char>>, n: int)
    requires
        0 <= n <= lines.len(),
        tokens_of_pages(pages::pages(lines.take(n))) is None,
    ensures
        tokens_of_pages(pages::pages(lines)) is None,
    decreases lines.len() - n,
{
    if n == lines.len() {
        assert(lines.take(n) == lines);
    } else {
        let now = lines.take(n);
        let next = lines.take(n + 1);
        assert(next.drop_last() == now);
        let before = pages::pages(now);
        if page_marker::page_marker(next.last()) {
            assert(before.push(seq![]).drop_last() == before);
        } else if before.len() > 0 {
            lemma_tokens_of_pages_last(before, next.last());
        }
        lemma_tokens_none_persists(lines, n + 1);
    }
}

/// The text of a page: its lines, each with a line feed behind it.
pub open spec fn page_text(lines: Seq<Seq<char>>) -> Seq<char>
    decreases lines.len(),
{
    if lines.len() == 0 {
        seq![]
    } else {
        page_text(lines.drop_last()) + lines.last().push('\n')
    }
}

/// Whether the bytes of each page's tokens are those of the page's text.
pub open spec fn page_bytes_kept(tokens: Seq<Seq<u32>>, pages: Seq<Seq<Seq<char>>>) -> bool {
    &&& tokens.len() == pages.len()
    &&& forall|i: int|
        0 <= i < tokens.len() ==> tokenizer::bytes_of_tokens(#[trigger] tokens[i]) == encode_utf8(
            page_text(pages[i]),
        )
}

/// Whether a window's text encodes to the window's bytes, provided that these are UTF-8.
pub open spec fn read_back(tokens: Seq<u32>, window: (int, int)) -> bool {
    let bytes = tokenizer::bytes_of_tokens(tokens.subrange(window.0, window.1));
    valid_utf8(bytes) ==> encode_utf8(
        tokenizer::text_of_tokens(tokens.subrange(window.0, window.1)),
    ) == bytes
}

/// Adding a line's tokens to the last page keeps the pages' bytes.
proof fn lemma_grown_page_bytes(
    kept: Seq<Seq<u32>>,
    before: Seq<Seq<Seq<char>>>,
    added: Seq<u32>,
    line: Seq<char>,
)
    requires
        before.len() > 0,
        page_bytes_kept(kept, before),
        tokenizer::bytes_of_tokens(added) == encode_utf8(line.push('\n')),
    ensures
        page_bytes_kept(
            kept.drop_last().push(kept.last() + added),
            before.drop_last().push(before.last().push(line)),
        ),
{
    tokenizer::lemma_bytes_of_tokens_concat(kept.last(), added);
    tokenizer::lemma_encode_utf8_concat(page_text(before.last()), line.push('\n'));
    assert(before.last().push(line).drop_last() == before.last());
}

impl FixedSizeChunker {
    /// The tokens of each page of a text; `None` where the tokenizer reports an error.
    pub fn tokenize(text: &str) -> (res: Option<Vec<Vec<u32>>>)
        ensures
            tokenized(text@) == (match res {
                Some(pages) => Some(token_views(pages@)),
                None => None,
            }),
            res is Some ==> forall|i: int|
                0 <= i < res.unwrap()@.len() ==> tokenizer::in_vocabulary(
                    #[trigger] res.unwrap()@[i]@,
                ),
            res is Some ==> page_bytes_kept(
                token_views(res.unwrap()@),
                pages::pages(text::lines(text@)),
            ),
    {
        let lines = text::lines_of(text);
        let ghost all = text::lines(text@);
        let mut out: Vec<Vec<u32>> = Vec::new();
        let mut i: usize = 0;
        assert(all.take(0).len() == 0);
        assert(token_views(out@) == Seq::<Seq<u32>>::empty());
        while i < lines.len()
            invariant
                all == text::lines(text@),
                text::texts(lines@) == all,
                i <= lines@.len(),
                tokens_of_pages(pages::pages(all.take(i as int))) == Some(token_views(out@)),
                pages::pages(all.take(i as int)).len() == out@.len(),
                forall|j: int|
                    0 <= j < out@.len() ==> tokenizer::in_vocabulary(#[trigger] out@[j]@),
                page_bytes_kept(token_views(out@), pages::pages(all.take(i as int))),
            decreases lines@.len() - i,
        {
            let line = &lines[i];
            let ghost now = all.take(i as int);
            let ghost next = all.take(i + 1);
            let ghost before = pages::pages(now);
            proof {
                assert(next.drop_last() == now);
                assert(next.last() == line@);
            }
            if page_marker::is_page_marker(line.as_str()) {
                let ghost kept = token_views(out@);
                out.push(Vec::new());
                proof {
                    assert(before.push(seq![]).drop_last() == before);
                    assert(token_views(out@) == kept.push(seq![]));
                    assert(encode_utf8(seq![]) == Seq::<u8>::empty());
                }
            } else if out.len() > 0 {
                let mut with_newline = line.clone();
                with_newline.push('\n');
                proof {
                    lemma_tokens_of_pages_last(before, line@);
                }
                match tokenizer::encode(with_newline.as_str()) {
                    Some(tokens) => {
                        let ghost kept = token_views(out@);
                        let ghost whole = out@;
                        let mut tokens = tokens;
                        let ghost added = tokens@;
                        match out.pop() {
                            Some(page) => {
                                let mut page = page;
                                let ghost old_page = page@;
                                page.append(&mut tokens);
                                out.push(page);
                                proof {
                                    assert(kept.last() == old_page);
                                    assert(token_views(out@) == kept.drop_last().push(
                                        kept.last() + added,
                                    ));
                                    assert(tokenizer::in_vocabulary(whole[whole.len() - 1]@));
                                    lemma_grown_page_bytes(kept, before, added, line@);
                                    assert forall|j: int|
                                        0 <= j
                                            < out@.len() implies tokenizer::in_vocabulary(
                                        #[trigger] out@[j]@,
                                    ) by {
                                        if j < out@.len() - 1 {
                                            assert(out@[j] == whole[j]);
                                        }
                                    }
                                }
                            },
                            None => {},
                        }
                    },
                    None => {
                        proof {
                            lemma_tokens_none_persists(all, i + 1);
                        }
                        return None;
                    },
                }
            }
            i = i + 1;
        }
        assert(all.take(i as int) == all);
        Some(out)
    }

    /// The windows over a page of `len` tokens, as pairs of a start and an end.
    pub fn windows(&self, len: usize) -> (res: Vec<(usize, usize)>)
        requires
            advances(self.size as nat, self.overlap as nat, len as nat),
        ensures
            res@.map_values(|w: (usize, usize)| (w.0 as int, w.1 as int)) == windows_from(
                0,
                len as int,
                self.size as nat,
                self.overlap as nat,
            ),
    {
        let mut out: Vec<(usize, usize)> = Vec::new();
        let mut start: usize = 0;
        let ghost pair = |w: (usize, usize)| (w.0 as int, w.1 as int);
        let ghost whole = windows_from(0, len as int, self.size as nat, self.overlap as nat);
        assert(out@.map_values(pair) + whole == whole);
        while start < len
            invariant
                pair == (|w: (usize, usize)| (w.0 as int, w.1 as int)),
                advances(self.size as nat, self.overlap as nat, len as nat),
                whole == windows_from(0, len as int, self.size as nat, self.overlap as nat),
                out@.map_values(pair) + windows_from(
                    start as int,
                    len as int,
                    self.size as nat,
                    self.overlap as nat,
                ) == whole,
            decreases (if start < len { len - start } else { 0 }),
        {
            let ghost before = out@.map_values(pair);
            let ghost rest = windows_from(
                start as int,
                len as int,
                self.size as nat,
                self.overlap as nat,
            );
            if len - start <= self.size {
                out.push((start, len));
                proof {
                    assert(out@.map_values(pair) == before.push((start as int, len as int)));
                    assert(before.push((start as int, len as int)) + seq![] == before + rest);
                }
                start = len;
            } else {
                let end: usize = start + self.size;
                out.push((start, end));
                proof {
                    assert(out@.map_values(pair) == before.push((start as int, end as int)));
                    let tail = windows_from(
                        end - self.overlap,
                        len as int,
                        self.size as nat,
                        self.overlap as nat,
                    );
                    assert(before.push((start as int, end as int)) + tail == before + rest);
                }
                start = end - self.overlap;
            }
        }
        assert(out@.map_values(pair) + seq![] == out@.map_values(pair));
        out
    }

    /// The chunks of pages that are given as tokens.
    pub fn chunk_pages(&self, pages: &Vec<Vec<u32>>) -> (res: Vec<RawChunk>)
        requires
            all_advance(token_views(pages@), self.size as nat, self.overlap as nat),
            forall|i: int|
                0 <= i < pages@.len() ==> tokenizer::in_vocabulary(#[trigger] pages@[i]@),
        ensures
            model::raw_views(res@) == chunks_of_pages(
                token_views(pages@),
                self.size as nat,
                self.overlap as nat,
            ),
            forall|i: int, k: int|
                0 <= i < pages@.len() && 0 <= k < windows_from(
                    0,
                    pages@[i]@.len() as int,
                    self.size as nat,
                    self.overlap as nat,
                ).len() ==> #[trigger] read_back(
                    pages@[i]@,
                    windows_from(
                        0,
                        pages@[i]@.len() as int,
                        self.size as nat,
                        self.overlap as nat,
                    )[k],
                ),
    {
        let ghost size = self.size as nat;
        let ghost overlap = self.overlap as nat;
        let ghost all = token_views(pages@);
        let mut out: Vec<RawChunk> = Vec::new();
        let mut i: usize = 0;
        assert(all.take(0).len() == 0);
        assert(model::raw_views(out@) == chunks_of_pages(all.take(0), size, overlap));
        while i < pages.len()
            invariant
                size == self.size,
                overlap == self.overlap,
                all == token_views(pages@),
                all_advance(all, size, overlap),
                forall|j: int|
                    0 <= j < pages@.len() ==> tokenizer::in_vocabulary(#[trigger] pages@[j]@),
                i <= pages@.len(),
                model::raw_views(out@) == chunks_of_pages(all.take(i as int), size, overlap),
                forall|j: int, k: int|
                    0 <= j < i && 0 <= k < windows_from(
                        0,
                        pages@[j]@.len() as int,
                        size,
                        overlap,
                    ).len() ==> #[trigger] read_back(
                        pages@[j]@,
                        windows_from(0, pages@[j]@.len() as int, size, overlap)[k],
                    ),
            decreases pages@.len() - i,
        {
            let page = &pages[i];
            let number: u32 = (i + 1) as u32;
            assert(all[i as int] == page@);
            let windows = self.windows(page.len());
            let ghost before = model::raw_views(out@);
            let ghost here = page_chunks(page@, number, size, overlap);
            let mut k: usize = 0;
            assert(before + here.take(0) == before);
            while k < windows.len()
                invariant
                    tokenizer::in_vocabulary(page@),
                    windows@.map_values(|w: (usize, usize)| (w.0 as int, w.1 as int))
                        == windows_from(0, page@.len() as int, size, overlap),
                    here == page_chunks(page@, number, size, overlap),
                    k <= windows@.len(),
                    here.len() == windows@.len(),
                    model::raw_views(out@) == before + here.take(k as int),
                    forall|h: int|
                        0 <= h < k ==> #[trigger] read_back(
                            page@,
                            windows_from(0, page@.len() as int, size, overlap)[h],
                        ),
                decreases windows@.len() - k,
            {
                let (from, to) = windows[k];
                proof {
                    let spec_windows = windows_from(0, page@.len() as int, size, overlap);
                    assert(spec_windows[k as int] == (from as int, to as int));
                    lemma_window_bounds(0, page@.len() as int, size, overlap, k as int);
                }
                let chunk = RawChunk {
                    text: tokenizer::decode_text(page, from, to),
                    page: Some(number),
                };
                let ghost kept = model::raw_views(out@);
                out.push(chunk);
                proof {
                    assert(chunk@ == here[k as int]);
                    assert(model::raw_views(out@) == kept.push(chunk@));
                    assert(here.take(k + 1) == here.take(k as int).push(here[k as int]));
                    assert(before + here.take(k + 1) == (before + here.take(k as int)).push(
                        here[k as int],
                    ));
                }
                k = k + 1;
            }
            proof {
                assert(here.take(k as int) == here);
                assert(all.take(i + 1).drop_last() == all.take(i as int));
                assert(all.take(i + 1).last() == page@);
            }
            i = i + 1;
        }
        assert(all.take(i as int) == all);
        out
    }
}

impl FixedSizeChunker {
    /// Whether [`chunk_text`](Self::chunk_text) accepts a text.
    pub fn can_chunk(&self, text: &str) -> (res: bool)
        ensures
            res == (fixed_chunks(text@, self.size as nat, self.overlap as nat) is Some),
    {
        match Self::tokenize(text) {
            Some(pages) => {
                let mut i: usize = 0;
                while i < pages.len()
                    invariant
                        tokenized(text@) == Some(token_views(pages@)),
                        i <= pages@.len(),
                        forall|j: int|
                            0 <= j < i ==> advances(
                                self.size as nat,
                                self.overlap as nat,
                                #[trigger] token_views(pages@)[j].len(),
                            ),
                    decreases pages@.len() - i,
                {
                    if !(self.overlap < self.size || pages[i].len() <= self.size) {
                        assert(!advances(
                            self.size as nat,
                            self.overlap as nat,
                            token_views(pages@)[i as int].len(),
                        ));
                        return false;
                    }
                    i = i + 1;
                }
                true
            },
            None => false,
        }
    }

    /// Cuts a text into chunks. Each page is cut on its own, and pages are numbered from one in the
    /// order of their markers. Where no window cuts a character apart and windows do not overlap,
    /// the chunks on each page hold its text, and all chunks that of all pages.
    pub fn chunk_text(&self, text: &str) -> (res: Vec<RawChunk>)
        requires
            fixed_chunks(text@, self.size as nat, self.overlap as nat) is Some,
        ensures
            Some(model::raw_views(res@)) == fixed_chunks(
                text@,
                self.size as nat,
                self.overlap as nat,
            ),
            self.overlap == 0 && characters_whole(
                tokenized(text@).unwrap(),
                self.size as nat,
                self.overlap as nat,
            ) ==> texts_of(model::raw_views(res@)) == text_of_pages(
                pages::pages(text::lines(text@)),
            ),
            self.overlap == 0 && characters_whole(
                tokenized(text@).unwrap(),
                self.size as nat,
                self.overlap as nat,
            ) && pages::pages(text::lines(text@)).len() <= u32::MAX ==> forall|p: int|
                0 <= p < pages::pages(text::lines(text@)).len() ==> texts_of(
                    on_page(model::raw_views(res@), (p + 1) as u32),
                ) == page_text(#[trigger] pages::pages(text::lines(text@))[p]),
    {
        match Self::tokenize(text) {
            Some(pages) => {
                let out = self.chunk_pages(&pages);
                proof {
                    let size = self.size as nat;
                    if self.overlap == 0 && characters_whole(token_views(pages@), size, 0) {
                        let tokens = token_views(pages@);
                        assert forall|i: int, k: int|
                            0 <= i < tokens.len() && 0 <= k < windows_from(
                                0,
                                tokens[i].len() as int,
                                size,
                                0,
                            ).len() implies #[trigger] read_back(
                            tokens[i],
                            windows_from(0, tokens[i].len() as int, size, 0)[k],
                        ) by {
                            assert(tokens[i] == pages@[i]@);
                        }
                        let list = pages::pages(text::lines(text@));
                        lemma_pages_kept(tokens, list, size);
                        if list.len() <= u32::MAX {
                            assert forall|p: int| 0 <= p < list.len() implies texts_of(
                                on_page(model::raw_views(out@), (p + 1) as u32),
                            ) == page_text(#[trigger] list[p]) by {
                                lemma_on_page_of_pages(tokens, size, 0, p);
                            }
                        }
                    }
                }
                out
            },
            None => Vec::new(),
        }
    }

    /// Cuts a text into chunks, or returns `None` where the tokenizer reports an error on a line or
    /// the windows over some page would not advance.
    pub fn try_chunk_text(&self, text: &str) -> (res: Option<Vec<RawChunk>>)
        ensures
            fixed_chunks(text@, self.size as nat, self.overlap as nat) == (match res {
                Some(chunks) => Some(model::raw_views(chunks@)),
                None => None,
            }),
    {
        if self.can_chunk(text) {
            Some(self.chunk_text(text))
        } else {
            None
        }
    }
}

/// Whether the bytes of every window are UTF-8, so that no character is cut apart.
pub open spec fn characters_whole(pages: Seq<Seq<u32>>, size: nat, overlap: nat) -> bool {
    forall|i: int, k: int|
        0 <= i < pages.len() && 0 <= k < windows_from(
            0,
            pages[i].len() as int,
            size,
            overlap,
        ).len() ==> valid_utf8(
            #[trigger] window_bytes(
                pages[i],
                windows_from(0, pages[i].len() as int, size, overlap)[k],
            ),
        )
}

/// The bytes of a window.
pub open spec fn window_bytes(tokens: Seq<u32>, window: (int, int)) -> Seq<u8> {
    tokenizer::bytes_of_tokens(tokens.subrange(window.0, window.1))
}

/// The texts of the chunks one after another.
pub open spec fn texts_of(chunks: Seq<RawChunkView>) -> Seq<char>
    decreases chunks.len(),
{
    if chunks.len() == 0 {
        seq![]
    } else {
        texts_of(chunks.drop_last()) + chunks.last().text
    }
}

/// The texts of the pages one after another.
pub open spec fn text_of_pages(pages: Seq<Seq<Seq<char>>>) -> Seq<char>
    decreases pages.len(),
{
    if pages.len() == 0 {
        seq![]
    } else {
        text_of_pages(pages.drop_last()) + page_text(pages.last())
    }
}

proof fn lemma_texts_of_concat(a: Seq<RawChunkView>, b: Seq<RawChunkView>)
    ensures
        texts_of(a + b) == texts_of(a) + texts_of(b),
    decreases b.len(),
{
    if b.len() == 0 {
        assert(a + b == a);
    } else {
        assert((a + b).drop_last() == a + b.drop_last());
        lemma_texts_of_concat(a, b.drop_last());
    }
}

/// The first `n` windows without overlap hold the tokens up to the last one's end.
proof fn lemma_windows_kept(tokens: Seq<u32>, page: u32, size: nat, n: int)
    requires
        ({
            let windows = windows_from(0, tokens.len() as int, size, 0);
            &&& 0 <= n <= windows.len()
            &&& forall|k: int| 0 <= k < n ==> #[trigger] read_back(tokens, windows[k])
            &&& forall|k: int| 0 <= k < n ==> valid_utf8(#[trigger] window_bytes(tokens, windows[k]))
        }),
    ensures
        ({
            let windows = windows_from(0, tokens.len() as int, size, 0);
            encode_utf8(texts_of(page_chunks(tokens, page, size, 0).take(n)))
                == tokenizer::bytes_of_tokens(
                tokens.take(
                    if n == 0 {
                        0
                    } else {
                        windows[n - 1].1
                    },
                ),
            )
        }),
    decreases n,
{
    let windows = windows_from(0, tokens.len() as int, size, 0);
    let chunks = page_chunks(tokens, page, size, 0);
    if n == 0 {
        assert(chunks.take(0).len() == 0);
        assert(tokens.take(0).len() == 0);
    } else {
        lemma_windows_kept(tokens, page, size, n - 1);
        law_windows(tokens.len() as int, size, 0);
        let w = windows[n - 1];
        assert(read_back(tokens, w));
        assert(valid_utf8(window_bytes(tokens, w)));
        assert(chunks.take(n).drop_last() == chunks.take(n - 1));
        let start = if n == 1 {
            0
        } else {
            windows[n - 2].1
        };
        assert(start == w.0) by {
            if n > 1 {
                let k = n - 2;
                assert(windows[k + 1].0 == windows[k].1 - 0);
            }
        }
        assert(tokens.take(w.1) == tokens.take(w.0) + tokens.subrange(w.0, w.1));
        tokenizer::lemma_bytes_of_tokens_concat(tokens.take(w.0), tokens.subrange(w.0, w.1));
        tokenizer::lemma_encode_utf8_concat(
            texts_of(chunks.take(n - 1)),
            tokenizer::text_of_tokens(tokens.subrange(w.0, w.1)),
        );
    }
}

/// The chunks of a page without overlap hold its text, if no window cuts a character apart.
proof fn lemma_page_kept(t: Seq<u32>, page: u32, text: Seq<char>, size: nat)
    requires
        advances(size, 0, t.len()),
        tokenizer::bytes_of_tokens(t) == encode_utf8(text),
        ({
            let windows = windows_from(0, t.len() as int, size, 0);
            &&& forall|k: int| 0 <= k < windows.len() ==> #[trigger] read_back(t, windows[k])
            &&& forall|k: int|
                0 <= k < windows.len() ==> valid_utf8(#[trigger] window_bytes(t, windows[k]))
        }),
    ensures
        texts_of(page_chunks(t, page, size, 0)) == text,
{
    let windows = windows_from(0, t.len() as int, size, 0);
    let chunks = page_chunks(t, page, size, 0);
    lemma_windows_kept(t, page, size, windows.len() as int);
    law_windows(t.len() as int, size, 0);
    assert(chunks.take(windows.len() as int) == chunks);
    let end = if windows.len() == 0 {
        0
    } else {
        windows.last().1
    };
    assert(t.take(end) == t);
    encode_utf8_decode_utf8(texts_of(chunks));
    encode_utf8_decode_utf8(text);
}

proof fn lemma_pages_kept(tokens: Seq<Seq<u32>>, pages: Seq<Seq<Seq<char>>>, size: nat)
    requires
        page_bytes_kept(tokens, pages),
        all_advance(tokens, size, 0),
        characters_whole(tokens, size, 0),
        forall|i: int, k: int|
            0 <= i < tokens.len() && 0 <= k < windows_from(
                0,
                tokens[i].len() as int,
                size,
                0,
            ).len() ==> #[trigger] read_back(
                tokens[i],
                windows_from(0, tokens[i].len() as int, size, 0)[k],
            ),
    ensures
        texts_of(chunks_of_pages(tokens, size, 0)) == text_of_pages(pages),
        forall|p: int|
            0 <= p < pages.len() ==> texts_of(
                page_chunks(tokens[p], (p + 1) as u32, size, 0),
            ) == page_text(#[trigger] pages[p]),
    decreases tokens.len(),
{
    if tokens.len() > 0 {
        let n = tokens.len() - 1;
        assert forall|i: int, k: int|
            0 <= i < n && 0 <= k < windows_from(
                0,
                tokens.drop_last()[i].len() as int,
                size,
                0,
            ).len() implies #[trigger] read_back(
            tokens.drop_last()[i],
            windows_from(0, tokens.drop_last()[i].len() as int, size, 0)[k],
        ) by {
            assert(tokens.drop_last()[i] == tokens[i]);
        }
        assert(page_bytes_kept(tokens.drop_last(), pages.drop_last())) by {
            assert forall|i: int| 0 <= i < n implies tokenizer::bytes_of_tokens(
                #[trigger] tokens.drop_last()[i],
            ) == encode_utf8(page_text(pages.drop_last()[i])) by {
                assert(tokens.drop_last()[i] == tokens[i]);
            }
        }
        assert(characters_whole(tokens.drop_last(), size, 0)) by {
            assert forall|i: int, k: int|
                0 <= i < n && 0 <= k < windows_from(
                    0,
                    tokens.drop_last()[i].len() as int,
                    size,
                    0,
                ).len() implies valid_utf8(
                #[trigger] window_bytes(
                    tokens.drop_last()[i],
                    windows_from(0, tokens.drop_last()[i].len() as int, size, 0)[k],
                ),
            ) by {
                assert(tokens.drop_last()[i] == tokens[i]);
            }
        }
        lemma_pages_kept(tokens.drop_last(), pages.drop_last(), size);
        let t = tokens.last();
        let windows = windows_from(0, t.len() as int, size, 0);
        let chunks = page_chunks(t, tokens.len() as u32, size, 0);
        assert forall|k: int| 0 <= k < windows.len() implies #[trigger] read_back(t, windows[k]) by {
            assert(read_back(tokens[n], windows_from(0, tokens[n].len() as int, size, 0)[k]));
        }
        assert forall|k: int| 0 <= k < windows.len() implies valid_utf8(
            #[trigger] window_bytes(t, windows[k]),
        ) by {
            assert(valid_utf8(
                window_bytes(tokens[n], windows_from(0, tokens[n].len() as int, size, 0)[k]),
            ));
        }
        assert(tokenizer::bytes_of_tokens(tokens[n]) == encode_utf8(page_text(pages[n])));
        lemma_page_kept(t, tokens.len() as u32, page_text(pages.last()), size);
        lemma_texts_of_concat(chunks_of_pages(tokens.drop_last(), size, 0), chunks);
        assert forall|p: int| 0 <= p < pages.len() implies texts_of(
            page_chunks(tokens[p], (p + 1) as u32, size, 0),
        ) == page_text(#[trigger] pages[p]) by {
            if p < n {
                assert(pages.drop_last()[p] == pages[p]);
                assert(tokens.drop_last()[p] == tokens[p]);
            }
        }
    }
}

/// The chunks on a page.
pub open spec fn on_page(chunks: Seq<RawChunkView>, page: u32) -> Seq<RawChunkView>
    decreases chunks.len(),
{
    if chunks.len() == 0 {
        seq![]
    } else {
        let before = on_page(chunks.drop_last(), page);
        if chunks.last().page == Some(page) {
            before.push(chunks.last())
        } else {
            before
        }
    }
}

proof fn lemma_on_page_concat(a: Seq<RawChunkView>, b: Seq<RawChunkView>, page: u32)
    ensures
        on_page(a + b, page) == on_page(a, page) + on_page(b, page),
    decreases b.len(),
{
    if b.len() == 0 {
        assert(a + b == a);
    } else {
        assert((a + b).drop_last() == a + b.drop_last());
        lemma_on_page_concat(a, b.drop_last(), page);
    }
}

proof fn lemma_on_page_all(chunks: Seq<RawChunkView>, here: u32, page: u32)
    requires
        forall|i: int| 0 <= i < chunks.len() ==> (#[trigger] chunks[i]).page == Some(here),
    ensures
        on_page(chunks, page) == if here == page {
            chunks
        } else {
            seq![]
        },
    decreases chunks.len(),
{
    if chunks.len() > 0 {
        let before = chunks.drop_last();
        assert forall|i: int| 0 <= i < before.len() implies (#[trigger] before[i]).page == Some(
            here,
        ) by {
            assert(before[i] == chunks[i]);
        }
        lemma_on_page_all(before, here, page);
        assert(chunks.last() == chunks[chunks.len() - 1]);
        assert(before.push(chunks.last()) == chunks);
    }
}

/// Of the chunks of all pages, those with a page's number are that page's.
proof fn lemma_on_page_of_pages(pages: Seq<Seq<u32>>, size: nat, overlap: nat, p: int)
    requires
        pages.len() <= u32::MAX,
        0 <= p <= u32::MAX - 1,
    ensures
        on_page(chunks_of_pages(pages, size, overlap), (p + 1) as u32) == if p < pages.len() {
            page_chunks(pages[p], (p + 1) as u32, size, overlap)
        } else {
            seq![]
        },
    decreases pages.len(),
{
    if pages.len() > 0 {
        let before = pages.drop_last();
        let here = page_chunks(pages.last(), pages.len() as u32, size, overlap);
        let page = (p + 1) as u32;
        lemma_on_page_of_pages(before, size, overlap, p);
        lemma_on_page_concat(chunks_of_pages(before, size, overlap), here, page);
        lemma_on_page_all(here, pages.len() as u32, page);
    }
}

/// The windows over a page cover it from the first token to the last. None is empty or longer than
/// the size; each that is not the last is as long as the size, and the next one starts `overlap`
/// tokens before its end.
pub proof fn law_windows(len: int, size: nat, overlap: nat)
    requires
        0 <= len,
        advances(size, overlap, len as nat),
    ensures
        ({
            let w = windows_from(0, len, size, overlap);
            &&& w.len() == 0 <==> len == 0
            &&& len > 0 ==> w[0].0 == 0 && w.last().1 == len
            &&& forall|k: int|
                0 <= k < w.len() ==> 0 <= (#[trigger] w[k]).0 < w[k].1 <= len && w[k].1 - w[k].0
                    <= size
            &&& forall|k: int|
                0 <= k < w.len() - 1 ==> (#[trigger] w[k]).1 == w[k].0 + size && w[k].1 < len && w[k
                    + 1].0 == w[k].1 - overlap
        }),
{
    lemma_windows_from(0, len, size, overlap);
}

proof fn lemma_windows_from(start: int, len: int, size: nat, overlap: nat)
    requires
        0 <= start <= len,
        overlap < size || len - start <= size,
    ensures
        ({
            let w = windows_from(start, len, size, overlap);
            &&& w.len() == 0 <==> start == len
            &&& start < len ==> w[0].0 == start && w.last().1 == len
            &&& forall|k: int|
                0 <= k < w.len() ==> start <= (#[trigger] w[k]).0 < w[k].1 <= len && w[k].1 - w[k].0
                    <= size
            &&& forall|k: int|
                0 <= k < w.len() - 1 ==> (#[trigger] w[k]).1 == w[k].0 + size && w[k].1 < len && w[k
                    + 1].0 == w[k].1 - overlap
        }),
    decreases len - start,
{
    if start + size < len {
        let next = start + size - overlap;
        lemma_windows_from(next, len, size, overlap);
        let w = windows_from(start, len, size, overlap);
        let rest = windows_from(next, len, size, overlap);
        assert(w == seq![(start, start + size as int)] + rest);
        assert forall|k: int| 0 <= k < w.len() implies start <= (#[trigger] w[k]).0 < w[k].1 <= len
            && w[k].1 - w[k].0 <= size by {
            if k > 0 {
                assert(w[k] == rest[k - 1]);
            }
        }
        assert forall|k: int| 0 <= k < w.len() - 1 implies (#[trigger] w[k]).1 == w[k].0 + size
            && w[k].1 < len && w[k + 1].0 == w[k].1 - overlap by {
            if k > 0 {
                assert(w[k] == rest[k - 1]);
                assert(w[k + 1] == rest[k]);
            } else {
                assert(w[1] == rest[0]);
            }
        }
    }
}

/// A window lies within the page, is not empty and holds at most `size` tokens.
proof fn lemma_window_bounds(start: int, len: int, size: nat, overlap: nat, k: int)
    requires
        0 <= start,
        0 <= k < windows_from(start, len, size, overlap).len(),
    ensures
        ({
            let w = windows_from(start, len, size, overlap)[k];
            start <= w.0 < w.1 <= len && w.1 - w.0 <= size
        }),
    decreases len - start,
{
    if start + size < len && k > 0 {
        lemma_window_bounds(start + size - overlap, len, size, overlap, k - 1);
    }
}

/// Whether a chunk is window `k` of page `p`, pages numbered from one.
pub open spec fn is_page_chunk(
    chunk: RawChunkView,
    pages: Seq<Seq<u32>>,
    p: int,
    k: int,
    size: nat,
    overlap: nat,
) -> bool {
    &&& 0 <= p < pages.len()
    &&& 0 <= k < windows_from(0, pages[p].len() as int, size, overlap).len()
    &&& chunk == page_chunks(pages[p], (p + 1) as u32, size, overlap)[k]
}

/// Every chunk lies within a single page and has that page's number: no chunk spans two pages.
pub proof fn law_chunk_is_on_one_page(pages: Seq<Seq<u32>>, size: nat, overlap: nat, i: int)
    requires
        0 <= i < chunks_of_pages(pages, size, overlap).len(),
    ensures
        exists|p: int, k: int|
            is_page_chunk(chunks_of_pages(pages, size, overlap)[i], pages, p, k, size, overlap),
    decreases pages.len(),
{
    if pages.len() > 0 {
        let chunk = chunks_of_pages(pages, size, overlap)[i];
        let before = pages.drop_last();
        let n = chunks_of_pages(before, size, overlap).len() as int;
        if i < n {
            law_chunk_is_on_one_page(before, size, overlap, i);
            let (p, k) = choose|p: int, k: int|
                is_page_chunk(chunk, before, p, k, size, overlap);
            assert(is_page_chunk(chunk, pages, p, k, size, overlap));
        } else {
            assert(is_page_chunk(chunk, pages, pages.len() - 1, i - n, size, overlap));
        }
    }
}

/// Window `k` starts `k` times the size without the overlap behind the first token.
proof fn lemma_window_start(len: int, size: nat, overlap: nat, k: int)
    requires
        0 <= len,
        advances(size, overlap, len as nat),
        0 <= k < windows_from(0, len, size, overlap).len(),
    ensures
        windows_from(0, len, size, overlap)[k].0 == k * (size - overlap),
    decreases k,
{
    law_windows(len, size, overlap);
    let w = windows_from(0, len, size, overlap);
    let step = size - overlap;
    if k > 0 {
        let j = k - 1;
        lemma_window_start(len, size, overlap, j);
        assert(w[j].1 == w[j].0 + size && w[j + 1].0 == w[j].1 - overlap);
        assert(k * step == j * step + step) by (nonlinear_arith)
            requires
                j == k - 1,
        ;
    } else {
        assert(0 * step == 0) by (nonlinear_arith);
    }
}

/// Chunk `k` of a page is the text of `size` tokens, or of what is left of them, that start `k` times
/// the size without the overlap behind the first. So a chunk starts with the last `overlap` tokens of
/// the one before it. All but the last end before the page does, and the last one ends with it.
pub proof fn law_chunks_are_windows(tokens: Seq<u32>, page: u32, size: nat, overlap: nat)
    requires
        advances(size, overlap, tokens.len()),
    ensures
        ({
            let chunks = page_chunks(tokens, page, size, overlap);
            let n = tokens.len() as int;
            &&& chunks.len() == 0 <==> n == 0
            &&& forall|k: int|
                0 <= k < chunks.len() ==> {
                    &&& (#[trigger] chunks[k]).page == Some(page)
                    &&& 0 <= k * (size - overlap) < n
                    &&& chunks[k].text == tokenizer::text_of_tokens(
                        tokens.subrange(
                            k * (size - overlap),
                            if k * (size - overlap) + size <= n {
                                k * (size - overlap) + size
                            } else {
                                n
                            },
                        ),
                    )
                    &&& k < chunks.len() - 1 <==> k * (size - overlap) + size < n
                }
        }),
{
    let n = tokens.len() as int;
    let chunks = page_chunks(tokens, page, size, overlap);
    let w = windows_from(0, n, size, overlap);
    law_windows(n, size, overlap);
    assert forall|k: int| 0 <= k < chunks.len() implies {
        &&& (#[trigger] chunks[k]).page == Some(page)
        &&& 0 <= k * (size - overlap) < n
        &&& chunks[k].text == tokenizer::text_of_tokens(
            tokens.subrange(
                k * (size - overlap),
                if k * (size - overlap) + size <= n {
                    k * (size - overlap) + size
                } else {
                    n
                },
            ),
        )
        &&& k < chunks.len() - 1 <==> k * (size - overlap) + size < n
    } by {
        lemma_window_start(n, size, overlap, k);
        assert(0 <= w[k].0 < w[k].1 <= n && w[k].1 - w[k].0 <= size);
        if k == w.len() - 1 {
            assert(w.last() == w[k]);
        } else {
            assert(w[k].1 == w[k].0 + size && w[k].1 < n);
        }
    }
}

/// The chunks of a text on each page are those of that page, in order; there are none on other pages.
pub proof fn law_chunks_of_text(text: Seq<char>, size: nat, overlap: nat)
    requires
        fixed_chunks(text, size, overlap) is Some,
        pages::marker_count(text::lines(text)) <= u32::MAX,
    ensures
        ({
            let chunks = fixed_chunks(text, size, overlap).unwrap();
            let pages = tokenized(text).unwrap();
            &&& pages.len() == pages::marker_count(text::lines(text))
            &&& forall|p: int|
                0 <= p < pages.len() ==> on_page(chunks, (p + 1) as u32) == page_chunks(
                    #[trigger] pages[p],
                    (p + 1) as u32,
                    size,
                    overlap,
                )
            &&& forall|i: int|
                0 <= i < chunks.len() ==> (#[trigger] chunks[i]).page is Some && 1
                    <= chunks[i].page.unwrap() <= pages.len()
            &&& forall|i: int, j: int|
                0 <= i <= j < chunks.len() ==> (#[trigger] chunks[i]).page.unwrap() <= (
                #[trigger] chunks[j]).page.unwrap()
        }),
{
    let pages = tokenized(text).unwrap();
    lemma_tokens_of_pages_len(pages::pages(text::lines(text)));
    pages::law_one_page_per_marker(text::lines(text));
    assert forall|p: int| 0 <= p < pages.len() implies on_page(
        fixed_chunks(text, size, overlap).unwrap(),
        (p + 1) as u32,
    ) == page_chunks(#[trigger] pages[p], (p + 1) as u32, size, overlap) by {
        lemma_on_page_of_pages(pages, size, overlap, p);
    }
    lemma_pages_ascend(pages, size, overlap);
}

proof fn lemma_tokens_of_pages_len(pages: Seq<Seq<Seq<char>>>)
    ensures
        tokens_of_pages(pages) is Some ==> tokens_of_pages(pages).unwrap().len() == pages.len(),
    decreases pages.len(),
{
    if pages.len() > 0 {
        lemma_tokens_of_pages_len(pages.drop_last());
    }
}

proof fn lemma_pages_ascend(pages: Seq<Seq<u32>>, size: nat, overlap: nat)
    requires
        pages.len() <= u32::MAX,
    ensures
        ({
            let chunks = chunks_of_pages(pages, size, overlap);
            &&& forall|i: int|
                0 <= i < chunks.len() ==> (#[trigger] chunks[i]).page is Some && 1
                    <= chunks[i].page.unwrap() <= pages.len()
            &&& forall|i: int, j: int|
                0 <= i <= j < chunks.len() ==> (#[trigger] chunks[i]).page.unwrap() <= (
                #[trigger] chunks[j]).page.unwrap()
        }),
    decreases pages.len(),
{
    if pages.len() > 0 {
        let before = pages.drop_last();
        let a = chunks_of_pages(before, size, overlap);
        let b = page_chunks(pages.last(), pages.len() as u32, size, overlap);
        let all = chunks_of_pages(pages, size, overlap);
        lemma_pages_ascend(before, size, overlap);
        assert forall|i: int| 0 <= i < all.len() implies (#[trigger] all[i]).page is Some && 1
            <= all[i].page.unwrap() <= pages.len() by {
            if i < a.len() {
                assert(all[i] == a[i]);
            } else {
                assert(all[i] == b[i - a.len()]);
            }
        }
        assert forall|i: int, j: int| 0 <= i <= j < all.len() implies (
        #[trigger] all[i]).page.unwrap() <= (#[trigger] all[j]).page.unwrap() by {
            if j < a.len() {
                assert(all[i] == a[i] && all[j] == a[j]);
            } else {
                assert(all[j] == b[j - a.len()]);
                if i < a.len() {
                    assert(all[i] == a[i]);
                }
            }
        }
    }
}

/// A page is tokenised line by line: the tokens of a line are those of its text with a line feed, and
/// those of more lines follow one another.
pub proof fn law_page_tokens(a: Seq<Seq<char>>, b: Seq<Seq<char>>, line: Seq<char>)
    ensures
        page_tokens(seq![]) == Some(Seq::<u32>::empty()),
        page_tokens(seq![line]) == tokenizer::cl100k_encode(line.push('\n')),
        page_tokens(a + b) == (match (page_tokens(a), page_tokens(b)) {
            (Some(x), Some(y)) => Some(x + y),
            _ => None,
        }),
    decreases b.len(),
{
    assert(seq![line].drop_last() == Seq::<Seq<char>>::empty());
    match tokenizer::cl100k_encode(line.push('\n')) {
        Some(t) => {
            assert(Seq::<u32>::empty() + t == t);
        },
        None => {},
    }
    if b.len() == 0 {
        assert(a + b == a);
        match page_tokens(a) {
            Some(x) => {
                assert(x + Seq::<u32>::empty() == x);
            },
            None => {},
        }
    } else {
        assert((a + b).drop_last() == a + b.drop_last());
        law_page_tokens(a, b.drop_last(), line);
        match (page_tokens(a), page_tokens(b.drop_last()), tokenizer::cl100k_encode(
            b.last().push('\n'),
        )) {
            (Some(x), Some(y), Some(z)) => {
                assert(x + y + z == x + (y + z));
            },
            _ => {},
        }
    }
}

/// Each page has its own tokens.
pub proof fn law_tokens_of_pages(pages: Seq<Seq<Seq<char>>>)
    ensures
        match tokens_of_pages(pages) {
            Some(tokens) => {
                &&& tokens.len() == pages.len()
                &&& forall|p: int|
                    0 <= p < pages.len() ==> page_tokens(#[trigger] pages[p]) == Some(tokens[p])
            },
            None => exists|p: int|
                0 <= p < pages.len() && page_tokens(#[trigger] pages[p]) is None,
        },
    decreases pages.len(),
{
    if pages.len() > 0 {
        let before = pages.drop_last();
        law_tokens_of_pages(before);
        match tokens_of_pages(pages) {
            Some(tokens) => {
                assert forall|p: int| 0 <= p < pages.len() implies page_tokens(#[trigger] pages[p])
                    == Some(tokens[p]) by {
                    if p < before.len() {
                        assert(before[p] == pages[p]);
                    }
                }
            },
            None => {
                if tokens_of_pages(before) is None {
                    let p = choose|p: int|
                        0 <= p < before.len() && page_tokens(#[trigger] before[p]) is None;
                    assert(pages[p] == before[p]);
                } else {
                    assert(pages[pages.len() - 1] == pages.last());
                }
            },
        }
    }
}

/// A text can be chunked exactly when the tokenizer takes every line of its pages and the windows
/// advance: the overlap is below the size, or no page is longer than the size.
pub proof fn law_fixed_succeeds(text: Seq<char>, size: nat, overlap: nat)
    ensures
        fixed_chunks(text, size, overlap) is Some <==> tokenized(text) is Some && (overlap < size
            || forall|p: int|
            0 <= p < tokenized(text).unwrap().len() ==> (#[trigger] tokenized(text).unwrap()[p]).len()
                <= size),
        tokenized(text) is Some <==> forall|p: int|
            0 <= p < pages::pages(text::lines(text)).len() ==> page_tokens(
                #[trigger] pages::pages(text::lines(text))[p],
            ) is Some,
{
    law_tokens_of_pages(pages::pages(text::lines(text)));
    if tokenized(text) is Some {
        let tokens = tokenized(text).unwrap();
        if all_advance(tokens, size, overlap) && overlap >= size {
            assert forall|p: int| 0 <= p < tokens.len() implies (#[trigger] tokens[p]).len() <= size by {
                assert(advances(size, overlap, tokens[p].len()));
            }
        }
    }
}

} // verus!
