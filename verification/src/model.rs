//! The records that the stages of the pipeline hand to one another.

use vstd::prelude::*;

verus! {

/// Number of components of an embedding.
pub const EMBED_DIM: i32 = 1024;

/// A piece of a document as a chunker emits it.
#[derive(Debug)]
pub struct RawChunk {
    pub text: String,
    pub page: Option<u32>,
}

/// What a [`RawChunk`] holds.
pub struct RawChunkView {
    pub text: Seq<char>,
    pub page: Option<u32>,
}

impl View for RawChunk {
    type V = RawChunkView;

    open spec fn view(&self) -> RawChunkView {
        RawChunkView { text: self.text@, page: self.page }
    }
}

impl Clone for RawChunk {
    fn clone(&self) -> (res: Self)
        ensures
            res@ == self@,
    {
        RawChunk { text: self.text.clone(), page: self.page }
    }
}

/// What each chunk of a list holds.
pub open spec fn raw_views(list: Seq<RawChunk>) -> Seq<RawChunkView> {
    list.map_values(|c: RawChunk| c@)
}

/// The kind of a source document.
#[derive(Debug, Clone, Copy, PartialEq, Eq, Structural)]
pub enum DocType {
    Rules,
    Reference,
    Faq,
}

/// The name of a document kind in stored records and chunk ids.
pub open spec fn doc_type_name(doc_type: DocType) -> Seq<char> {
    match doc_type {
        DocType::Rules => "rules"@,
        DocType::Reference => "reference"@,
        DocType::Faq => "faq"@,
    }
}

impl DocType {
    /// The name of this kind in stored records and chunk ids.
    pub fn name(&self) -> (res: &'static str)
        ensures
            res@ == doc_type_name(*self),
    {
        match self {
            DocType::Rules => "rules",
            DocType::Reference => "reference",
            DocType::Faq => "faq",
        }
    }
}

/// A stored chunk. Each component of the embedding is the bit pattern of an IEEE 754 single.
#[derive(Debug)]
pub struct Chunk {
    pub id: String,
    pub text: String,
    pub game: String,
    pub doc_type: DocType,
    pub page: Option<u32>,
    pub embedding: Option<Vec<u32>>,
}

/// What a [`Chunk`] holds.
pub struct ChunkView {
    pub id: Seq<char>,
    pub text: Seq<char>,
    pub game: Seq<char>,
    pub doc_type: DocType,
    pub page: Option<u32>,
    pub embedding: Option<Seq<u32>>,
}

impl View for Chunk {
    type V = ChunkView;

    open spec fn view(&self) -> ChunkView {
        ChunkView {
            id: self.id@,
            text: self.text@,
            game: self.game@,
            doc_type: self.doc_type,
            page: self.page,
            embedding: match self.embedding {
                Some(e) => Some(e@),
                None => None,
            },
        }
    }
}

impl Clone for Chunk {
    fn clone(&self) -> (res: Self)
        ensures
            res@ == self@,
    {
        let embedding: Option<Vec<u32>> = match &self.embedding {
            Some(e) => {
                let copy: Vec<u32> = e.clone();
                assert(copy@ == e@);
                Some(copy)
            },
            None => None,
        };
        Chunk {
            id: self.id.clone(),
            text: self.text.clone(),
            game: self.game.clone(),
            doc_type: self.doc_type,
            page: self.page,
            embedding,
        }
    }
}

/// What each chunk of a list holds.
pub open spec fn chunk_views(list: Seq<Chunk>) -> Seq<ChunkView> {
    list.map_values(|c: Chunk| c@)
}

/// A chunk with the score it was retrieved with: the bit pattern of an IEEE 754 single.
#[derive(Debug)]
pub struct RetrievalResult {
    pub chunk: Chunk,
    pub score_bits: u32,
}

/// What a [`RetrievalResult`] holds.
pub struct RetrievalResultView {
    pub chunk: ChunkView,
    pub score_bits: u32,
}

impl View for RetrievalResult {
    type V = RetrievalResultView;

    open spec fn view(&self) -> RetrievalResultView {
        RetrievalResultView { chunk: self.chunk@, score_bits: self.score_bits }
    }
}

impl Clone for RetrievalResult {
    fn clone(&self) -> (res: Self)
        ensures
            res@ == self@,
    {
        RetrievalResult { chunk: self.chunk.clone(), score_bits: self.score_bits }
    }
}

/// What each result of a list holds.
pub open spec fn result_views(list: Seq<RetrievalResult>) -> Seq<RetrievalResultView> {
    list.map_values(|r: RetrievalResult| r@)
}

/// An answer with the results it was generated from.
#[derive(Debug)]
pub struct Answer {
    pub text: String,
    pub retrieval: Vec<RetrievalResult>,
}

/// How a retrieval is limited.
#[derive(Debug)]
pub struct QueryOptions {
    pub top_k: usize,
    pub game_filter: Option<String>,
}

/// The characters of an optional string.
pub open spec fn option_text(s: Option<String>) -> Option<Seq<char>> {
    match s {
        Some(t) => Some(t@),
        None => None,
    }
}

/// A copy of an optional string.
pub fn copy_option(s: &Option<String>) -> (res: Option<String>)
    ensures
        option_text(res) == option_text(*s),
{
    match s {
        Some(t) => Some(t.clone()),
        None => None,
    }
}

/// Whether two optional strings are equal.
pub fn same_option(a: &Option<String>, b: &Option<String>) -> (res: bool)
    ensures
        res == (option_text(*a) == option_text(*b)),
{
    match (a, b) {
        (Some(x), Some(y)) => *x == *y,
        (None, None) => true,
        _ => false,
    }
}

impl QueryOptions {
    /// The same game filter with another result limit.
    pub fn with_top_k(&self, top_k: usize) -> (res: QueryOptions)
        ensures
            res.top_k == top_k,
            option_text(res.game_filter) == option_text(self.game_filter),
    {
        QueryOptions { top_k, game_filter: copy_option(&self.game_filter) }
    }
}

} // verus!
