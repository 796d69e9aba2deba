//! The choices of the command line.

use crate::eval::outcome::FilterMode;
use crate::ingest::fixed::FixedSizeChunker;
use crate::ingest::paragraph::ParagraphChunker;
use vstd::prelude::*;

verus! {

/// How documents are cut into chunks.
#[derive(Debug, Clone, Copy, PartialEq, Eq, Structural)]
pub enum ChunkerKind {
    Fixed51264,
    Paragraph,
}

/// What answers a question.
#[derive(Debug, Clone, Copy, PartialEq, Eq, Structural)]
pub enum PipelineOption {
    Naive,
    FullContext,
}

/// Why a combination of options is refused.
pub const INCOMPATIBLE_OPTIONS: &'static str =
    "Incompatible options. --pipeline full-context must be used with --filter-mode oracle and cannot be used with --retrieval-only.";

/// The table that holds the chunks of a chunker.
pub fn table_name(chunker: ChunkerKind) -> (res: &'static str)
    ensures
        res@ == (match chunker {
            ChunkerKind::Fixed51264 => "chunks_fixed_512_64"@,
            ChunkerKind::Paragraph => "chunks_paragraph"@,
        }),
{
    match chunker {
        ChunkerKind::Fixed51264 => "chunks_fixed_512_64",
        ChunkerKind::Paragraph => "chunks_paragraph",
    }
}

/// The chunker with windows of fixed size.
pub fn fixed_chunker() -> (res: FixedSizeChunker)
    ensures
        res.size == 512,
        res.overlap == 64,
{
    FixedSizeChunker { size: 512, overlap: 64 }
}

/// The chunker along paragraphs.
pub fn paragraph_chunker() -> (res: ParagraphChunker)
    ensures
        res.min_size == 150,
        res.target_size == 350,
        res.max_size == 500,
{
    ParagraphChunker { target_size: 350, max_size: 500, min_size: 150 }
}

/// Whether the options of an evaluation go together. A whole rulebook as the context goes only
/// with a run that has no game filter and is no retrieval on its own.
pub fn options_compatible(pipeline: PipelineOption, mode: FilterMode, retrieval_only: bool) -> (res:
    bool)
    ensures
        res == !(pipeline == PipelineOption::FullContext && (mode != FilterMode::Unfiltered
            || retrieval_only)),
{
    match (pipeline, mode) {
        (PipelineOption::FullContext, FilterMode::Unfiltered) => !retrieval_only,
        (PipelineOption::FullContext, _) => false,
        _ => true,
    }
}

} // verus!
