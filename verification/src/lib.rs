//! Retrieval over board-game rulebooks: chunking, rank fusion, prompts and evaluation.

pub mod cli;
pub mod error_laws;
pub mod errors;
pub mod eval;
pub mod ingest;
pub mod model;
pub mod model_laws;
pub mod page_marker;
pub mod path;
pub mod pipeline;
pub mod prompts;
pub mod report;
pub mod report_laws;
pub mod rerank;
pub mod retrieve;
pub mod retrieve_laws;
pub mod sorting;
pub mod store;
pub mod text;
pub mod text_laws;
pub mod tokenizer;
