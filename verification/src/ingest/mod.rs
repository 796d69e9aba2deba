//! Turns the text of a rulebook into chunks.

pub mod chunk_laws;
pub mod fixed;
pub mod ids;
pub mod manifest;
pub mod merge;
pub mod merge_laws;
pub mod merging_laws;
pub mod pack;
pub mod pack_laws;
pub mod packing_laws;
pub mod pages;
pub mod paragraph;
pub mod paragraph_laws;
pub mod section_laws;
pub mod sections;
pub mod split;
pub mod split_laws;
pub mod splitting_laws;
