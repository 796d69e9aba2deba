use bgrag::cli::{
    fixed_chunker, options_compatible, paragraph_chunker, table_name, ChunkerKind, PipelineOption,
};
use bgrag::eval::outcome::FilterMode;
use bgrag::ingest::ids::stored_chunks;
use bgrag::ingest::manifest::{resolve_documents, DocMeta};
use bgrag::model::{Chunk, DocType, RawChunk};
use bgrag::path::same_path;
use bgrag::pipeline::{find_context, whole_document_results};
use bgrag::rerank::{documents, rerank_results, ScoredIndex};
use bgrag::store::{columns_without, distinct_names, game_predicate, storable};
use std::collections::HashSet;
use std::path::Path;

fn doc(file: &str, game: &str, doc_type: DocType) -> DocMeta {
    DocMeta { file: file.to_string(), game: game.to_string(), doc_type }
}

fn chunk(id: &str, text: &str, embedding: Option<Vec<u32>>) -> Chunk {
    Chunk {
        id: id.to_string(),
        text: text.to_string(),
        game: "Catan".to_string(),
        doc_type: DocType::Faq,
        page: Some(3),
        embedding,
    }
}

fn paths(list: &[&str]) -> Vec<String> {
    list.iter().map(|p| p.to_string()).collect()
}

#[test]
fn paths_compare_by_component() {
    let list = [
        "", ".", "/", "a", "./a", "a/", "a/b", "a//b", "a/./b", "a/b/.", "/a/b", "//a/b", "/./a/b",
        "../a", "a/..", "a/../a", "./", "a.b", ".a", "..",
    ];
    for a in list {
        for b in list {
            assert_eq!(same_path(a, b), Path::new(a) == Path::new(b), "{a:?} {b:?}");
        }
    }
}

#[test]
fn without_paths_the_whole_manifest_is_taken() {
    let manifest = vec![doc("a.txt", "A", DocType::Rules), doc("b.txt", "B", DocType::Faq)];
    let all = resolve_documents(&manifest, &vec![], &None).unwrap();
    assert_eq!(all.len(), 2);
    assert_eq!(all[1].file, "b.txt");
    assert_eq!(all[1].game, "B");
    assert!(matches!(all[1].doc_type, DocType::Faq));
}

#[test]
fn a_path_takes_its_kind_from_the_manifest_and_its_game_from_the_caller() {
    let manifest = vec![
        doc("data/a.txt", "A", DocType::Reference),
        doc("data/a.txt", "Z", DocType::Rules),
    ];
    let docs = resolve_documents(&manifest, &paths(&["data//a.txt"]), &None).unwrap();
    assert_eq!(docs.len(), 1);
    assert_eq!(docs[0].file, "data//a.txt");
    assert_eq!(docs[0].game, "A");
    assert!(matches!(docs[0].doc_type, DocType::Reference));
    let named = resolve_documents(&manifest, &paths(&["data/a.txt"]), &Some("B".to_string())).unwrap();
    assert_eq!(named[0].game, "B");
}

#[test]
fn an_unlisted_path_is_refused() {
    let manifest = vec![doc("a.txt", "A", DocType::Rules)];
    let e = resolve_documents(&manifest, &paths(&["a.txt", "b.txt", "c.txt"]), &None).unwrap_err();
    assert_eq!(e.message(), "b.txt not found in the manifest and no --game parameter");
    let e = resolve_documents(&manifest, &paths(&["b.txt"]), &Some("B".to_string())).unwrap_err();
    assert_eq!(e.message(), "b.txt not found in the manifest");
}

#[test]
fn chunks_get_ids_by_page_and_position() {
    let raw: Vec<RawChunk> = [Some(1), Some(1), None, Some(12), None, Some(1), Some(2)]
        .iter()
        .map(|p| RawChunk { text: "t".to_string(), page: *p })
        .collect();
    let embeddings: Vec<Vec<u32>> = (0..7).map(|i| vec![i]).collect();
    let chunks = stored_chunks(&doc("f", "Res Arcana", DocType::Rules), &raw, &embeddings);
    let ids: Vec<&str> = chunks.iter().map(|c| c.id.as_str()).collect();
    assert_eq!(
        ids,
        vec![
            "Res Arcana-rules-1-0",
            "Res Arcana-rules-1-1",
            "Res Arcana-rules-none-0",
            "Res Arcana-rules-12-0",
            "Res Arcana-rules-none-1",
            "Res Arcana-rules-1-2",
            "Res Arcana-rules-2-0",
        ]
    );
    assert_eq!(ids.iter().collect::<HashSet<_>>().len(), ids.len());
    assert_eq!(chunks[3].embedding, Some(vec![3]));
    assert_eq!(chunks[3].page, Some(12));
    assert_eq!(chunks[3].game, "Res Arcana");
}

#[test]
fn chunks_without_an_embedding_are_dropped() {
    let raw: Vec<RawChunk> =
        (0..3).map(|_| RawChunk { text: "t".to_string(), page: None }).collect();
    let chunks = stored_chunks(&doc("f", "G", DocType::Faq), &raw, &vec![vec![1], vec![2]]);
    assert_eq!(chunks.len(), 2);
    assert_eq!(chunks[1].id, "G-faq-none-1");
    let none = stored_chunks(&doc("f", "G", DocType::Reference), &vec![], &vec![vec![1]]);
    assert!(none.is_empty());
}

#[test]
fn only_chunks_with_an_embedding_are_stored() {
    let chunks = vec![
        chunk("a", "x", Some(vec![1])),
        chunk("b", "y", None),
        chunk("c", "z", Some(vec![])),
    ];
    let ids: Vec<String> = storable(&chunks).into_iter().map(|c| c.id).collect();
    assert_eq!(ids, vec!["a", "c"]);
}

#[test]
fn the_embedding_column_is_left_out() {
    assert_eq!(columns_without(4, 1), vec![0, 2, 3]);
    assert_eq!(columns_without(2, 5), vec![0, 1]);
    assert_eq!(columns_without(0, 0), vec![]);
}

#[test]
fn a_reply_is_mapped_back_to_its_chunks() {
    let chunks = vec![chunk("a", "x", None), chunk("b", "y", None)];
    assert_eq!(documents(&chunks), vec!["x", "y"]);
    let reply = vec![
        ScoredIndex { index: 1, score_bits: 0.9f32.to_bits() },
        ScoredIndex { index: 7, score_bits: 0.5f32.to_bits() },
        ScoredIndex { index: 0, score_bits: 0.1f32.to_bits() },
    ];
    let results = rerank_results(&chunks, &reply);
    let shown: Vec<(&str, f32)> =
        results.iter().map(|r| (r.chunk.id.as_str(), f32::from_bits(r.score_bits))).collect();
    assert_eq!(shown, vec![("b", 0.9), ("a", 0.1)]);
}

#[test]
fn the_context_is_the_first_document_of_the_game() {
    let docs = vec![
        doc("a.txt", "A", DocType::Rules),
        doc("b1.txt", "B", DocType::Reference),
        doc("b2.txt", "B", DocType::Rules),
    ];
    let found = find_context(&docs, &Some("B".to_string())).unwrap();
    assert_eq!(found.file, "b1.txt");
    assert!(find_context(&docs, &Some("C".to_string())).is_none());
    assert!(find_context(&docs, &None).is_none());
    let results = whole_document_results(&found, "all of it".to_string());
    assert_eq!(results.len(), 1);
    assert_eq!(results[0].chunk.id, "B");
    assert_eq!(results[0].chunk.text, "all of it");
    assert_eq!(results[0].chunk.page, None);
    assert_eq!(results[0].chunk.embedding, None);
    assert_eq!(f32::from_bits(results[0].score_bits), 1.0);
}

#[test]
fn chunkers_have_tables_and_sizes() {
    assert_eq!(table_name(ChunkerKind::Fixed51264), "chunks_fixed_512_64");
    assert_eq!(table_name(ChunkerKind::Paragraph), "chunks_paragraph");
    assert_eq!((fixed_chunker().size, fixed_chunker().overlap), (512, 64));
    let p = paragraph_chunker();
    assert_eq!((p.min_size, p.target_size, p.max_size), (150, 350, 500));
}

#[test]
fn options_of_a_full_context_are_checked() {
    let modes = [FilterMode::Classifier, FilterMode::Oracle, FilterMode::Unfiltered];
    for mode in modes {
        for only in [false, true] {
            assert!(options_compatible(PipelineOption::Naive, mode, only));
            assert_eq!(
                options_compatible(PipelineOption::FullContext, mode, only),
                mode == FilterMode::Unfiltered && !only
            );
        }
    }
}

#[test]
fn a_game_is_quoted_in_its_condition() {
    assert_eq!(game_predicate("Catan"), "game = 'Catan'");
    assert_eq!(game_predicate("Hadrian's 'Wall'"), "game = 'Hadrian''s ''Wall'''");
}

#[test]
fn names_are_listed_once_and_in_order() {
    let names = paths(&["Paleo", "Catan", "Paleo", "Ark Nova", "Catan", "7 Wonders"]);
    assert_eq!(distinct_names(&names), vec!["7 Wonders", "Ark Nova", "Catan", "Paleo"]);
    assert!(distinct_names(&vec![]).is_empty());
}
