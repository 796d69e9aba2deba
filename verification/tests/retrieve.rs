use bgrag::model::{Chunk, DocType, QueryOptions, RetrievalResult};
use bgrag::retrieve::{best_results, expand_queries, fanned_out, group_by_id, RRF_K};

const K: f32 = 60.0;
const EPS: f32 = 1e-6;

fn result(id: &str) -> RetrievalResult {
    RetrievalResult {
        chunk: Chunk {
            id: id.to_string(),
            text: String::new(),
            game: String::new(),
            doc_type: DocType::Rules,
            page: None,
            embedding: None,
        },
        score_bits: 0.0f32.to_bits(),
    }
}

fn score(r: &RetrievalResult) -> f32 {
    f32::from_bits(r.score_bits)
}

/// Fuses lists with scores in single precision.
fn rrf(lists: Vec<Vec<RetrievalResult>>) -> Vec<RetrievalResult> {
    let scored: Vec<RetrievalResult> = group_by_id(&lists)
        .into_iter()
        .map(|f| {
            let mut total: f32 = 0.0;
            for (i, rank) in f.ranks.iter().enumerate() {
                let part = 1.0 / (RRF_K as f32 + *rank as f32);
                total = if i == 0 { part } else { total + part };
            }
            RetrievalResult { chunk: f.chunk, score_bits: total.to_bits() }
        })
        .collect();
    let n = scored.len();
    best_results(scored, n)
}

fn ids(results: &[RetrievalResult]) -> Vec<&str> {
    results.iter().map(|r| r.chunk.id.as_str()).collect()
}

fn find<'a>(results: &'a [RetrievalResult], id: &str) -> &'a RetrievalResult {
    results
        .iter()
        .find(|r| r.chunk.id == id)
        .unwrap_or_else(|| panic!("missing id {id}"))
}

#[test]
fn empty_inputs_produce_empty_output() {
    let out = rrf(vec![vec![], vec![]]);
    assert!(out.is_empty());
}

#[test]
fn vector_only_scored_by_rank() {
    let out = rrf(vec![vec![result("a"), result("b"), result("c")], vec![]]);
    assert_eq!(ids(&out), vec!["a", "b", "c"]);
    assert!((score(&out[0]) - 1.0 / K).abs() < EPS);
    assert!((score(&out[1]) - 1.0 / (K + 1.0)).abs() < EPS);
    assert!((score(&out[2]) - 1.0 / (K + 2.0)).abs() < EPS);
}

#[test]
fn fts_only_scored_by_rank() {
    let out = rrf(vec![vec![], vec![result("a"), result("b"), result("c")]]);
    assert_eq!(ids(&out), vec!["a", "b", "c"]);
    assert!((score(&out[0]) - 1.0 / K).abs() < EPS);
    assert!((score(&out[1]) - 1.0 / (K + 1.0)).abs() < EPS);
    assert!((score(&out[2]) - 1.0 / (K + 2.0)).abs() < EPS);
}

#[test]
fn overlapping_chunk_sums_scores() {
    let out = rrf(vec![vec![result("a")], vec![result("a")]]);
    assert_eq!(out.len(), 1);
    assert_eq!(out[0].chunk.id, "a");
    let expected = 1.0 / K + 1.0 / K;
    assert!((score(&out[0]) - expected).abs() < EPS);
}

#[test]
fn overlap_at_different_ranks_uses_each_list_rank() {
    let vector = vec![result("x"), result("y"), result("a")];
    let fts = vec![result("a"), result("y"), result("x")];
    let out = rrf(vec![vector, fts]);
    assert_eq!(out.len(), 3);

    let expected_a = 1.0 / (K + 2.0) + 1.0 / K;
    let expected_y = 1.0 / (K + 1.0) + 1.0 / (K + 1.0);
    let expected_x = 1.0 / K + 1.0 / (K + 2.0);

    assert!((score(find(&out, "a")) - expected_a).abs() < EPS);
    assert!((score(find(&out, "y")) - expected_y).abs() < EPS);
    assert!((score(find(&out, "x")) - expected_x).abs() < EPS);
}

#[test]
fn disjoint_lists_include_all_chunks() {
    let vector = vec![result("a"), result("b")];
    let fts = vec![result("c"), result("d")];
    let out = rrf(vec![vector, fts]);
    assert_eq!(out.len(), 4);
    let mut got = ids(&out);
    got.sort_unstable();
    assert_eq!(got, vec!["a", "b", "c", "d"]);

    assert!((score(find(&out, "a")) - 1.0 / K).abs() < EPS);
    assert!((score(find(&out, "b")) - 1.0 / (K + 1.0)).abs() < EPS);
    assert!((score(find(&out, "c")) - 1.0 / K).abs() < EPS);
    assert!((score(find(&out, "d")) - 1.0 / (K + 1.0)).abs() < EPS);
}

#[test]
fn output_is_sorted_descending_by_score() {
    let vector = vec![result("a"), result("b"), result("c"), result("d")];
    let fts = vec![result("d"), result("c"), result("b"), result("a")];
    let out = rrf(vec![vector, fts]);
    for w in out.windows(2) {
        assert!(
            score(&w[0]) >= score(&w[1]),
            "out of order: {} >= {}",
            score(&w[0]),
            score(&w[1])
        );
    }
}

#[test]
fn chunk_ranked_first_in_both_lists_wins() {
    let vector = vec![result("top"), result("mid"), result("bot")];
    let fts = vec![result("top"), result("bot"), result("mid")];
    let out = rrf(vec![vector, fts]);
    assert_eq!(out[0].chunk.id, "top");
}

#[test]
fn no_duplicate_chunks_in_output() {
    let vector = vec![result("a"), result("b"), result("c")];
    let fts = vec![result("b"), result("c"), result("d")];
    let out = rrf(vec![vector, fts]);
    let mut seen = std::collections::HashSet::new();
    for r in &out {
        assert!(
            seen.insert(r.chunk.id.clone()),
            "duplicate id {}",
            r.chunk.id
        );
    }
    assert_eq!(out.len(), 4);
}

#[test]
fn ranks_are_grouped_in_the_order_of_the_lists() {
    let lists = vec![
        vec![result("x"), result("y"), result("a")],
        vec![result("a"), result("y"), result("z")],
    ];
    let fused = group_by_id(&lists);
    let shown: Vec<(&str, Vec<usize>)> =
        fused.iter().map(|f| (f.chunk.id.as_str(), f.ranks.clone())).collect();
    assert_eq!(
        shown,
        vec![("x", vec![0]), ("y", vec![1, 1]), ("a", vec![2, 0]), ("z", vec![2])]
    );
}

#[test]
fn a_chunk_is_kept_as_it_first_came() {
    let mut first = result("a");
    first.chunk.text = "first".to_string();
    let mut second = result("a");
    second.chunk.text = "second".to_string();
    let fused = group_by_id(&vec![vec![first], vec![second]]);
    assert_eq!(fused.len(), 1);
    assert_eq!(fused[0].chunk.text, "first");
}

#[test]
fn best_results_follow_the_total_order_of_singles() {
    let values = [1.5f32, -0.0, f32::NEG_INFINITY, 0.0, -2.5, f32::INFINITY, -1.0e-40, 3.0e-41];
    let results: Vec<RetrievalResult> = values
        .iter()
        .map(|v| RetrievalResult { score_bits: v.to_bits(), ..result("r") })
        .collect();
    let sorted = best_results(results, 100);
    let mut expected = values.to_vec();
    expected.sort_by(|a, b| b.total_cmp(a));
    let got: Vec<u32> = sorted.iter().map(|r| r.score_bits).collect();
    let want: Vec<u32> = expected.iter().map(|v| v.to_bits()).collect();
    assert_eq!(got, want);
}

#[test]
fn best_results_are_limited() {
    let results: Vec<RetrievalResult> = [1.0f32, 3.0, 2.0]
        .iter()
        .map(|v| RetrievalResult { score_bits: v.to_bits(), ..result("r") })
        .collect();
    let top = best_results(results, 2);
    assert_eq!(top.iter().map(score).collect::<Vec<f32>>(), vec![3.0, 2.0]);
}

#[test]
fn queries_are_the_question_and_its_rewrites() {
    let rewrites = vec!["one".to_string(), "two".to_string()];
    assert_eq!(expand_queries("q", &rewrites), vec!["q", "one", "two"]);
}

#[test]
fn each_query_fetches_three_times_as_many() {
    let options = QueryOptions { top_k: 5, game_filter: Some("Catan".to_string()) };
    let inner = fanned_out(&options);
    assert_eq!(inner.top_k, 15);
    assert_eq!(inner.game_filter, Some("Catan".to_string()));
}
