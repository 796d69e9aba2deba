use bgrag::eval::checks::{check_expected_quotes, check_refused};
use bgrag::eval::coverage::{check_expected_chunks, chunk_coverage, Coverage};
use bgrag::eval::examples::{EvalExample, Passage};
use bgrag::eval::metrics::{Ratio, RetrievalMetrics};
use bgrag::eval::normalize::normalize;
use bgrag::model::{Chunk, DocType, RetrievalResult};

fn value(r: Ratio) -> f32 {
    r.numerator as f32 / r.denominator as f32
}

#[test]
fn normalize_strips_markdown_emphasis() {
    assert_eq!(normalize("**bold** and *italic*"), "bold and italic");
    assert_eq!(normalize("__under__ and _emph_"), "under and emph");
}

#[test]
fn normalize_strips_sup_tags() {
    assert_eq!(normalize("the 2<sup>nd</sup> round"), "the 2nd round");
}

#[test]
fn normalize_collapses_whitespace() {
    assert_eq!(normalize("hello\n\n  world"), "hello world");
    assert_eq!(normalize("  trim  me  "), "trim me");
}

#[test]
fn normalize_lowercases() {
    assert_eq!(normalize("HELLO World"), "hello world");
}

#[test]
fn normalize_handles_combined_artifacts() {
    let src = "The **Operations Expert** does *not* have to play\nthe card";
    let needle = "Operations Expert does not have to play the card";
    assert!(normalize(src).contains(&normalize(needle)));
}

fn make_example(quotes: Vec<&str>, forbidden: Vec<&str>) -> EvalExample {
    // Treat the quote list as a SINGLE passage with any-match phrasings,
    // matching the any-of-alternatives semantics these tests were written
    // against. Multi-passage (all-of) behavior is covered by its own tests.
    let expected_quotes = if quotes.is_empty() {
        vec![]
    } else {
        vec![Passage::AnyOf(quotes.into_iter().map(String::from).collect())]
    };
    EvalExample {
        id: "test".into(),
        game: Some("Pandemic".into()),
        question: "q".into(),
        expected_quotes,
        expected_chunks: vec![Passage::One("x".into())],
        expected_answer: "x".into(),
        forbidden_phrases: forbidden.into_iter().map(String::from).collect(),
        tags: vec![],
    }
}

fn make_chunk(text: &str) -> RetrievalResult {
    RetrievalResult {
        chunk: Chunk {
            id: "id".into(),
            text: text.into(),
            game: "Pandemic".into(),
            doc_type: DocType::Rules,
            page: Some(1),
            embedding: None,
        },
        score_bits: 1.0f32.to_bits(),
    }
}

#[test]
fn check_chunks_matches_any_phrasing_within_a_passage() {
    // One required passage with two acceptable phrasings (any-of).
    let mut example = make_example(vec!["x"], vec![]);
    example.expected_chunks = vec![Passage::AnyOf(vec![
        "no effect when drawn on the Infector's turn".into(),
        "of a color that has been eradicated, do not add a cube".into(),
    ])];
    // Only the second phrasing is in the retrieved chunk, at rank 0.
    let retrieval = vec![make_chunk(
        "If, however, the pictured city is of a color that has been eradicated, do not add a cube.",
    )];
    assert_eq!(check_expected_chunks(&example, &retrieval), Some(0));

    // Match at rank 2 (third chunk): coverage is 2.
    let retrieval = vec![
        make_chunk("Unrelated chunk one."),
        make_chunk("Unrelated chunk two."),
        make_chunk(
            "If, however, the pictured city is of a color that has been eradicated, do not add a cube.",
        ),
    ];
    assert_eq!(check_expected_chunks(&example, &retrieval), Some(2));

    // Neither phrasing present anywhere: None.
    let retrieval = vec![make_chunk("Some unrelated chunk text.")];
    assert_eq!(check_expected_chunks(&example, &retrieval), None);
}

#[test]
fn check_chunks_coverage_rank_is_the_deepest_required_passage() {
    // Two distinct required passages (all-of).
    let mut example = make_example(vec!["x"], vec![]);
    example.expected_chunks = vec![
        Passage::One("first required rule".into()),
        Passage::One("second required rule".into()),
    ];

    // A at rank 0, B at rank 2 => coverage is the deeper one, 2.
    let retrieval = vec![
        make_chunk("here is the first required rule, stated plainly"),
        make_chunk("unrelated"),
        make_chunk("and here is the second required rule"),
    ];
    assert_eq!(check_expected_chunks(&example, &retrieval), Some(2));

    // Both passages in the SAME chunk at rank 1: distinct chunks are not
    // required, so coverage is 1 (a full-context retriever would pass @1).
    let retrieval = vec![
        make_chunk("unrelated"),
        make_chunk("the first required rule and also the second required rule together"),
    ];
    assert_eq!(check_expected_chunks(&example, &retrieval), Some(1));

    // One passage present, the other missing entirely: None.
    let retrieval = vec![make_chunk("only the first required rule is here")];
    assert_eq!(check_expected_chunks(&example, &retrieval), None);
}

#[test]
fn check_chunks_empty_expected_returns_none() {
    let mut example = make_example(vec!["x"], vec![]);
    example.expected_chunks = vec![];
    assert_eq!(check_expected_chunks(&example, &[]), None);
}

#[test]
fn retrieval_metrics_from_rank() {
    // Rank 0, floor 0: every recall@k passes, mrr = 1.0, and it's perfect.
    let m = RetrievalMetrics::from(Some(Coverage { rank: 0, floor: 0 }), 0);
    assert!(m.recall_at_1 && m.recall_at_3 && m.recall_at_5 && m.recall_at_10);
    assert!(m.perfect_coverage);
    assert_eq!(value(m.mrr), 1.0);

    // Rank 2: @1 misses, @3/@5/@10 hit, mrr = 1/3.
    let m = RetrievalMetrics::from(Some(Coverage { rank: 2, floor: 0 }), 0);
    assert!(!m.recall_at_1);
    assert!(m.recall_at_3 && m.recall_at_5 && m.recall_at_10);
    assert!((value(m.mrr) - 1.0 / 3.0).abs() < 1e-6);

    // A 3-chunk question packed into the top 3 slots: rank 2 == floor 2, so
    // recall@1 is (correctly) false but perfect_coverage is true.
    let m = RetrievalMetrics::from(Some(Coverage { rank: 2, floor: 2 }), 0);
    assert!(!m.recall_at_1);
    assert!(m.perfect_coverage);

    // Same floor, one wasted slot (rank 3 > floor 2): not perfect.
    let m = RetrievalMetrics::from(Some(Coverage { rank: 3, floor: 2 }), 0);
    assert!(!m.perfect_coverage);

    // Rank 9: only @10 hits.
    let m = RetrievalMetrics::from(Some(Coverage { rank: 9, floor: 0 }), 0);
    assert!(!m.recall_at_1 && !m.recall_at_3 && !m.recall_at_5);
    assert!(m.recall_at_10);
    assert!(!m.perfect_coverage);
    assert!((value(m.mrr) - 0.1).abs() < 1e-6);

    // No match: all false, mrr = 0, not perfect.
    let m = RetrievalMetrics::from(None, 0);
    assert!(!m.recall_at_1 && !m.recall_at_3 && !m.recall_at_5 && !m.recall_at_10);
    assert!(!m.perfect_coverage);
    assert_eq!(value(m.mrr), 0.0);
}

#[test]
fn chunk_coverage_reports_floor() {
    let mut example = make_example(vec!["x"], vec![]);
    example.expected_chunks = vec![
        Passage::One("first required rule".into()),
        Passage::One("second required rule".into()),
    ];

    // Two distinct chunks packed at the top (ranks 0 and 1): floor 1, and
    // rank 1 == floor, so this is the perfect result for a 2-chunk question.
    let retrieval = vec![
        make_chunk("here is the first required rule"),
        make_chunk("and here is the second required rule"),
    ];
    assert_eq!(
        chunk_coverage(&example, &retrieval),
        Some(Coverage { rank: 1, floor: 1 })
    );

    // A wasted slot between them (ranks 0 and 2): floor stays 1, rank is 2.
    let retrieval = vec![
        make_chunk("here is the first required rule"),
        make_chunk("unrelated"),
        make_chunk("and here is the second required rule"),
    ];
    assert_eq!(
        chunk_coverage(&example, &retrieval),
        Some(Coverage { rank: 2, floor: 1 })
    );

    // Both passages in one shared chunk: a single distinct chunk, floor 0.
    let retrieval = vec![make_chunk(
        "the first required rule and the second required rule together",
    )];
    assert_eq!(
        chunk_coverage(&example, &retrieval),
        Some(Coverage { rank: 0, floor: 0 })
    );
}

#[test]
fn check_quotes_matches_any_phrasing_within_a_passage() {
    let example = make_example(
        vec![
            "A player gets 4 actions to spend on her turn",
            "Each player takes 4 actions",
        ],
        vec![],
    );
    // Matches first phrasing.
    assert!(check_expected_quotes(
        &example,
        "Per the rulebook: A player gets **4** actions to spend on her turn."
    ));
    // Matches second phrasing even when first is absent.
    assert!(check_expected_quotes(
        &example,
        "The rules say: Each player takes 4 actions per turn."
    ));
    // Neither present.
    assert!(!check_expected_quotes(
        &example,
        "Players have lots of options on their turn."
    ));
}

#[test]
fn check_quotes_requires_a_quote_from_every_passage() {
    // Two distinct required passages (all-of): the answer must quote both.
    let example = EvalExample {
        expected_quotes: vec![
            Passage::One("destroying a Town generates 1 Fear".into()),
            Passage::One("Terror Level 3: No Cities on the island".into()),
        ],
        ..make_example(vec![], vec![])
    };
    // Only the first passage quoted: fails.
    assert!(!check_expected_quotes(
        &example,
        "Destroying a Town generates 1 Fear, so press the attack."
    ));
    // Both passages quoted: passes.
    assert!(check_expected_quotes(
        &example,
        "Destroying a Town generates 1 Fear. At Terror Level 3: No Cities on the island wins."
    ));
    // Neither: fails.
    assert!(!check_expected_quotes(&example, "Fear is good and cities are bad."));
}

#[test]
fn check_quotes_empty_expected_passes() {
    let example = make_example(vec![], vec![]);
    assert!(check_expected_quotes(&example, "any answer at all"));
}

#[test]
fn check_refused_default_phrases() {
    let example = make_example(vec!["x"], vec![]);
    assert!(check_refused(
        &example,
        "I am unable to determine the answer."
    ));
    assert!(check_refused(&example, "No chunk supports this answer."));
    assert!(check_refused(
        &example,
        "The exact behavior is not specified in the rules."
    ));
    assert!(!check_refused(&example, "The rule clearly states X."));
}

#[test]
fn check_refused_per_example_phrases() {
    let example = make_example(vec!["x"], vec!["definitely wrong"]);
    assert!(check_refused(&example, "this is definitely wrong"));
    assert!(!check_refused(&example, "this is correct"));
}
