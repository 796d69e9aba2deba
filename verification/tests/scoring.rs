use bgrag::errors::{EvalError, ErrorChain};
use bgrag::eval::checks::{has_any_phrase, has_passage, DEFAULT_REFUSAL_PHRASES};
use bgrag::eval::coverage::{chunk_coverage, coverage_at, Coverage};
use bgrag::eval::evaluator::{PipelineEvaluator, RetrievalEvaluator};
use bgrag::eval::examples::{select_examples, EvalExample, Passage};
use bgrag::eval::golden::{golden_set, GoldenLine};
use bgrag::eval::metrics::{GenerationMetrics, Ratio, RetrievalMetrics, RoutingMetrics};
use bgrag::eval::normalize::{clean, normalize};
use bgrag::eval::outcome::{FilterMode, FullEval, FullOutcome, RetrievalEval, RetrievalOutcome};
use bgrag::eval::run::{
    advance, advance_retrieval, eval_options, start_retrieval, Event, RetrievalStage, Stage,
};
use bgrag::eval::stats::percentiles;
use bgrag::eval::summary::{summarize_generation, summarize_retrieval, summarize_routing};
use bgrag::eval::tokens::{count_input, count_tokens};
use bgrag::model::{Answer, Chunk, DocType, RetrievalResult};
use bgrag::report::{report_failures, report_retrieval};

fn example(id: &str, tags: &[&str]) -> EvalExample {
    EvalExample {
        id: id.to_string(),
        game: Some("Pandemic".to_string()),
        question: "How many actions?".to_string(),
        expected_quotes: vec![Passage::One("four actions".to_string())],
        expected_chunks: vec![
            Passage::One("four actions".to_string()),
            Passage::AnyOf(vec!["each turn".to_string(), "every turn".to_string()]),
        ],
        expected_answer: "Four".to_string(),
        forbidden_phrases: vec!["no idea".to_string()],
        tags: tags.iter().map(|t| t.to_string()).collect(),
    }
}

fn result(id: &str, text: &str) -> RetrievalResult {
    RetrievalResult {
        chunk: Chunk {
            id: id.to_string(),
            text: text.to_string(),
            game: "Pandemic".to_string(),
            doc_type: DocType::Rules,
            page: Some(2),
            embedding: None,
        },
        score_bits: 1.0f32.to_bits(),
    }
}

fn ratio(numerator: usize, denominator: usize) -> Ratio {
    Ratio { numerator, denominator }
}

fn names(list: &[EvalExample]) -> Vec<&str> {
    list.iter().map(|e| e.id.as_str()).collect()
}

fn texts(list: &[&str]) -> Vec<String> {
    list.iter().map(|s| s.to_string()).collect()
}

#[test]
fn normalizing_lowercases_all_scripts() {
    assert_eq!(normalize("\u{c0}\u{c9} \u{3a3}\u{3a3}"), "\u{e0}\u{e9} \u{3c3}\u{3c2}");
}

#[test]
fn normalizing_strips_tags_in_any_case() {
    assert_eq!(normalize("H<SUB>2</SUB>O and x<Sup>2</sUP>"), "h2o and x2");
}

#[test]
fn normalizing_ignores_emphasis_between_spaces() {
    assert_eq!(normalize(" * a  _ b\u{a0}\t*"), "a b");
    assert_eq!(normalize("**"), "");
    assert_eq!(normalize(""), "");
}

#[test]
fn cleaning_keeps_what_is_clean() {
    for s in ["a b c", "", "x", "1st rule: yes!"] {
        assert_eq!(clean(s), s);
        assert_eq!(clean(&clean(s)), clean(s));
    }
}

#[test]
fn passages_have_at_least_one_phrasing() {
    assert_eq!(Passage::One("a".to_string()).phrasings(), &["a".to_string()][..]);
    assert_eq!(Passage::AnyOf(texts(&["a", "b"])).phrasings().len(), 2);
}

#[test]
fn phrases_are_compared_after_normalizing() {
    let hay = normalize("The *Answer* is\nFOUR.");
    assert!(has_any_phrase(&texts(&["nope", "answer  IS four"]), &hay));
    assert!(!has_any_phrase(&texts(&["five"]), &hay));
    assert!(!has_any_phrase(&[], &hay));
    assert!(has_passage(&Passage::One("answer".to_string()), &hay));
    assert_eq!(DEFAULT_REFUSAL_PHRASES.len(), 5);
}

#[test]
fn coverage_counts_different_chunks() {
    assert_eq!(coverage_at(&vec![3]), Coverage { rank: 3, floor: 0 });
    assert_eq!(coverage_at(&vec![1, 0, 1, 2]), Coverage { rank: 2, floor: 2 });
    assert_eq!(coverage_at(&vec![4, 0, 4]), Coverage { rank: 4, floor: 1 });
}

#[test]
fn a_first_chunk_with_everything_covers_at_once() {
    let c = chunk_coverage(&example("e", &[]), &[result("a", "Four **actions** every turn"), result("b", "")]);
    assert_eq!(c, Some(Coverage { rank: 0, floor: 0 }));
}

#[test]
fn recall_grows_with_depth() {
    for rank in 0..12 {
        let m = RetrievalMetrics::from(Some(Coverage { rank, floor: 0 }), 7);
        assert_eq!(m.found_at, rank + 1);
        assert_eq!(m.mrr, ratio(1, rank + 1));
        assert!(!m.recall_at_1 || m.recall_at_3);
        assert!(!m.recall_at_3 || m.recall_at_5);
        assert!(!m.recall_at_5 || m.recall_at_10);
        assert_eq!(m.perfect_coverage, m.recall_at_1);
        assert_eq!(m.elapsed_millis, 7);
    }
    let none = RetrievalMetrics::from(None, 7);
    assert_eq!((none.found_at, none.mrr), (0, ratio(0, 1)));
    assert_eq!(RetrievalMetrics::default(), RetrievalMetrics::from(None, 0));
    assert_eq!(GenerationMetrics::default().input_tokens, 0);
}

#[test]
fn percentiles_are_taken_by_position() {
    assert_eq!(percentiles(vec![]), (0, 0));
    assert_eq!(percentiles(vec![5]), (5, 5));
    assert_eq!(percentiles(vec![9, 1]), (9, 9));
    assert_eq!(percentiles(vec![3, 1, 2]), (2, 3));
    assert_eq!(percentiles((1..=20).rev().collect()), (11, 20));
    assert_eq!(percentiles((1..=40).collect()), (21, 39));
}

#[test]
fn routings_are_summed_up() {
    let m = |correct: bool, game: Option<&str>, elapsed_millis: u64| RoutingMetrics {
        correct,
        classified: game.map(|g| g.to_string()),
        elapsed_millis,
    };
    let r = summarize_routing(&vec![
        m(true, Some("A"), 5),
        m(true, None, 1),
        m(false, Some("B"), 9),
        m(false, None, 7),
    ]);
    assert_eq!(r.accuracy, ratio(2, 4));
    assert_eq!(r.false_positive_rate, ratio(1, 4));
    assert_eq!((r.elapsed_millis_p50, r.elapsed_millis_p95), (7, 9));
    assert_eq!(summarize_routing(&vec![]).accuracy, ratio(0, 0));
}

#[test]
fn retrievals_are_summed_up() {
    let m = |rank: usize, floor: usize, t: u64| RetrievalMetrics::from(Some(Coverage { rank, floor }), t);
    let list = vec![m(0, 0, 4), m(2, 2, 3), m(4, 1, 2), RetrievalMetrics::from(None, 1)];
    let r = summarize_retrieval(&list);
    assert_eq!(r.recall_at_1, ratio(1, 4));
    assert_eq!(r.recall_at_3, ratio(2, 4));
    assert_eq!(r.recall_at_5, ratio(3, 4));
    assert_eq!(r.recall_at_10, ratio(3, 4));
    assert_eq!(r.perfect_coverage, ratio(2, 4));
    assert_eq!(r.reciprocal_ranks, vec![ratio(1, 1), ratio(1, 3), ratio(1, 5), ratio(0, 1)]);
    assert_eq!((r.elapsed_millis_p50, r.elapsed_millis_p95), (3, 4));
}

#[test]
fn answers_are_summed_up() {
    let m = |quote_match: bool, refused: bool, n: usize| GenerationMetrics {
        quote_match,
        refused,
        total_elapsed_millis: n as u64 * 10,
        input_tokens: n,
        output_tokens: n + 1,
    };
    let r = summarize_generation(&vec![m(true, false, 3), m(false, true, 1), m(true, false, 2)]);
    assert_eq!(r.quote, ratio(2, 3));
    assert_eq!(r.refusal, ratio(1, 3));
    assert_eq!((r.total_elapsed_millis_p50, r.total_elapsed_millis_p95), (20, 30));
    assert_eq!((r.input_tokens_p50, r.input_tokens_p95), (2, 3));
    assert_eq!((r.output_tokens_p50, r.output_tokens_p95), (3, 4));
}

#[test]
fn examples_are_selected_by_tag_and_limit() {
    let all = || vec![example("1", &["a"]), example("2", &["b", "c"]), example("3", &[]), example("4", &["c"])];
    assert_eq!(names(&select_examples(all(), &vec![], None)), vec!["1", "2", "3", "4"]);
    assert_eq!(names(&select_examples(all(), &texts(&["c", "x"]), None)), vec!["2", "4"]);
    assert_eq!(names(&select_examples(all(), &texts(&["a", "c"]), Some(2))), vec!["1", "2"]);
    assert_eq!(names(&select_examples(all(), &vec![], Some(0))), Vec::<&str>::new());
    assert_eq!(names(&select_examples(all(), &vec![], Some(9))).len(), 4);
}

#[test]
fn the_first_malformed_line_is_reported() {
    let good = golden_set("g", vec![GoldenLine::Example(example("1", &[])), GoldenLine::Example(example("2", &[]))]);
    assert_eq!(names(&good.unwrap()), vec!["1", "2"]);
    let bad = golden_set(
        "golden.jsonl",
        vec![
            GoldenLine::Example(example("1", &[])),
            GoldenLine::Malformed(texts(&["expected value"])),
            GoldenLine::Malformed(texts(&["later"])),
        ],
    );
    let e = bad.unwrap_err();
    assert!(matches!(e, EvalError::ParseFile { line: 1, .. }));
    assert_eq!(e.message(), "failed to parse eval file at golden.jsonl on line 1");
    assert_eq!(e.causes(), vec!["expected value"]);
}

#[test]
fn special_tokens_count_as_one() {
    assert_eq!(count_tokens("<|endoftext|>"), Some(1));
    assert_eq!(count_tokens("hello world"), Some(2));
    assert_eq!(count_tokens(""), Some(0));
}

#[test]
fn input_tokens_are_those_of_the_question_and_all_chunks() {
    let results: Vec<RetrievalResult> = (0..7).map(|i| result(&format!("{i}"), "hello world")).collect();
    assert_eq!(count_input("hello", &[]), Some(1));
    assert_eq!(count_input("hello", &results[..3]), Some(7));
    assert_eq!(count_input("hello", &results), Some(15));
}

#[test]
fn only_the_classifier_mode_asks_the_classifier() {
    let e = example("1", &[]);
    let evaluator = |mode: FilterMode| PipelineEvaluator::new((), (), vec![], mode, vec![], None);
    assert!(matches!(evaluator(FilterMode::Classifier).begin(&e), Stage::Routing));
    match evaluator(FilterMode::Oracle).begin(&e) {
        Stage::Retrieving { routing, game_filter } => {
            assert_eq!(game_filter, Some("Pandemic".to_string()));
            assert!(!routing.correct && routing.classified.is_none() && routing.elapsed_millis == 0);
        }
        _ => panic!(),
    }
    match evaluator(FilterMode::Unfiltered).begin(&e) {
        Stage::Retrieving { game_filter, .. } => assert_eq!(game_filter, None),
        _ => panic!(),
    }
    let options = eval_options(&Some("Catan".to_string()));
    assert_eq!((options.top_k, options.game_filter), (10, Some("Catan".to_string())));
}

#[test]
fn an_example_goes_from_routing_to_its_answer() {
    let e = example("1", &[]);
    let evaluator = PipelineEvaluator::new((), (), texts(&["Pandemic"]), FilterMode::Classifier, vec![], None);
    let stage = evaluator.begin(&e);
    let stage = advance(&e, stage, Event::Classified { game: Some("Pandemic".to_string()), millis: 3 }).unwrap();
    match &stage {
        Stage::Retrieving { routing, game_filter } => {
            assert!(routing.correct);
            assert_eq!(routing.classified, Some("Pandemic".to_string()));
            assert_eq!(routing.elapsed_millis, 3);
            assert_eq!(*game_filter, Some("Pandemic".to_string()));
        }
        _ => panic!(),
    }
    // An event that is not awaited changes nothing.
    let stage = advance(&e, stage, Event::Answered { text: "early".to_string(), millis: 1 }).unwrap();
    let retrieved = vec![result("x", "unrelated"), result("y", "four actions each turn")];
    let stage = advance(&e, stage, Event::Retrieved { results: retrieved, millis: 4 }).unwrap();
    let text = "You get **four actions**.".to_string();
    let stage = advance(&e, stage, Event::Answered { text, millis: 50 }).unwrap();
    match stage {
        Stage::Finished { outcome: FullOutcome::Success { answer, routing_metrics, retrieval_metrics, generation_metrics } } => {
            assert_eq!(answer.text, "You get **four actions**.");
            assert_eq!(answer.retrieval.len(), 2);
            assert!(routing_metrics.correct);
            assert_eq!(retrieval_metrics.found_at, 2);
            assert_eq!(retrieval_metrics.elapsed_millis, 4);
            assert!(!retrieval_metrics.perfect_coverage);
            assert!(generation_metrics.quote_match && !generation_metrics.refused);
            assert_eq!(generation_metrics.total_elapsed_millis, 50);
            assert_eq!(
                generation_metrics.input_tokens,
                count_tokens("How many actions?").unwrap()
                    + count_tokens("unrelated").unwrap()
                    + count_tokens("four actions each turn").unwrap()
            );
            assert_eq!(generation_metrics.output_tokens, count_tokens("You get **four actions**.").unwrap());
        }
        _ => panic!(),
    }
}

#[test]
fn an_error_ends_an_example_at_any_stage() {
    let e = example("1", &[]);
    let stages = vec![
        Stage::Routing,
        Stage::Retrieving { routing: RoutingMetrics::default(), game_filter: None },
        Stage::Answering { routing: RoutingMetrics::default(), retrieval: vec![], retrieval_millis: 0 },
    ];
    for stage in stages {
        let end = advance(&e, stage, Event::Failed { error: texts(&["a", "b"]) }).unwrap();
        match &end {
            Stage::Finished { outcome: FullOutcome::Errored { error } } => assert_eq!(*error, texts(&["a", "b"])),
            _ => panic!(),
        }
        let after = advance(&e, end, Event::Failed { error: texts(&["c"]) }).unwrap();
        match after {
            Stage::Finished { outcome } => {
                assert!(outcome.metrics().is_none());
                match outcome {
                    FullOutcome::Errored { error } => assert_eq!(error, texts(&["a", "b"])),
                    _ => panic!(),
                }
            }
            _ => panic!(),
        }
    }
}

#[test]
fn a_retrieval_ends_with_its_chunks() {
    let e = example("1", &[]);
    let stage = start_retrieval(FilterMode::Classifier, &e);
    let stage = advance_retrieval(&e, stage, Event::Classified { game: None, millis: 2 });
    let stage = advance_retrieval(&e, stage, Event::Retrieved { results: vec![result("a", "four actions every turn")], millis: 6 });
    match &stage {
        RetrievalStage::Finished { outcome } => {
            let m = outcome.metrics().unwrap();
            assert!(m.recall_at_1 && m.perfect_coverage);
            assert_eq!(m.elapsed_millis, 6);
            let r = outcome.routing_metrics().unwrap();
            assert!(!r.correct && r.classified.is_none());
        }
        _ => panic!(),
    }
    let failed = advance_retrieval(&e, start_retrieval(FilterMode::Oracle, &e), Event::Failed { error: texts(&["x"]) });
    match failed {
        RetrievalStage::Finished { outcome } => assert!(outcome.metrics().is_none() && outcome.routing_metrics().is_none()),
        _ => panic!(),
    }
}

fn full(id: &str, rank: Option<usize>, quote_match: bool, refused: bool) -> FullEval {
    FullEval {
        example: example(id, &[]),
        outcome: FullOutcome::Success {
            answer: Answer { text: format!("answer {id}"), retrieval: vec![] },
            routing_metrics: RoutingMetrics::default(),
            retrieval_metrics: RetrievalMetrics::from(rank.map(|rank| Coverage { rank, floor: 0 }), 1),
            generation_metrics: GenerationMetrics { quote_match, refused, ..GenerationMetrics::default() },
        },
    }
}

#[test]
fn evaluations_are_in_order_of_their_ids() {
    let evaluator = PipelineEvaluator::new((), (), vec![], FilterMode::Oracle, vec![], None);
    let errored = FullEval { example: example("b-2", &[]), outcome: FullOutcome::Errored { error: vec![] } };
    let evaluation = evaluator.finish(vec![full("c", Some(0), true, false), errored, full("b-10", None, false, true)]);
    let ids: Vec<&str> = evaluation.evals.iter().map(|e| e.example.id.as_str()).collect();
    assert_eq!(ids, vec!["b-10", "b-2", "c"]);
    assert!(evaluation.routing_ratios.is_none());
    assert_eq!(evaluation.retrieval_ratios.recall_at_1, ratio(1, 2));
    assert_eq!(evaluation.generation_ratios.quote, ratio(1, 2));
    assert_eq!(evaluation.generation_ratios.refusal, ratio(1, 2));
    let routed = PipelineEvaluator::new((), (), vec![], FilterMode::Classifier, vec![], None);
    assert_eq!(routed.finish(vec![full("a", None, true, true)]).routing_ratios.unwrap().accuracy, ratio(0, 1));
}

#[test]
fn wrong_answers_are_reported_with_their_fault() {
    let evaluator = PipelineEvaluator::new((), (), vec![], FilterMode::Oracle, vec![], None);
    let good = evaluator.finish(vec![full("a", Some(0), true, false)]);
    assert!(report_failures(&good).is_empty());
    let bad = evaluator.finish(vec![
        full("a", Some(0), true, false),
        full("b", None, false, true),
        full("c", Some(4), true, true),
        full("d", Some(3), false, false),
        full("e", Some(1), true, false),
        full("f", Some(4), true, false),
    ]);
    let chunks = ["Expected chunk(s):", "  - four actions", "  - each turn", "  - every turn"];
    let mut want: Vec<String> = texts(&["\nWrong answers:\n", "ID: b", "Question:\nHow many actions?", "Chunk not found"]);
    want.extend(texts(&chunks));
    want.extend(texts(&["Answer:\nanswer b", "", "ID: c", "Question:\nHow many actions?", "Refusal", "Answer:\nanswer c", ""]));
    want.extend(texts(&["ID: d", "Question:\nHow many actions?", "Quote failure", "Expected quote(s):", "  - four actions", "Answer:\nanswer d", ""]));
    want.extend(texts(&["ID: e", "Question:\nHow many actions?", "Recall@1 failed"]));
    want.extend(texts(&chunks));
    want.extend(texts(&["Answer:\nanswer e", "", "ID: f", "Question:\nHow many actions?", "Recall@3 failed"]));
    want.extend(texts(&chunks));
    want.extend(texts(&["Answer:\nanswer f", ""]));
    assert_eq!(report_failures(&bad), want);
}

#[test]
fn missed_retrievals_are_reported_when_asked_for() {
    let evaluator = RetrievalEvaluator::new((), (), vec![], FilterMode::Classifier, vec![], None);
    let eval = |id: &str, rank: Option<usize>| RetrievalEval {
        example: example(id, &[]),
        outcome: RetrievalOutcome::Success {
            routing_metrics: RoutingMetrics::default(),
            retrieval: vec![result("x", " one\n\ntwo\n"), result("y", "three")],
            metrics: RetrievalMetrics::from(rank.map(|rank| Coverage { rank, floor: 0 }), 1),
        },
    };
    let evaluation = evaluator.finish(vec![eval("d", None), eval("a", Some(0)), eval("b", Some(1)), eval("c", Some(5))]);
    assert_eq!(evaluation.ratios.recall_at_1, ratio(1, 4));
    assert!(evaluation.routing_ratios.is_some());
    assert!(report_retrieval(&evaluation, 0).is_empty());
    let brief = report_retrieval(&evaluation, 1);
    assert_eq!(brief[0], "\nMissed Recall@1:\n");
    assert_eq!(brief[3], "Chunk(s) passed Recall@3 but failed Recall@1");
    assert!(brief.contains(&"Chunk(s) passed Recall@10 but failed Recall@5".to_string()));
    assert!(brief.contains(&"Chunk(s) failed Recall@10".to_string()));
    assert!(!brief.iter().any(|l| l.starts_with("Failed chunk")));
    let long = report_retrieval(&evaluation, 2);
    let failed: Vec<&String> = long.iter().filter(|l| l.starts_with("Failed chunk")).collect();
    // One chunk before the one that was found, and two each where it was not among them.
    assert_eq!(failed.len(), 5);
    assert_eq!(failed[0], "Failed chunk x:\none\ntwo\n");
    let selected = evaluator.select(vec![example("1", &[])]);
    assert_eq!(names(&selected), vec!["1"]);
    assert!(matches!(evaluator.begin(&selected[0]), RetrievalStage::Routing));
}

#[test]
fn normalizing_twice_changes_nothing() {
    for s in ["The **Answer**  is\n FOUR", "x<sup>2</sup> _and_ H<sub>2</sub>O", "", "\u{c9}t\u{c9} \u{3a3}\u{3a3}"] {
        let once = normalize(s);
        assert_eq!(normalize(&once), once, "{s:?}");
    }
    // A tag that comes about by normalizing is stripped the next time.
    assert_eq!(normalize("<s_up>x"), "<sup>x");
    assert_eq!(normalize(&normalize("<s_up>x")), "x");
}

#[test]
fn no_order_of_the_chunks_beats_the_floor() {
    let e = example("1", &[]);
    let texts = ["four actions", "unrelated", "each turn"];
    let orders = [[0, 1, 2], [0, 2, 1], [1, 0, 2], [1, 2, 0], [2, 0, 1], [2, 1, 0]];
    let mut ranks: Vec<usize> = Vec::new();
    for order in orders {
        let retrieval: Vec<RetrievalResult> = order.iter().map(|i| result("r", texts[*i])).collect();
        let c = chunk_coverage(&e, &retrieval).unwrap();
        assert_eq!(c.floor, 1);
        ranks.push(c.rank);
    }
    assert_eq!(ranks, vec![2, 1, 2, 2, 1, 2]);
}
