//! The steps an example goes through, as decisions between calls to the outside.

use crate::eval::checks;
use crate::eval::coverage;
use crate::eval::coverage::Coverage;
use crate::eval::examples;
use crate::eval::examples::EvalExample;
use crate::eval::metrics;
use crate::eval::metrics::{GenerationMetrics, RetrievalMetrics, RoutingMetrics};
use crate::eval::normalize;
use crate::eval::outcome::{FilterMode, FullOutcome, RetrievalOutcome};
use crate::eval::summary;
use crate::eval::tokens;
use crate::model;
use crate::model::{Answer, QueryOptions, RetrievalResult};
use crate::text;
use vstd::prelude::*;

verus! {

/// How many chunks an evaluation retrieves.
pub const EVAL_TOP_K: usize = 10;

/// What an example waits for.
#[derive(Debug)]
pub enum Stage {
    /// The classifier, asked for the question's game.
    Routing,
    /// The chunks for the question, limited to a game.
    Retrieving { routing: RoutingMetrics, game_filter: Option<String> },
    /// The answer to the question from the chunks.
    Answering { routing: RoutingMetrics, retrieval: Vec<RetrievalResult>, retrieval_millis: u64 },
    /// Nothing more.
    Finished { outcome: FullOutcome },
}

/// What came from outside. Times are in milliseconds; that of an answer counts from the start.
#[derive(Debug)]
pub enum Event {
    Classified { game: Option<String>, millis: u64 },
    Retrieved { results: Vec<RetrievalResult>, millis: u64 },
    Answered { text: String, millis: u64 },
    Failed { error: Vec<String> },
}

/// What the routing metrics say when the classifier is not asked.
pub open spec fn not_routed() -> RoutingMetrics {
    RoutingMetrics { correct: false, classified: None, elapsed_millis: 0 }
}

/// What the routing metrics say of the classifier's choice.
pub open spec fn routed(example: EvalExample, game: Option<String>, millis: u64) -> RoutingMetrics {
    RoutingMetrics {
        correct: model::option_text(game) == model::option_text(example.game),
        classified: game,
        elapsed_millis: millis,
    }
}

/// The first stage. Only the classifier mode asks the classifier.
pub open spec fn first_stage(mode: FilterMode, example: EvalExample) -> Stage {
    match mode {
        FilterMode::Classifier => Stage::Routing,
        FilterMode::Oracle => Stage::Retrieving {
            routing: not_routed(),
            game_filter: example.game,
        },
        FilterMode::Unfiltered => Stage::Retrieving { routing: not_routed(), game_filter: None },
    }
}

/// A coverage in machine numbers.
pub open spec fn as_coverage(c: Option<(int, int)>) -> Option<Coverage> {
    match c {
        Some((rank, floor)) => Some(Coverage { rank: rank as usize, floor: floor as usize }),
        None => None,
    }
}

/// The metrics of a retrieval.
pub open spec fn retrieval_measured(
    example: EvalExample,
    retrieval: Seq<RetrievalResult>,
    millis: u64,
) -> RetrievalMetrics {
    metrics::metrics_for(
        as_coverage(coverage::coverage(example, model::result_views(retrieval))),
        millis,
    )
}

/// Whether an answer quotes every expected passage.
pub open spec fn quotes(example: EvalExample, answer: Seq<char>) -> bool {
    checks::all_passages_in(
        examples::passage_views(example.expected_quotes@),
        normalize::normalized(answer),
    )
}

/// Whether an answer refuses.
pub open spec fn refuses(example: EvalExample, answer: Seq<char>) -> bool {
    checks::any_phrase_in(checks::default_phrases(), normalize::normalized(answer))
        || checks::any_phrase_in(
        text::texts(example.forbidden_phrases@),
        normalize::normalized(answer),
    )
}

/// The metrics of an answer; `None` where its tokens cannot be counted.
pub open spec fn answer_measured(
    example: EvalExample,
    retrieval: Seq<RetrievalResult>,
    answer: Seq<char>,
    millis: u64,
) -> Option<GenerationMetrics> {
    match (
        tokens::counted_with(example.question@, model::result_views(retrieval)),
        tokens::counted(answer),
    ) {
        (Some(input), Some(output)) => Some(
            GenerationMetrics {
                quote_match: quotes(example, answer),
                refused: refuses(example, answer),
                total_elapsed_millis: millis,
                input_tokens: input as usize,
                output_tokens: output as usize,
            },
        ),
        _ => None,
    }
}

/// The stage behind an event. An event that a stage does not wait for leaves it as it is. `None` where
/// the tokens of a question or an answer cannot be counted.
pub open spec fn next_stage(example: EvalExample, stage: Stage, event: Event) -> Option<Stage> {
    match (stage, event) {
        (Stage::Finished { .. }, _) => Some(stage),
        (_, Event::Failed { error }) => Some(
            Stage::Finished { outcome: FullOutcome::Errored { error } },
        ),
        (Stage::Routing, Event::Classified { game, millis }) => Some(
            Stage::Retrieving { routing: routed(example, game, millis), game_filter: game },
        ),
        (Stage::Retrieving { routing, .. }, Event::Retrieved { results, millis }) => Some(
            Stage::Answering { routing, retrieval: results, retrieval_millis: millis },
        ),
        (
            Stage::Answering { routing, retrieval, retrieval_millis },
            Event::Answered { text, millis },
        ) => match answer_measured(example, retrieval@, text@, millis) {
            Some(generation_metrics) => Some(
                Stage::Finished {
                    outcome: FullOutcome::Success {
                        answer: Answer { text, retrieval },
                        routing_metrics: routing,
                        retrieval_metrics: retrieval_measured(
                            example,
                            retrieval@,
                            retrieval_millis,
                        ),
                        generation_metrics,
                    },
                },
            ),
            None => None,
        },
        _ => Some(stage),
    }
}

/// A copy of an optional string.
fn copied(s: &Option<String>) -> (res: Option<String>)
    ensures
        res == *s,
{
    match s {
        Some(t) => Some(t.clone()),
        None => None,
    }
}

/// The first stage of an example.
pub fn start(mode: FilterMode, example: &EvalExample) -> (res: Stage)
    ensures
        res == first_stage(mode, *example),
{
    match mode {
        FilterMode::Classifier => Stage::Routing,
        FilterMode::Oracle => Stage::Retrieving {
            routing: RoutingMetrics::default(),
            game_filter: copied(&example.game),
        },
        FilterMode::Unfiltered => Stage::Retrieving {
            routing: RoutingMetrics::default(),
            game_filter: None,
        },
    }
}

/// The options that an evaluation retrieves with.
pub fn eval_options(game_filter: &Option<String>) -> (res: QueryOptions)
    ensures
        res == (QueryOptions { top_k: EVAL_TOP_K, game_filter: *game_filter }),
{
    QueryOptions { top_k: EVAL_TOP_K, game_filter: copied(game_filter) }
}

/// The routing metrics for the classifier's choice.
pub fn routing_metrics(example: &EvalExample, game: &Option<String>, millis: u64) -> (res:
    RoutingMetrics)
    ensures
        res == routed(*example, *game, millis),
{
    RoutingMetrics {
        correct: model::same_option(game, &example.game),
        classified: copied(game),
        elapsed_millis: millis,
    }
}

/// The metrics of a retrieval.
pub fn measure_retrieval(example: &EvalExample, retrieval: &Vec<RetrievalResult>, millis: u64) -> (res:
    RetrievalMetrics)
    ensures
        res == retrieval_measured(*example, retrieval@, millis),
        metrics::recall_nested(res),
{
    let c = coverage::chunk_coverage(example, retrieval.as_slice());
    assert(retrieval@.len() == retrieval.len());
    assert(c == as_coverage(coverage::coverage(*example, model::result_views(retrieval@))));
    RetrievalMetrics::from(c, millis)
}

/// The metrics of an answer; `None` where its tokens cannot be counted.
pub fn measure_answer(
    example: &EvalExample,
    retrieval: &Vec<RetrievalResult>,
    answer: &str,
    millis: u64,
) -> (res: Option<GenerationMetrics>)
    ensures
        res == answer_measured(*example, retrieval@, answer@, millis),
{
    match (
        tokens::count_input(example.question.as_str(), retrieval.as_slice()),
        tokens::count_tokens(answer),
    ) {
        (Some(input_tokens), Some(output_tokens)) => Some(
            GenerationMetrics {
                quote_match: checks::check_expected_quotes(example, answer),
                refused: checks::check_refused(example, answer),
                total_elapsed_millis: millis,
                input_tokens,
                output_tokens,
            },
        ),
        _ => None,
    }
}

/// Takes an example from one stage to the next.
pub fn advance(example: &EvalExample, stage: Stage, event: Event) -> (res: Option<Stage>)
    ensures
        res == next_stage(*example, stage, event),
{
    match (stage, event) {
        (Stage::Finished { outcome }, _) => Some(Stage::Finished { outcome }),
        (_, Event::Failed { error }) => Some(
            Stage::Finished { outcome: FullOutcome::Errored { error } },
        ),
        (Stage::Routing, Event::Classified { game, millis }) => Some(
            Stage::Retrieving {
                routing: routing_metrics(example, &game, millis),
                game_filter: game,
            },
        ),
        (Stage::Retrieving { routing, .. }, Event::Retrieved { results, millis }) => Some(
            Stage::Answering { routing, retrieval: results, retrieval_millis: millis },
        ),
        (
            Stage::Answering { routing, retrieval, retrieval_millis },
            Event::Answered { text, millis },
        ) => {
            let retrieval_metrics = measure_retrieval(example, &retrieval, retrieval_millis);
            match measure_answer(example, &retrieval, text.as_str(), millis) {
                Some(generation_metrics) => Some(
                    Stage::Finished {
                        outcome: FullOutcome::Success {
                            answer: Answer { text, retrieval },
                            routing_metrics: routing,
                            retrieval_metrics,
                            generation_metrics,
                        },
                    },
                ),
                None => None,
            }
        },
        (stage, _) => Some(stage),
    }
}

/// What an example waits for when it is only retrieved for.
#[derive(Debug)]
pub enum RetrievalStage {
    /// The classifier, asked for the question's game.
    Routing,
    /// The chunks for the question, limited to a game.
    Retrieving { routing: RoutingMetrics, game_filter: Option<String> },
    /// Nothing more.
    Finished { outcome: RetrievalOutcome },
}

/// The first stage. Only the classifier mode asks the classifier.
pub open spec fn first_retrieval_stage(mode: FilterMode, example: EvalExample) -> RetrievalStage {
    match mode {
        FilterMode::Classifier => RetrievalStage::Routing,
        FilterMode::Oracle => RetrievalStage::Retrieving {
            routing: not_routed(),
            game_filter: example.game,
        },
        FilterMode::Unfiltered => RetrievalStage::Retrieving {
            routing: not_routed(),
            game_filter: None,
        },
    }
}

/// The stage behind an event. An event that a stage does not wait for leaves it as it is.
pub open spec fn next_retrieval_stage(
    example: EvalExample,
    stage: RetrievalStage,
    event: Event,
) -> RetrievalStage {
    match (stage, event) {
        (RetrievalStage::Finished { .. }, _) => stage,
        (_, Event::Failed { error }) => RetrievalStage::Finished {
            outcome: RetrievalOutcome::Errored { error },
        },
        (
            RetrievalStage::Routing,
            Event::Classified { game, millis },
        ) => RetrievalStage::Retrieving {
            routing: routed(example, game, millis),
            game_filter: game,
        },
        (
            RetrievalStage::Retrieving { routing, .. },
            Event::Retrieved { results, millis },
        ) => RetrievalStage::Finished {
            outcome: RetrievalOutcome::Success {
                routing_metrics: routing,
                retrieval: results,
                metrics: retrieval_measured(example, results@, millis),
            },
        },
        _ => stage,
    }
}

/// The first stage of an example.
pub fn start_retrieval(mode: FilterMode, example: &EvalExample) -> (res: RetrievalStage)
    ensures
        res == first_retrieval_stage(mode, *example),
{
    match mode {
        FilterMode::Classifier => RetrievalStage::Routing,
        FilterMode::Oracle => RetrievalStage::Retrieving {
            routing: RoutingMetrics::default(),
            game_filter: copied(&example.game),
        },
        FilterMode::Unfiltered => RetrievalStage::Retrieving {
            routing: RoutingMetrics::default(),
            game_filter: None,
        },
    }
}

/// Takes an example from one stage to the next.
pub fn advance_retrieval(example: &EvalExample, stage: RetrievalStage, event: Event) -> (res:
    RetrievalStage)
    ensures
        res == next_retrieval_stage(*example, stage, event),
{
    match (stage, event) {
        (RetrievalStage::Finished { outcome }, _) => RetrievalStage::Finished { outcome },
        (_, Event::Failed { error }) => RetrievalStage::Finished {
            outcome: RetrievalOutcome::Errored { error },
        },
        (RetrievalStage::Routing, Event::Classified { game, millis }) => {
            RetrievalStage::Retrieving {
                routing: routing_metrics(example, &game, millis),
                game_filter: game,
            }
        },
        (RetrievalStage::Retrieving { routing, .. }, Event::Retrieved { results, millis }) => {
            let metrics = measure_retrieval(example, &results, millis);
            RetrievalStage::Finished {
                outcome: RetrievalOutcome::Success {
                    routing_metrics: routing,
                    retrieval: results,
                    metrics,
                },
            }
        },
        (stage, _) => stage,
    }
}

/// An error ends an example at any stage, and an example that has ended stays as it is.
pub proof fn law_errors_end(example: EvalExample, stage: Stage, event: Event)
    ensures
        event is Failed && !(stage is Finished) ==> next_stage(example, stage, event) == Some(
            Stage::Finished { outcome: FullOutcome::Errored { error: event->error } },
        ),
        stage is Finished ==> next_stage(example, stage, event) == Some(stage),
{
}

/// An error ends a retrieval at any stage, and a retrieval that has ended stays as it is.
pub proof fn law_retrieval_errors_end(example: EvalExample, stage: RetrievalStage, event: Event)
    ensures
        event is Failed && !(stage is Finished) ==> next_retrieval_stage(example, stage, event) == (
        RetrievalStage::Finished { outcome: RetrievalOutcome::Errored { error: event->error } }),
        stage is Finished ==> next_retrieval_stage(example, stage, event) == stage,
{
}

/// A routing is a false positive exactly when the classifier named a game and it is not the expected
/// one.
pub proof fn law_false_positives(example: EvalExample, game: Option<String>, millis: u64)
    ensures
        summary::false_positive()(routed(example, game, millis)) <==> game is Some
            && model::option_text(game) != model::option_text(example.game),
{
}

/// Without the classifier, the routing metrics are empty whatever the example; the oracle's filter is
/// the example's own game, and without a filter there is none.
pub proof fn law_routing_is_skipped(mode: FilterMode, example: EvalExample)
    ensures
        mode == FilterMode::Classifier <==> first_stage(mode, example) is Routing,
        mode == FilterMode::Oracle ==> first_stage(mode, example) == (Stage::Retrieving {
            routing: not_routed(),
            game_filter: example.game,
        }),
        mode == FilterMode::Unfiltered ==> first_stage(mode, example) == (Stage::Retrieving {
            routing: not_routed(),
            game_filter: None,
        }),
{
}

} // verus!
