//! What comes of an example that runs through all its stages.

use crate::eval::checks;
use crate::eval::coverage;
use crate::eval::coverage_laws;
use crate::eval::examples;
use crate::eval::examples::EvalExample;
use crate::eval::metrics::RetrievalMetrics;
use crate::eval::metrics_laws;
use crate::eval::normalize;
use crate::eval::outcome::FilterMode;
use crate::eval::run;
use crate::eval::run::{Event, RetrievalStage, Stage};
use crate::eval::summary_laws;
use crate::eval::tokens;
use crate::model;
use crate::model::RetrievalResult;
use crate::text;
use vstd::prelude::*;

verus! {

/// The game that an example's retrieval is limited to, if the classifier says `game`.
pub open spec fn game_for(mode: FilterMode, example: EvalExample, game: Option<String>) -> Option<
    String,
> {
    match mode {
        FilterMode::Classifier => game,
        FilterMode::Oracle => example.game,
        FilterMode::Unfiltered => None,
    }
}

/// Whether metrics are those of a retrieval: recall at each depth says whether all expected passages
/// are among as many chunks, and the depth at which they were found is the least one.
pub open spec fn measures_retrieval(
    m: RetrievalMetrics,
    example: EvalExample,
    retrieval: Seq<RetrievalResult>,
    millis: u64,
) -> bool {
    let list = model::result_views(retrieval);
    &&& m.recall_at_1 <==> metrics_laws::all_within(example, list, 1)
    &&& m.recall_at_3 <==> metrics_laws::all_within(example, list, 3)
    &&& m.recall_at_5 <==> metrics_laws::all_within(example, list, 5)
    &&& m.recall_at_10 <==> metrics_laws::all_within(example, list, 10)
    &&& m.found_at > 0 <==> metrics_laws::all_within(example, list, list.len() as int)
    &&& m.found_at > 0 ==> metrics_laws::all_within(example, list, m.found_at as int)
        && !metrics_laws::all_within(example, list, m.found_at - 1)
    &&& m.elapsed_millis == millis
}

proof fn lemma_measured(example: EvalExample, retrieval: Seq<RetrievalResult>, millis: u64)
    requires
        retrieval.len() <= usize::MAX,
    ensures
        measures_retrieval(
            run::retrieval_measured(example, retrieval, millis),
            example,
            retrieval,
            millis,
        ),
{
    let list = model::result_views(retrieval);
    let c = run::as_coverage(coverage::coverage(example, list));
    metrics_laws::law_rank_is_depth(example, list, 0);
    if c is Some {
        let passages = examples::passage_views(example.expected_chunks@);
        coverage_laws::law_floor(passages, coverage::compared_texts(list));
    }
    metrics_laws::law_recall_is_depth(example, list, c, millis);
}

/// An example that is routed, retrieved for and answered ends with that answer, the chunks it was
/// given from and what is measured of them. The retrieval is limited to the classifier's game, to the
/// example's or not at all; only the classifier's choice is right or wrong.
pub proof fn law_answered(
    mode: FilterMode,
    example: EvalExample,
    game: Option<String>,
    results: Vec<RetrievalResult>,
    answer: String,
    routing_millis: u64,
    retrieval_millis: u64,
    total_millis: u64,
)
    requires
        results@.len() <= usize::MAX,
    ensures
        ({
            let classified = Event::Classified { game, millis: routing_millis };
            let retrieved = Event::Retrieved { results, millis: retrieval_millis };
            let answered = Event::Answered { text: answer, millis: total_millis };
            let first = run::first_stage(mode, example);
            let routed = if mode == FilterMode::Classifier {
                run::next_stage(example, first, classified)
            } else {
                Some(first)
            };
            let waiting = run::next_stage(example, routed.unwrap(), retrieved);
            let input = tokens::counted_with(example.question@, model::result_views(results@));
            let output = tokens::counted(answer@);
            let last = run::next_stage(example, waiting.unwrap(), answered);
            let hay = normalize::normalized(answer@);
            &&& first is Routing <==> mode == FilterMode::Classifier
            &&& routed is Some
            &&& routed.unwrap() is Retrieving
            &&& routed.unwrap()->game_filter == game_for(mode, example, game)
            &&& waiting is Some
            &&& waiting.unwrap() is Answering
            &&& waiting.unwrap()->retrieval == results
            &&& last is Some <==> input is Some && output is Some
            &&& last is Some ==> {
                &&& last.unwrap() is Finished
                &&& last.unwrap()->Finished_outcome is Success
                &&& {
                    let done = last.unwrap()->Finished_outcome;
                    let routing = done->routing_metrics;
                    let generation = done->generation_metrics;
                    &&& done->answer.text == answer
                    &&& done->answer.retrieval == results
                    &&& routing.correct <==> mode == FilterMode::Classifier && model::option_text(
                        game,
                    ) == model::option_text(example.game)
                    &&& routing.classified == if mode == FilterMode::Classifier {
                        game
                    } else {
                        None
                    }
                    &&& routing.elapsed_millis == if mode == FilterMode::Classifier {
                        routing_millis
                    } else {
                        0
                    }
                    &&& measures_retrieval(
                        done->retrieval_metrics,
                        example,
                        results@,
                        retrieval_millis,
                    )
                    &&& generation.quote_match <==> forall|k: int|
                        0 <= k < example.expected_quotes@.len() ==> summary_laws::says_one(
                            hay,
                            (#[trigger] example.expected_quotes@[k])@,
                        )
                    &&& generation.refused <==> summary_laws::says_one(
                        hay,
                        checks::default_phrases(),
                    ) || summary_laws::says_one(hay, text::texts(example.forbidden_phrases@))
                    &&& generation.total_elapsed_millis == total_millis
                    &&& input.unwrap() <= usize::MAX ==> generation.input_tokens == input.unwrap()
                    &&& output.unwrap() <= usize::MAX ==> generation.output_tokens
                        == output.unwrap()
                }
            }
        }),
{
    let hay = normalize::normalized(answer@);
    let quotes = examples::passage_views(example.expected_quotes@);
    lemma_measured(example, results@, retrieval_millis);
    summary_laws::law_passages(quotes, hay);
    summary_laws::law_phrases(checks::default_phrases(), hay);
    summary_laws::law_phrases(text::texts(example.forbidden_phrases@), hay);
    assert forall|k: int| 0 <= k < quotes.len() implies #[trigger] quotes[k]
        == example.expected_quotes@[k]@ by {}
    if forall|k: int|
        0 <= k < example.expected_quotes@.len() ==> summary_laws::says_one(
            hay,
            (#[trigger] example.expected_quotes@[k])@,
        ) {
        assert forall|k: int| 0 <= k < quotes.len() implies summary_laws::says_one(
            hay,
            #[trigger] quotes[k],
        ) by {
            assert(summary_laws::says_one(hay, example.expected_quotes@[k]@));
        }
    }
    if checks::all_passages_in(quotes, hay) {
        assert forall|k: int|
            0 <= k < example.expected_quotes@.len() implies summary_laws::says_one(
            hay,
            (#[trigger] example.expected_quotes@[k])@,
        ) by {
            assert(summary_laws::says_one(hay, quotes[k]));
        }
    }
}

/// An example that is routed and retrieved for ends with the chunks and what is measured of them.
pub proof fn law_retrieved(
    mode: FilterMode,
    example: EvalExample,
    game: Option<String>,
    results: Vec<RetrievalResult>,
    routing_millis: u64,
    retrieval_millis: u64,
)
    requires
        results@.len() <= usize::MAX,
    ensures
        ({
            let classified = Event::Classified { game, millis: routing_millis };
            let retrieved = Event::Retrieved { results, millis: retrieval_millis };
            let first = run::first_retrieval_stage(mode, example);
            let routed = if mode == FilterMode::Classifier {
                run::next_retrieval_stage(example, first, classified)
            } else {
                first
            };
            let last = run::next_retrieval_stage(example, routed, retrieved);
            &&& first is Routing <==> mode == FilterMode::Classifier
            &&& routed is Retrieving
            &&& routed->game_filter == game_for(mode, example, game)
            &&& last is Finished
            &&& last->Finished_outcome is Success
            &&& last->Finished_outcome->retrieval == results
            &&& measures_retrieval(
                last->Finished_outcome->metrics,
                example,
                results@,
                retrieval_millis,
            )
            &&& {
                let routing = last->Finished_outcome->routing_metrics;
                &&& routing.correct <==> mode == FilterMode::Classifier && model::option_text(game)
                    == model::option_text(example.game)
                &&& routing.classified == if mode == FilterMode::Classifier {
                    game
                } else {
                    None
                }
                &&& routing.elapsed_millis == if mode == FilterMode::Classifier {
                    routing_millis
                } else {
                    0
                }
            }
        }),
{
    lemma_measured(example, results@, retrieval_millis);
}

/// An event that a stage does not wait for changes nothing.
pub proof fn law_other_events(example: EvalExample, stage: Stage, event: Event)
    requires
        !(event is Failed),
        !(stage is Routing && event is Classified),
        !(stage is Retrieving && event is Retrieved),
        !(stage is Answering && event is Answered),
    ensures
        run::next_stage(example, stage, event) == Some(stage),
{
}

/// An event that a retrieval does not wait for changes nothing.
pub proof fn law_other_retrieval_events(example: EvalExample, stage: RetrievalStage, event: Event)
    requires
        !(event is Failed),
        !(stage is Routing && event is Classified),
        !(stage is Retrieving && event is Retrieved),
    ensures
        run::next_retrieval_stage(example, stage, event) == stage,
{
}

/// An evaluation retrieves ten chunks.
pub proof fn law_eval_top_k()
    ensures
        run::EVAL_TOP_K == 10,
{
}

} // verus!
