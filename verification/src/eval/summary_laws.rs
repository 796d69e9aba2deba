//! What an evaluation selects, counts and sums up.

use crate::eval::checks;
use crate::eval::examples;
use crate::eval::examples::EvalExample;
use crate::eval::metrics::{GenerationMetrics, RetrievalMetrics, RoutingMetrics};
use crate::eval::normalize;
use crate::eval::outcome;
use crate::eval::outcome::{FilterMode, FullEval, RetrievalEval};
use crate::eval::stats;
use crate::eval::summary;
use crate::eval::summary::{GenerationRatios, RetrievalRatios, RoutingRatios};
use crate::eval::tokens;
use crate::model::RetrievalResultView;
use crate::sorting;
use crate::sorting::Ranked;
use crate::text;
use vstd::prelude::*;

verus! {

/// Whether an example is wanted: there are no tags to filter by, or it has one of them.
pub open spec fn wanted(example: EvalExample, filter: Seq<Seq<char>>) -> bool {
    filter.len() == 0 || exists|i: int, j: int|
        0 <= i < example.tags@.len() && 0 <= j < filter.len() && (#[trigger] example.tags@[i])@
            == #[trigger] filter[j]
}

proof fn lemma_wanted(example: EvalExample, filter: Seq<Seq<char>>)
    ensures
        wanted(example, filter) <==> filter.len() == 0 || examples::has_tag(example, filter),
{
    if examples::has_tag(example, filter) {
        let i = choose|i: int|
            0 <= i < example.tags@.len() && filter.contains((#[trigger] example.tags@[i])@);
        let j = choose|j: int| 0 <= j < filter.len() && filter[j] == example.tags@[i]@;
        assert(example.tags@[i]@ == filter[j]);
    }
}

proof fn lemma_tagged_is_filter(list: Seq<EvalExample>, filter: Seq<Seq<char>>)
    ensures
        examples::tagged(list, filter) == list.filter(|e: EvalExample| wanted(e, filter)),
    decreases list.len(),
{
    reveal(Seq::filter);
    if list.len() > 0 {
        lemma_tagged_is_filter(list.drop_last(), filter);
        lemma_wanted(list.last(), filter);
    }
}

/// The examples to run are the wanted ones, all of them and in order, or the first of these where
/// there are more than the limit.
pub proof fn law_selected(list: Seq<EvalExample>, filter: Seq<Seq<char>>, limit: Option<usize>)
    ensures
        ({
            let all = list.filter(|e: EvalExample| wanted(e, filter));
            let picked = examples::limited(examples::tagged(list, filter), limit);
            &&& picked == all.take(picked.len() as int)
            &&& picked.len() <= all.len()
            &&& limit is None ==> picked.len() == all.len()
            &&& limit is Some ==> picked.len() <= limit.unwrap()
            &&& limit is Some && picked.len() < limit.unwrap() ==> picked.len() == all.len()
        }),
{
    lemma_tagged_is_filter(list, filter);
    let all = examples::tagged(list, filter);
    assert(all.take(all.len() as int) == all);
}

/// Whether a compared text holds the compared form of a phrase.
pub open spec fn says(hay: Seq<char>, phrase: Seq<char>) -> bool {
    exists|at: int|
        0 <= at && at + normalize::normalized(phrase).len() <= hay.len() && #[trigger] hay.subrange(
            at,
            at + normalize::normalized(phrase).len(),
        ) == normalize::normalized(phrase)
}

proof fn lemma_says(hay: Seq<char>, phrase: Seq<char>)
    ensures
        says(hay, phrase) <==> text::occurs(hay, normalize::normalized(phrase)),
{
    let needle = normalize::normalized(phrase);
    if says(hay, phrase) {
        let at = choose|at: int|
            0 <= at && at + needle.len() <= hay.len() && #[trigger] hay.subrange(
                at,
                at + needle.len(),
            ) == needle;
        assert(text::occurs_at(hay, needle, at));
    }
    if text::occurs(hay, needle) {
        let at = choose|at: int| text::occurs_at(hay, needle, at);
        assert(hay.subrange(at, at + needle.len()) == needle);
    }
}

/// Whether a compared text says one of some phrases.
pub open spec fn says_one(hay: Seq<char>, phrases: Seq<Seq<char>>) -> bool {
    exists|p: int| 0 <= p < phrases.len() && #[trigger] says(hay, phrases[p])
}

/// A text holds passages if it says each of them in one of its phrasings.
pub proof fn law_passages(passages: Seq<Seq<Seq<char>>>, hay: Seq<char>)
    ensures
        checks::all_passages_in(passages, hay) <==> forall|k: int|
            0 <= k < passages.len() ==> says_one(hay, #[trigger] passages[k]),
{
    assert forall|k: int| 0 <= k < passages.len() implies says_one(hay, #[trigger] passages[k])
        == checks::any_phrase_in(passages[k], hay) by {
        law_phrases(passages[k], hay);
    }
}

/// A text holds one of some phrases if it says one of them.
pub proof fn law_phrases(phrases: Seq<Seq<char>>, hay: Seq<char>)
    ensures
        checks::any_phrase_in(phrases, hay) <==> says_one(hay, phrases),
{
    assert forall|p: int| 0 <= p < phrases.len() implies #[trigger] says(hay, phrases[p])
        == text::occurs(hay, normalize::normalized(phrases[p])) by {
        lemma_says(hay, phrases[p]);
    }
    if checks::any_phrase_in(phrases, hay) {
        let p = choose|p: int|
            0 <= p < phrases.len() && text::occurs(
                hay,
                normalize::normalized(#[trigger] phrases[p]),
            );
        assert(says(hay, phrases[p]));
    }
}

/// Five phrases mark a refusal in any answer.
pub proof fn law_default_phrases()
    ensures
        checks::default_phrases() == seq![
            "no information"@,
            "cannot determine"@,
            "unable to determine"@,
            "no chunk supports"@,
            "not specified"@,
        ],
{
}

/// The tokens of a question and its chunks are those of the question and of every chunk added up, and
/// are counted wherever each of them is and the sum can be held.
pub proof fn law_counted_with(question: Seq<char>, results: Seq<RetrievalResultView>)
    ensures
        ({
            let sum = results.fold_left(
                tokens::counted(question).unwrap() as int,
                |n: int, r: RetrievalResultView| n + tokens::counted(r.chunk.text).unwrap(),
            );
            let known = tokens::counted(question) is Some && forall|i: int|
                0 <= i < results.len() ==> tokens::counted(
                    (#[trigger] results[i]).chunk.text,
                ) is Some;
            match tokens::counted_with(question, results) {
                Some(n) => known && n == sum,
                None => !known || sum > usize::MAX,
            }
        }),
    decreases results.len(),
{
    if results.len() > 0 {
        let before = results.drop_last();
        law_counted_with(question, before);
        let known = tokens::counted(question) is Some && forall|i: int|
            0 <= i < results.len() ==> tokens::counted(
                (#[trigger] results[i]).chunk.text,
            ) is Some;
        assert(results[results.len() - 1] == results.last());
        if known {
            assert forall|i: int| 0 <= i < before.len() implies tokens::counted(
                (#[trigger] before[i]).chunk.text,
            ) is Some by {
                assert(before[i] == results[i]);
            }
        }
        if tokens::counted_with(question, results) is Some {
            assert forall|i: int| 0 <= i < results.len() implies tokens::counted(
                (#[trigger] results[i]).chunk.text,
            ) is Some by {
                if i < before.len() {
                    assert(before[i] == results[i]);
                }
            }
        }
    }
}

/// Counting what has a property is counting what is left when the rest is filtered out.
pub proof fn law_count<T>(list: Seq<T>, p: spec_fn(T) -> bool, q: spec_fn(T) -> bool)
    requires
        forall|x: T| #[trigger] p(x) == q(x),
    ensures
        stats::count_if(list, p) == list.filter(q).len(),
    decreases list.len(),
{
    reveal(Seq::filter);
    if list.len() > 0 {
        law_count(list.drop_last(), p, q);
    }
}

/// However numbers are put in ascending order, the median is the one at half their number and the
/// 95th percentile the one at nineteen twentieths of it. Of no numbers both are zero.
pub proof fn law_percentiles(values: Seq<u64>, sorted: Seq<u64>)
    requires
        sorted.to_multiset() == values.to_multiset(),
        forall|i: int, j: int| 0 <= i < j < sorted.len() ==> #[trigger] sorted[i] <= #[trigger] sorted[j],
    ensures
        values.len() > 0 ==> stats::p50(values) == sorted[values.len() as int / 2],
        values.len() > 0 ==> stats::p95(values) == sorted[values.len() as int * 19 / 20],
        values.len() == 0 ==> stats::p50(values) == 0 && stats::p95(values) == 0,
{
    assert(sorting::in_order(sorted)) by {
        assert forall|i: int, j: int| 0 <= i < j < sorted.len() implies (
        #[trigger] sorted[i]).may_precede(#[trigger] sorted[j]) by {}
    }
    sorting::lemma_ascending(values, sorted);
}

/// What is said of routings all together.
pub proof fn law_routing_summary(r: RoutingRatios, list: Seq<RoutingMetrics>)
    requires
        summary::summarises_routing(r, list),
    ensures
        r.accuracy.numerator == list.filter(|m: RoutingMetrics| m.correct).len(),
        r.accuracy.denominator == list.len(),
        r.false_positive_rate.numerator == list.filter(
            |m: RoutingMetrics| !m.correct && m.classified is Some,
        ).len(),
        r.false_positive_rate.denominator == list.len(),
        r.elapsed_millis_p50 == stats::p50(
            list.map_values(|m: RoutingMetrics| m.elapsed_millis),
        ),
        r.elapsed_millis_p95 == stats::p95(
            list.map_values(|m: RoutingMetrics| m.elapsed_millis),
        ),
{
    law_count(list, summary::correct(), |m: RoutingMetrics| m.correct);
    law_count(
        list,
        summary::false_positive(),
        |m: RoutingMetrics| !m.correct && m.classified is Some,
    );
    assert(summary::routing_times(list) == list.map_values(
        |m: RoutingMetrics| m.elapsed_millis,
    ));
}

/// What is said of retrievals all together.
pub proof fn law_retrieval_summary(r: RetrievalRatios, list: Seq<RetrievalMetrics>)
    requires
        summary::summarises_retrieval(r, list),
    ensures
        r.recall_at_1.numerator == list.filter(|m: RetrievalMetrics| m.recall_at_1).len(),
        r.recall_at_3.numerator == list.filter(|m: RetrievalMetrics| m.recall_at_3).len(),
        r.recall_at_5.numerator == list.filter(|m: RetrievalMetrics| m.recall_at_5).len(),
        r.recall_at_10.numerator == list.filter(|m: RetrievalMetrics| m.recall_at_10).len(),
        r.perfect_coverage.numerator == list.filter(
            |m: RetrievalMetrics| m.perfect_coverage,
        ).len(),
        r.recall_at_1.denominator == list.len(),
        r.recall_at_3.denominator == list.len(),
        r.recall_at_5.denominator == list.len(),
        r.recall_at_10.denominator == list.len(),
        r.perfect_coverage.denominator == list.len(),
        r.reciprocal_ranks@.len() == list.len(),
        forall|i: int| 0 <= i < list.len() ==> #[trigger] r.reciprocal_ranks@[i] == list[i].mrr,
        r.elapsed_millis_p50 == stats::p50(
            list.map_values(|m: RetrievalMetrics| m.elapsed_millis),
        ),
        r.elapsed_millis_p95 == stats::p95(
            list.map_values(|m: RetrievalMetrics| m.elapsed_millis),
        ),
{
    law_count(list, summary::recalled_at_1(), |m: RetrievalMetrics| m.recall_at_1);
    law_count(list, summary::recalled_at_3(), |m: RetrievalMetrics| m.recall_at_3);
    law_count(list, summary::recalled_at_5(), |m: RetrievalMetrics| m.recall_at_5);
    law_count(list, summary::recalled_at_10(), |m: RetrievalMetrics| m.recall_at_10);
    law_count(list, summary::covered_perfectly(), |m: RetrievalMetrics| m.perfect_coverage);
    assert(summary::retrieval_times(list) == list.map_values(
        |m: RetrievalMetrics| m.elapsed_millis,
    ));
}

/// What is said of answers all together.
pub proof fn law_generation_summary(r: GenerationRatios, list: Seq<GenerationMetrics>)
    requires
        summary::summarises_generation(r, list),
    ensures
        r.quote.numerator == list.filter(|m: GenerationMetrics| m.quote_match).len(),
        r.refusal.numerator == list.filter(|m: GenerationMetrics| m.refused).len(),
        r.quote.denominator == list.len(),
        r.refusal.denominator == list.len(),
        r.total_elapsed_millis_p50 == stats::p50(
            list.map_values(|m: GenerationMetrics| m.total_elapsed_millis),
        ),
        r.total_elapsed_millis_p95 == stats::p95(
            list.map_values(|m: GenerationMetrics| m.total_elapsed_millis),
        ),
        r.input_tokens_p50 == stats::p50(
            list.map_values(|m: GenerationMetrics| m.input_tokens as u64),
        ),
        r.input_tokens_p95 == stats::p95(
            list.map_values(|m: GenerationMetrics| m.input_tokens as u64),
        ),
        r.output_tokens_p50 == stats::p50(
            list.map_values(|m: GenerationMetrics| m.output_tokens as u64),
        ),
        r.output_tokens_p95 == stats::p95(
            list.map_values(|m: GenerationMetrics| m.output_tokens as u64),
        ),
{
    law_count(list, summary::quoted(), |m: GenerationMetrics| m.quote_match);
    law_count(list, summary::refusing(), |m: GenerationMetrics| m.refused);
    assert(summary::total_times(list) == list.map_values(
        |m: GenerationMetrics| m.total_elapsed_millis,
    ));
    assert(summary::inputs(list) == list.map_values(|m: GenerationMetrics| m.input_tokens as u64));
    assert(summary::outputs(list) == list.map_values(
        |m: GenerationMetrics| m.output_tokens as u64,
    ));
}

/// Of answered examples those count that did not end in an error, each with its own metrics.
pub proof fn law_full_metrics(evals: Seq<FullEval>)
    ensures
        ({
            let answered = evals.filter(|e: FullEval| e.outcome is Success);
            &&& outcome::full_routing(evals) == answered.map_values(
                |e: FullEval| e.outcome->routing_metrics,
            )
            &&& outcome::full_retrieval(evals) == answered.map_values(
                |e: FullEval| e.outcome->retrieval_metrics,
            )
            &&& outcome::full_generation(evals) == answered.map_values(
                |e: FullEval| e.outcome->generation_metrics,
            )
        }),
    decreases evals.len(),
{
    reveal(Seq::filter);
    if evals.len() > 0 {
        law_full_metrics(evals.drop_last());
    }
}

/// Of retrieved examples those count that did not end in an error, each with its own metrics.
pub proof fn law_retrieval_metrics(evals: Seq<RetrievalEval>)
    ensures
        ({
            let retrieved = evals.filter(|e: RetrievalEval| e.outcome is Success);
            &&& outcome::retrieval_routing(evals) == retrieved.map_values(
                |e: RetrievalEval| e.outcome->routing_metrics,
            )
            &&& outcome::retrieval_metrics(evals) == retrieved.map_values(
                |e: RetrievalEval| e.outcome->metrics,
            )
        }),
    decreases evals.len(),
{
    reveal(Seq::filter);
    if evals.len() > 0 {
        law_retrieval_metrics(evals.drop_last());
    }
}

/// Answered and retrieved examples are in order when their ids are, character by character.
pub proof fn law_order_of_ids(full: Seq<FullEval>, retrieved: Seq<RetrievalEval>)
    ensures
        sorting::in_order(full) <==> forall|i: int, j: int|
            0 <= i < j < full.len() ==> text::text_le(
                (#[trigger] full[i]).example.id@,
                (#[trigger] full[j]).example.id@,
            ),
        sorting::in_order(retrieved) <==> forall|i: int, j: int|
            0 <= i < j < retrieved.len() ==> text::text_le(
                (#[trigger] retrieved[i]).example.id@,
                (#[trigger] retrieved[j]).example.id@,
            ),
{
    if sorting::in_order(full) {
        assert forall|i: int, j: int| 0 <= i < j < full.len() implies text::text_le(
            (#[trigger] full[i]).example.id@,
            (#[trigger] full[j]).example.id@,
        ) by {
            assert(full[i].may_precede(full[j]));
        }
    }
    if sorting::in_order(retrieved) {
        assert forall|i: int, j: int| 0 <= i < j < retrieved.len() implies text::text_le(
            (#[trigger] retrieved[i]).example.id@,
            (#[trigger] retrieved[j]).example.id@,
        ) by {
            assert(retrieved[i].may_precede(retrieved[j]));
        }
    }
}

/// There are ratios on routing exactly when the classifier was asked.
pub proof fn law_routing_summarised(
    r: Option<RoutingRatios>,
    mode: FilterMode,
    list: Seq<RoutingMetrics>,
)
    requires
        outcome::routing_summarised(r, mode, list),
    ensures
        r is Some <==> mode == FilterMode::Classifier,
        r is Some ==> summary::summarises_routing(r.unwrap(), list),
{
}

} // verus!
