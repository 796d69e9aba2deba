//! What the reports say, case by case.

use crate::eval::examples;
use crate::eval::examples::{EvalExample, Passage};
use crate::eval::metrics::{GenerationMetrics, Ratio, RetrievalMetrics};
use crate::eval::outcome::{
    FullEval, FullEvaluation, RetrievalEval, RetrievalEvaluation, RetrievalOutcome,
};
use crate::model;
use crate::model::RetrievalResultView;
use crate::report;
use crate::text;
use vstd::prelude::*;

verus! {

/// The phrasings of passages, each with a dash before it.
pub open spec fn dashed(passages: Seq<Passage>) -> Seq<Seq<char>> {
    passages.map_values(|p: Passage| p@.map_values(|s: Seq<char>| "  - "@ + s)).flatten_alt()
}

proof fn lemma_dashed(passages: Seq<Passage>)
    ensures
        report::passage_items(examples::passage_views(passages)) == dashed(passages),
    decreases passages.len(),
{
    let views = examples::passage_views(passages);
    let parts = passages.map_values(|p: Passage| p@.map_values(|s: Seq<char>| "  - "@ + s));
    if passages.len() > 0 {
        let before = passages.drop_last();
        lemma_dashed(before);
        assert(views.drop_last() == examples::passage_views(before));
        assert(parts.drop_last() == before.map_values(
            |p: Passage| p@.map_values(|s: Seq<char>| "  - "@ + s),
        ));
        assert(report::phrasing_items(views.last()) == parts.last());
    }
}

/// A fraction is less than one or more than zero as its numbers say, and over zero it counts as zero.
pub proof fn law_fractions(r: Ratio)
    ensures
        r.denominator > 0 ==> (report::below_one(r) <==> r.numerator < r.denominator),
        r.denominator == 0 ==> report::below_one(r) && !report::above_zero(r),
        r.denominator > 0 ==> (report::above_zero(r) <==> r.numerator > 0),
{
}

/// The depth line names the greatest depth that failed, and the least that passed if one did.
pub proof fn law_depth_line(m: RetrievalMetrics)
    ensures
        !m.recall_at_10 ==> report::depth_line(m) == "Chunk(s) failed Recall@10"@,
        m.recall_at_10 && !m.recall_at_5 ==> report::depth_line(m)
            == "Chunk(s) passed Recall@10 but failed Recall@5"@,
        m.recall_at_10 && m.recall_at_5 && !m.recall_at_3 ==> report::depth_line(m)
            == "Chunk(s) passed Recall@5 but failed Recall@3"@,
        m.recall_at_10 && m.recall_at_5 && m.recall_at_3 ==> report::depth_line(m)
            == "Chunk(s) passed Recall@3 but failed Recall@1"@,
{
}

/// A chunk that failed is shown by its id and its text, without empty lines and without white space
/// at either end. Shown are the chunks before the one at which all passages were found, or all if
/// they were not.
pub proof fn law_failed_chunks(retrieval: Seq<RetrievalResultView>, found_at: int)
    requires
        0 <= found_at <= retrieval.len(),
    ensures
        ({
            let lines = report::failed_chunks(retrieval, found_at);
            &&& lines.len() == 1 + if found_at > 0 {
                found_at - 1
            } else {
                retrieval.len() as int
            }
            &&& lines[0] == "Actual failed chunks:\n"@
            &&& forall|i: int|
                0 <= i < lines.len() - 1 ==> #[trigger] lines[i + 1] == "Failed chunk "@
                    + retrieval[i].chunk.id + ":\n"@ + text::trimmed_end(
                    text::trimmed_start(text::replaced(retrieval[i].chunk.text, "\n\n"@, "\n"@)),
                ) + "\n"@
        }),
{
}

/// What is reported of a retrieval: nothing if it ended in an error or found everything in the first
/// chunk. Otherwise the example, how deep it failed, what was expected, and if asked for what came
/// instead.
pub open spec fn retrieval_entry(e: RetrievalEval, verbose: u8) -> Seq<Seq<char>> {
    if e.outcome is Errored || e.outcome->metrics.recall_at_1 {
        seq![]
    } else {
        let m = e.outcome->metrics;
        let head = seq![
            "ID: "@ + e.example.id@,
            "Question:\n"@ + e.example.question@,
            report::depth_line(m),
            "Expected chunk(s):"@,
        ] + dashed(e.example.expected_chunks@);
        if verbose >= 2 {
            head + report::failed_chunks(
                model::result_views(e.outcome->retrieval@),
                m.found_at as int,
            ) + seq![""@]
        } else {
            head + seq![""@]
        }
    }
}

proof fn lemma_retrieval_entry(e: RetrievalEval, verbose: u8)
    ensures
        report::missed(e, verbose) == retrieval_entry(e, verbose),
{
    lemma_dashed(e.example.expected_chunks@);
    match e.outcome {
        RetrievalOutcome::Success { retrieval, metrics, .. } => {
            if !metrics.recall_at_1 {
                let items = dashed(e.example.expected_chunks@);
                let extra = report::failed_chunks(
                    model::result_views(retrieval@),
                    metrics.found_at as int,
                );
                let a = seq!["ID: "@ + e.example.id@, "Question:\n"@ + e.example.question@];
                let b = seq![report::depth_line(metrics)];
                let c = seq!["Expected chunk(s):"@];
                assert(a + b + (c + items) == seq![
                    "ID: "@ + e.example.id@,
                    "Question:\n"@ + e.example.question@,
                    report::depth_line(metrics),
                    "Expected chunk(s):"@,
                ] + items);
                let head = a + b + (c + items);
                assert(head + Seq::<Seq<char>>::empty() == head);
            }
        },
        RetrievalOutcome::Errored { .. } => {},
    }
}

proof fn lemma_all_missed(evals: Seq<RetrievalEval>, verbose: u8)
    ensures
        report::all_missed(evals, verbose) == evals.map_values(
            |e: RetrievalEval| retrieval_entry(e, verbose),
        ).flatten_alt(),
    decreases evals.len(),
{
    if evals.len() > 0 {
        let parts = evals.map_values(|e: RetrievalEval| retrieval_entry(e, verbose));
        let before = evals.drop_last();
        lemma_all_missed(before, verbose);
        lemma_retrieval_entry(evals.last(), verbose);
        assert(parts.drop_last() == before.map_values(
            |e: RetrievalEval| retrieval_entry(e, verbose),
        ));
    }
}

/// The report on retrievals is empty unless asked for. It has the entries of all examples in order,
/// under a heading if not all found everything in the first chunk.
pub proof fn law_retrieval_report(evaluation: RetrievalEvaluation, verbose: u8)
    ensures
        ({
            let entries = evaluation.evals@.map_values(
                |e: RetrievalEval| retrieval_entry(e, verbose),
            ).flatten_alt();
            let lines = report::retrieval_report(evaluation, verbose);
            &&& verbose == 0 ==> lines == Seq::<Seq<char>>::empty()
            &&& verbose > 0 && report::below_one(evaluation.ratios.recall_at_1) ==> lines == seq![
                "\nMissed Recall@1:\n"@,
            ] + entries
            &&& verbose > 0 && !report::below_one(evaluation.ratios.recall_at_1) ==> lines == entries
        }),
{
    lemma_all_missed(evaluation.evals@, verbose);
    let entries = report::all_missed(evaluation.evals@, verbose);
    assert(Seq::<Seq<char>>::empty() + entries == entries);
}

/// What went wrong with an answer. Passages that are not in the first five chunks come first, then a
/// refusal, then missing quotes, and last passages that are not in the first chunk or the first three.
pub proof fn law_fault(example: EvalExample, r: RetrievalMetrics, g: GenerationMetrics)
    ensures
        ({
            let lines = report::fault(example, r, g);
            let chunks = seq!["Expected chunk(s):"@] + dashed(example.expected_chunks@);
            let quotes = seq!["Expected quote(s):"@] + dashed(example.expected_quotes@);
            &&& !r.recall_at_5 ==> lines == seq!["Chunk not found"@] + chunks
            &&& r.recall_at_5 && g.refused ==> lines == seq!["Refusal"@]
            &&& r.recall_at_5 && !g.refused && !g.quote_match ==> lines == seq!["Quote failure"@]
                + quotes
            &&& r.recall_at_5 && !g.refused && g.quote_match && !r.recall_at_3 ==> lines == seq![
                "Recall@3 failed"@,
            ] + chunks
            &&& r.recall_at_5 && !g.refused && g.quote_match && r.recall_at_3 ==> lines == seq![
                "Recall@1 failed"@,
            ] + chunks
        }),
{
    lemma_dashed(example.expected_chunks@);
    lemma_dashed(example.expected_quotes@);
    let items = dashed(example.expected_quotes@);
    assert(seq!["Quote failure"@, "Expected quote(s):"@] + items == seq!["Quote failure"@] + (seq![
        "Expected quote(s):"@,
    ] + items));
}

/// What is reported of an answer: nothing if it ended in an error, or if everything was in the first
/// chunk and the answer quotes it and does not refuse. Otherwise the example, what went wrong and the
/// answer.
pub open spec fn answer_entry(e: FullEval) -> Seq<Seq<char>> {
    if e.outcome is Errored || (e.outcome->retrieval_metrics.recall_at_1
        && e.outcome->generation_metrics.quote_match && !e.outcome->generation_metrics.refused) {
        seq![]
    } else {
        seq!["ID: "@ + e.example.id@, "Question:\n"@ + e.example.question@] + report::fault(
            e.example,
            e.outcome->retrieval_metrics,
            e.outcome->generation_metrics,
        ) + seq!["Answer:\n"@ + e.outcome->answer.text@, ""@]
    }
}

proof fn lemma_all_wrong(evals: Seq<FullEval>)
    ensures
        report::all_wrong(evals) == evals.map_values(
            |e: FullEval| answer_entry(e),
        ).flatten_alt(),
    decreases evals.len(),
{
    if evals.len() > 0 {
        let parts = evals.map_values(|e: FullEval| answer_entry(e));
        let before = evals.drop_last();
        lemma_all_wrong(before);
        assert(parts.drop_last() == before.map_values(|e: FullEval| answer_entry(e)));
        assert(report::wrong(evals.last()) == answer_entry(evals.last()));
    }
}

/// The report on answers has the entries of all examples in order, under a heading if any answer was
/// wrong.
pub proof fn law_failure_report(evaluation: FullEvaluation)
    ensures
        ({
            let entries = evaluation.evals@.map_values(|e: FullEval| answer_entry(e)).flatten_alt();
            let lines = report::failure_report(evaluation);
            if report::below_one(evaluation.retrieval_ratios.recall_at_1) || report::below_one(
                evaluation.generation_ratios.quote,
            ) || report::above_zero(evaluation.generation_ratios.refusal) {
                lines == seq!["\nWrong answers:\n"@] + entries
            } else {
                lines == entries
            }
        }),
{
    lemma_all_wrong(evaluation.evals@);
    let entries = report::all_wrong(evaluation.evals@);
    assert(Seq::<Seq<char>>::empty() + entries == entries);
}

} // verus!
