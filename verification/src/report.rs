//! What an evaluation reports of the examples that went wrong. Each element of a report is printed
//! with a line feed behind it.

use crate::eval::examples;
use crate::eval::examples::{EvalExample, Passage};
use crate::eval::metrics::{GenerationMetrics, Ratio, RetrievalMetrics};
use crate::eval::outcome::{
    FullEval, FullEvaluation, FullOutcome, RetrievalEval, RetrievalEvaluation, RetrievalOutcome,
};
use crate::model;
use crate::model::{RetrievalResult, RetrievalResultView};
use crate::text;
use vstd::prelude::*;

verus! {

/// Whether a fraction is less than one.
pub open spec fn below_one(r: Ratio) -> bool {
    r.denominator == 0 || r.numerator < r.denominator
}

/// Whether a fraction is more than zero.
pub open spec fn above_zero(r: Ratio) -> bool {
    r.denominator > 0 && r.numerator > 0
}

/// Whether a fraction is less than one.
pub fn is_below_one(r: Ratio) -> (res: bool)
    ensures
        res == below_one(r),
{
    r.denominator == 0 || r.numerator < r.denominator
}

/// Whether a fraction is more than zero.
pub fn is_above_zero(r: Ratio) -> (res: bool)
    ensures
        res == above_zero(r),
{
    r.denominator > 0 && r.numerator > 0
}

/// `a` with `b` behind it.
fn pair(a: &str, b: &str) -> (res: String)
    ensures
        res@ == a@ + b@,
{
    let mut out = text::owned(a);
    out.append(b);
    out
}

/// Adds a line to a report.
fn add_line(out: &mut Vec<String>, line: String)
    ensures
        text::texts(final(out)@) == text::texts(old(out)@).push(line@),
{
    let ghost before = text::texts(out@);
    out.push(line);
    assert(text::texts(out@) == before.push(line@));
}

/// Adds lines to a report.
fn add_lines(out: &mut Vec<String>, lines: Vec<String>)
    ensures
        text::texts(final(out)@) == text::texts(old(out)@) + text::texts(lines@),
{
    let ghost before = text::texts(out@);
    let ghost added = text::texts(lines@);
    let mut rest = lines;
    out.append(&mut rest);
    assert(text::texts(out@) == before + added);
}

/// The phrasings of a passage as items.
pub open spec fn phrasing_items(phrasings: Seq<Seq<char>>) -> Seq<Seq<char>> {
    phrasings.map_values(|p: Seq<char>| "  - "@ + p)
}

/// The phrasings of passages as items.
pub open spec fn passage_items(passages: Seq<Seq<Seq<char>>>) -> Seq<Seq<char>>
    decreases passages.len(),
{
    if passages.len() == 0 {
        seq![]
    } else {
        passage_items(passages.drop_last()) + phrasing_items(passages.last())
    }
}

/// The phrasings of a passage as items.
fn items_of(passage: &Passage) -> (res: Vec<String>)
    ensures
        text::texts(res@) == phrasing_items(passage@),
{
    let phrasings = passage.phrasings();
    let ghost all = phrasing_items(passage@);
    let mut out: Vec<String> = Vec::new();
    let mut i: usize = 0;
    assert(text::texts(out@) == all.take(0));
    while i < phrasings.len()
        invariant
            text::texts(phrasings@) == passage@,
            all == phrasing_items(passage@),
            all.len() == phrasings@.len(),
            i <= phrasings@.len(),
            text::texts(out@) == all.take(i as int),
        decreases phrasings@.len() - i,
    {
        assert(passage@[i as int] == phrasings@[i as int]@);
        assert(all.take(i + 1) == all.take(i as int).push(all[i as int]));
        add_line(&mut out, pair("  - ", phrasings[i].as_str()));
        i = i + 1;
    }
    assert(all.take(i as int) == all);
    out
}

/// The phrasings of passages as items.
fn all_items(passages: &Vec<Passage>) -> (res: Vec<String>)
    ensures
        text::texts(res@) == passage_items(examples::passage_views(passages@)),
{
    let ghost all = examples::passage_views(passages@);
    let mut out: Vec<String> = Vec::new();
    let mut i: usize = 0;
    assert(all.take(0).len() == 0);
    assert(text::texts(out@) == Seq::<Seq<char>>::empty());
    while i < passages.len()
        invariant
            all == examples::passage_views(passages@),
            i <= passages@.len(),
            text::texts(out@) == passage_items(all.take(i as int)),
        decreases passages@.len() - i,
    {
        proof {
            assert(all.take(i + 1).drop_last() == all.take(i as int));
            assert(all.take(i + 1).last() == passages@[i as int]@);
        }
        add_lines(&mut out, items_of(&passages[i]));
        i = i + 1;
    }
    assert(all.take(i as int) == all);
    out
}

/// The chunks that were expected.
pub open spec fn expected_chunks(example: EvalExample) -> Seq<Seq<char>> {
    seq!["Expected chunk(s):"@] + passage_items(examples::passage_views(example.expected_chunks@))
}

/// The chunks that were expected.
fn expected_chunk_lines(example: &EvalExample) -> (res: Vec<String>)
    ensures
        text::texts(res@) == expected_chunks(*example),
{
    let mut out: Vec<String> = Vec::new();
    assert(text::texts(out@) == Seq::<Seq<char>>::empty());
    add_line(&mut out, text::owned("Expected chunk(s):"));
    assert(text::texts(out@) == seq!["Expected chunk(s):"@]);
    add_lines(&mut out, all_items(&example.expected_chunks));
    out
}

/// Id and question of an example.
pub open spec fn example_head(example: EvalExample) -> Seq<Seq<char>> {
    seq!["ID: "@ + example.id@, "Question:\n"@ + example.question@]
}

/// Id and question of an example.
fn example_head_lines(example: &EvalExample) -> (res: Vec<String>)
    ensures
        text::texts(res@) == example_head(*example),
{
    let mut out: Vec<String> = Vec::new();
    add_line(&mut out, pair("ID: ", example.id.as_str()));
    add_line(&mut out, pair("Question:\n", example.question.as_str()));
    assert(text::texts(out@) == example_head(*example));
    out
}

/// The depth at which a retrieval that missed the first chunk failed.
pub open spec fn depth_line(m: RetrievalMetrics) -> Seq<char> {
    if !m.recall_at_10 {
        "Chunk(s) failed Recall@10"@
    } else if !m.recall_at_5 {
        "Chunk(s) passed Recall@10 but failed Recall@5"@
    } else if !m.recall_at_3 {
        "Chunk(s) passed Recall@5 but failed Recall@3"@
    } else {
        "Chunk(s) passed Recall@3 but failed Recall@1"@
    }
}

/// A retrieved chunk that did not complete the passages.
pub open spec fn failed_chunk(r: RetrievalResultView) -> Seq<char> {
    "Failed chunk "@ + r.chunk.id + ":\n"@ + text::trimmed_end(
        text::trimmed_start(text::replaced(r.chunk.text, "\n\n"@, "\n"@)),
    ) + "\n"@
}

/// The retrieved chunks before the one that completed the passages, or all of them if none did.
pub open spec fn chunks_before(retrieval: Seq<RetrievalResultView>, found_at: int) -> Seq<
    RetrievalResultView,
> {
    if found_at > 0 && found_at - 1 < retrieval.len() {
        retrieval.take(found_at - 1)
    } else {
        retrieval
    }
}

/// The chunks that did not complete the passages.
pub open spec fn failed_chunks(retrieval: Seq<RetrievalResultView>, found_at: int) -> Seq<Seq<char>> {
    seq!["Actual failed chunks:\n"@] + chunks_before(retrieval, found_at).map_values(
        |r: RetrievalResultView| failed_chunk(r),
    )
}

/// A retrieved chunk that did not complete the passages.
fn failed_chunk_line(r: &RetrievalResult) -> (res: String)
    ensures
        res@ == failed_chunk(r@),
{
    proof {
        reveal_strlit("\n\n");
    }
    let mut out = pair("Failed chunk ", r.chunk.id.as_str());
    out.append(":\n");
    let tight = text::replace_all(r.chunk.text.as_str(), "\n\n", "\n");
    let bare = text::trim(tight.as_str());
    out.append(bare.as_str());
    out.append("\n");
    out
}

/// The chunks that did not complete the passages.
fn failed_chunk_lines(retrieval: &Vec<RetrievalResult>, found_at: usize) -> (res: Vec<String>)
    ensures
        text::texts(res@) == failed_chunks(model::result_views(retrieval@), found_at as int),
{
    let ghost shown = chunks_before(model::result_views(retrieval@), found_at as int);
    let n: usize = if found_at > 0 && found_at - 1 < retrieval.len() {
        found_at - 1
    } else {
        retrieval.len()
    };
    let ghost all = failed_chunks(model::result_views(retrieval@), found_at as int);
    let mut out: Vec<String> = Vec::new();
    assert(text::texts(out@) == Seq::<Seq<char>>::empty());
    add_line(&mut out, text::owned("Actual failed chunks:\n"));
    let mut i: usize = 0;
    assert(text::texts(out@) == all.take(1));
    while i < n
        invariant
            n <= retrieval@.len(),
            n == shown.len(),
            shown == chunks_before(model::result_views(retrieval@), found_at as int),
            all == failed_chunks(model::result_views(retrieval@), found_at as int),
            all.len() == n + 1,
            i <= n,
            text::texts(out@) == all.take(i + 1),
        decreases n - i,
    {
        proof {
            assert(shown[i as int] == retrieval@[i as int]@);
            assert(all[i + 1] == failed_chunk(shown[i as int]));
            assert(all.take(i + 2) == all.take(i + 1).push(all[i + 1]));
        }
        add_line(&mut out, failed_chunk_line(&retrieval[i]));
        i = i + 1;
    }
    assert(all.take(i + 1) == all);
    out
}

/// What is reported of a retrieval that missed the first chunk.
pub open spec fn missed(e: RetrievalEval, verbose: u8) -> Seq<Seq<char>> {
    match e.outcome {
        RetrievalOutcome::Success { retrieval, metrics, .. } => if metrics.recall_at_1 {
            seq![]
        } else {
            example_head(e.example) + seq![depth_line(metrics)] + expected_chunks(e.example) + (
            if verbose > 1 {
                failed_chunks(model::result_views(retrieval@), metrics.found_at as int)
            } else {
                seq![]
            }) + seq![""@]
        },
        RetrievalOutcome::Errored { .. } => seq![],
    }
}

/// What is reported of some retrievals.
pub open spec fn all_missed(evals: Seq<RetrievalEval>, verbose: u8) -> Seq<Seq<char>>
    decreases evals.len(),
{
    if evals.len() == 0 {
        seq![]
    } else {
        all_missed(evals.drop_last(), verbose) + missed(evals.last(), verbose)
    }
}

/// What is reported of an evaluation of retrievals: nothing unless asked for.
pub open spec fn retrieval_report(evaluation: RetrievalEvaluation, verbose: u8) -> Seq<Seq<char>> {
    if verbose == 0 {
        seq![]
    } else {
        (if below_one(evaluation.ratios.recall_at_1) {
            seq!["\nMissed Recall@1:\n"@]
        } else {
            seq![]
        }) + all_missed(evaluation.evals@, verbose)
    }
}

/// What is reported of a retrieval that missed the first chunk.
fn missed_lines(e: &RetrievalEval, verbose: u8) -> (res: Vec<String>)
    ensures
        text::texts(res@) == missed(*e, verbose),
{
    let mut out: Vec<String> = Vec::new();
    assert(text::texts(out@) == Seq::<Seq<char>>::empty());
    match &e.outcome {
        RetrievalOutcome::Success { retrieval, metrics, .. } => {
            if !metrics.recall_at_1 {
                add_lines(&mut out, example_head_lines(&e.example));
                assert(text::texts(out@) == example_head(e.example));
                let depth = if !metrics.recall_at_10 {
                    "Chunk(s) failed Recall@10"
                } else if !metrics.recall_at_5 {
                    "Chunk(s) passed Recall@10 but failed Recall@5"
                } else if !metrics.recall_at_3 {
                    "Chunk(s) passed Recall@5 but failed Recall@3"
                } else {
                    "Chunk(s) passed Recall@3 but failed Recall@1"
                };
                add_line(&mut out, text::owned(depth));
                let ghost so_far = example_head(e.example) + seq![depth_line(*metrics)];
                assert(text::texts(out@) == so_far);
                add_lines(&mut out, expected_chunk_lines(&e.example));
                if verbose > 1 {
                    add_lines(&mut out, failed_chunk_lines(retrieval, metrics.found_at));
                }
                add_line(&mut out, text::owned(""));
                assert(text::texts(out@) == missed(*e, verbose));
            }
        },
        RetrievalOutcome::Errored { .. } => {},
    }
    out
}

/// What is reported of an evaluation of retrievals.
pub fn report_retrieval(evaluation: &RetrievalEvaluation, verbose: u8) -> (res: Vec<String>)
    ensures
        text::texts(res@) == retrieval_report(*evaluation, verbose),
{
    let mut out: Vec<String> = Vec::new();
    assert(text::texts(out@) == Seq::<Seq<char>>::empty());
    if verbose == 0 {
        return out;
    }
    if is_below_one(evaluation.ratios.recall_at_1) {
        add_line(&mut out, text::owned("\nMissed Recall@1:\n"));
    }
    let ghost head = text::texts(out@);
    let ghost all = evaluation.evals@;
    let mut i: usize = 0;
    assert(all.take(0).len() == 0);
    assert(head + all_missed(all.take(0), verbose) == head);
    while i < evaluation.evals.len()
        invariant
            all == evaluation.evals@,
            i <= evaluation.evals@.len(),
            text::texts(out@) == head + all_missed(all.take(i as int), verbose),
        decreases evaluation.evals@.len() - i,
    {
        proof {
            assert(all.take(i + 1).drop_last() == all.take(i as int));
            assert(all.take(i + 1).last() == all[i as int]);
        }
        add_lines(&mut out, missed_lines(&evaluation.evals[i], verbose));
        assert(text::texts(out@) == head + all_missed(all.take(i + 1), verbose));
        i = i + 1;
    }
    assert(all.take(i as int) == all);
    assert(text::texts(out@) == retrieval_report(*evaluation, verbose));
    out
}

/// What went wrong with an answer.
pub open spec fn fault(example: EvalExample, r: RetrievalMetrics, g: GenerationMetrics) -> Seq<
    Seq<char>,
> {
    if !r.recall_at_5 {
        seq!["Chunk not found"@] + expected_chunks(example)
    } else if g.refused {
        seq!["Refusal"@]
    } else if !g.quote_match {
        seq!["Quote failure"@, "Expected quote(s):"@] + passage_items(
            examples::passage_views(example.expected_quotes@),
        )
    } else if r.recall_at_3 {
        seq!["Recall@1 failed"@] + expected_chunks(example)
    } else {
        seq!["Recall@3 failed"@] + expected_chunks(example)
    }
}

/// What is reported of an answer that went wrong.
pub open spec fn wrong(e: FullEval) -> Seq<Seq<char>> {
    match e.outcome {
        FullOutcome::Success { answer, retrieval_metrics, generation_metrics, .. } => if retrieval_metrics.recall_at_1
            && generation_metrics.quote_match && !generation_metrics.refused {
            seq![]
        } else {
            example_head(e.example) + fault(e.example, retrieval_metrics, generation_metrics)
                + seq!["Answer:\n"@ + answer.text@, ""@]
        },
        FullOutcome::Errored { .. } => seq![],
    }
}

/// What is reported of some answers.
pub open spec fn all_wrong(evals: Seq<FullEval>) -> Seq<Seq<char>>
    decreases evals.len(),
{
    if evals.len() == 0 {
        seq![]
    } else {
        all_wrong(evals.drop_last()) + wrong(evals.last())
    }
}

/// Whether an evaluation of answers has anything to report.
pub open spec fn any_failures(evaluation: FullEvaluation) -> bool {
    below_one(evaluation.retrieval_ratios.recall_at_1) || below_one(
        evaluation.generation_ratios.quote,
    ) || above_zero(evaluation.generation_ratios.refusal)
}

/// What is reported of an evaluation of answers.
pub open spec fn failure_report(evaluation: FullEvaluation) -> Seq<Seq<char>> {
    (if any_failures(evaluation) {
        seq!["\nWrong answers:\n"@]
    } else {
        seq![]
    }) + all_wrong(evaluation.evals@)
}

/// What went wrong with an answer.
fn fault_lines(example: &EvalExample, r: &RetrievalMetrics, g: &GenerationMetrics) -> (res: Vec<
    String,
>)
    ensures
        text::texts(res@) == fault(*example, *r, *g),
{
    let mut out: Vec<String> = Vec::new();
    assert(text::texts(out@) == Seq::<Seq<char>>::empty());
    if !r.recall_at_5 {
        add_line(&mut out, text::owned("Chunk not found"));
        assert(text::texts(out@) == seq!["Chunk not found"@]);
        add_lines(&mut out, expected_chunk_lines(example));
    } else if g.refused {
        add_line(&mut out, text::owned("Refusal"));
        assert(text::texts(out@) == seq!["Refusal"@]);
    } else if !g.quote_match {
        add_line(&mut out, text::owned("Quote failure"));
        add_line(&mut out, text::owned("Expected quote(s):"));
        assert(text::texts(out@) == seq!["Quote failure"@, "Expected quote(s):"@]);
        add_lines(&mut out, all_items(&example.expected_quotes));
    } else if r.recall_at_3 {
        add_line(&mut out, text::owned("Recall@1 failed"));
        assert(text::texts(out@) == seq!["Recall@1 failed"@]);
        add_lines(&mut out, expected_chunk_lines(example));
    } else {
        add_line(&mut out, text::owned("Recall@3 failed"));
        assert(text::texts(out@) == seq!["Recall@3 failed"@]);
        add_lines(&mut out, expected_chunk_lines(example));
    }
    out
}

/// What is reported of an answer that went wrong.
fn wrong_lines(e: &FullEval) -> (res: Vec<String>)
    ensures
        text::texts(res@) == wrong(*e),
{
    let mut out: Vec<String> = Vec::new();
    assert(text::texts(out@) == Seq::<Seq<char>>::empty());
    match &e.outcome {
        FullOutcome::Success { answer, retrieval_metrics, generation_metrics, .. } => {
            if !retrieval_metrics.recall_at_1 || !generation_metrics.quote_match
                || generation_metrics.refused {
                add_lines(&mut out, example_head_lines(&e.example));
                assert(text::texts(out@) == example_head(e.example));
                add_lines(&mut out, fault_lines(&e.example, retrieval_metrics, generation_metrics));
                add_line(&mut out, pair("Answer:\n", answer.text.as_str()));
                add_line(&mut out, text::owned(""));
                assert(text::texts(out@) == wrong(*e));
            }
        },
        FullOutcome::Errored { .. } => {},
    }
    out
}

/// What is reported of an evaluation of answers.
pub fn report_failures(evaluation: &FullEvaluation) -> (res: Vec<String>)
    ensures
        text::texts(res@) == failure_report(*evaluation),
{
    let mut out: Vec<String> = Vec::new();
    assert(text::texts(out@) == Seq::<Seq<char>>::empty());
    if is_below_one(evaluation.retrieval_ratios.recall_at_1) || is_below_one(
        evaluation.generation_ratios.quote,
    ) || is_above_zero(evaluation.generation_ratios.refusal) {
        add_line(&mut out, text::owned("\nWrong answers:\n"));
    }
    let ghost head = text::texts(out@);
    let ghost all = evaluation.evals@;
    let mut i: usize = 0;
    assert(all.take(0).len() == 0);
    assert(head + all_wrong(all.take(0)) == head);
    while i < evaluation.evals.len()
        invariant
            all == evaluation.evals@,
            i <= evaluation.evals@.len(),
            text::texts(out@) == head + all_wrong(all.take(i as int)),
        decreases evaluation.evals@.len() - i,
    {
        proof {
            assert(all.take(i + 1).drop_last() == all.take(i as int));
            assert(all.take(i + 1).last() == all[i as int]);
        }
        add_lines(&mut out, wrong_lines(&evaluation.evals[i]));
        assert(text::texts(out@) == head + all_wrong(all.take(i + 1)));
        i = i + 1;
    }
    assert(all.take(i as int) == all);
    assert(text::texts(out@) == failure_report(*evaluation));
    out
}

} // verus!
