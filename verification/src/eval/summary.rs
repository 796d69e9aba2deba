//! What is measured of all examples together.

use crate::eval::metrics;
use crate::eval::metrics::{GenerationMetrics, Ratio, RetrievalMetrics, RoutingMetrics};
use crate::eval::stats;
use vstd::prelude::*;

verus! {

/// How well questions were routed. A false positive is a game that was named although it is not the
/// expected one.
#[derive(Debug, Clone, Copy, PartialEq, Eq, Structural)]
pub struct RoutingRatios {
    pub accuracy: Ratio,
    pub false_positive_rate: Ratio,
    pub elapsed_millis_p50: u64,
    pub elapsed_millis_p95: u64,
}

/// How well passages were retrieved. The mean reciprocal rank is the sum of `reciprocal_ranks` over
/// their number.
#[derive(Debug)]
pub struct RetrievalRatios {
    pub recall_at_1: Ratio,
    pub recall_at_3: Ratio,
    pub recall_at_5: Ratio,
    pub recall_at_10: Ratio,
    pub perfect_coverage: Ratio,
    pub reciprocal_ranks: Vec<Ratio>,
    pub elapsed_millis_p50: u64,
    pub elapsed_millis_p95: u64,
}

/// How well questions were answered.
#[derive(Debug, Clone, Copy, PartialEq, Eq, Structural)]
pub struct GenerationRatios {
    pub quote: Ratio,
    pub refusal: Ratio,
    pub total_elapsed_millis_p50: u64,
    pub total_elapsed_millis_p95: u64,
    pub input_tokens_p50: usize,
    pub input_tokens_p95: usize,
    pub output_tokens_p50: usize,
    pub output_tokens_p95: usize,
}

/// Whether a fraction is the part of a list that has a property.
pub open spec fn is_share<T>(r: Ratio, list: Seq<T>, p: spec_fn(T) -> bool) -> bool {
    r.numerator == stats::count_if(list, p) && r.denominator == list.len()
}

/// The correct routings.
pub open spec fn correct() -> spec_fn(RoutingMetrics) -> bool {
    |m: RoutingMetrics| m.correct
}

/// The routings that named a game other than the expected one.
pub open spec fn false_positive() -> spec_fn(RoutingMetrics) -> bool {
    |m: RoutingMetrics| !m.correct && m.classified is Some
}

/// The times that routings took.
pub open spec fn routing_times(list: Seq<RoutingMetrics>) -> Seq<u64> {
    list.map_values(|m: RoutingMetrics| m.elapsed_millis)
}

/// Whether ratios summarise routings.
pub open spec fn summarises_routing(r: RoutingRatios, list: Seq<RoutingMetrics>) -> bool {
    &&& is_share(r.accuracy, list, correct())
    &&& is_share(r.false_positive_rate, list, false_positive())
    &&& r.elapsed_millis_p50 == stats::p50(routing_times(list))
    &&& r.elapsed_millis_p95 == stats::p95(routing_times(list))
}

/// Sums up routings.
pub fn summarize_routing(metrics: &Vec<RoutingMetrics>) -> (res: RoutingRatios)
    ensures
        summarises_routing(res, metrics@),
{
    let ghost all = metrics@;
    let total: usize = metrics.len();
    let mut right: usize = 0;
    let mut wrong_game: usize = 0;
    let mut times: Vec<u64> = Vec::new();
    let mut i: usize = 0;
    assert(all.take(0).len() == 0);
    assert(times@ == routing_times(all.take(0)));
    while i < total
        invariant
            all == metrics@,
            total == metrics@.len(),
            i <= total,
            right == stats::count_if(all.take(i as int), correct()),
            wrong_game == stats::count_if(all.take(i as int), false_positive()),
            right <= i,
            wrong_game <= i,
            times@ == routing_times(all.take(i as int)),
        decreases total - i,
    {
        let m = &metrics[i];
        proof {
            assert(all.take(i + 1).drop_last() == all.take(i as int));
            assert(all.take(i + 1).last() == *m);
            assert(routing_times(all.take(i + 1)) == routing_times(all.take(i as int)).push(
                m.elapsed_millis,
            ));
        }
        if m.correct {
            right = right + 1;
        } else if m.classified.is_some() {
            wrong_game = wrong_game + 1;
        }
        times.push(m.elapsed_millis);
        i = i + 1;
    }
    assert(all.take(i as int) == all);
    let (elapsed_millis_p50, elapsed_millis_p95) = stats::percentiles(times);
    RoutingRatios {
        accuracy: Ratio { numerator: right, denominator: total },
        false_positive_rate: Ratio { numerator: wrong_game, denominator: total },
        elapsed_millis_p50,
        elapsed_millis_p95,
    }
}

/// The retrievals that found all passages in the first chunk.
pub open spec fn recalled_at_1() -> spec_fn(RetrievalMetrics) -> bool {
    |m: RetrievalMetrics| m.recall_at_1
}

/// The retrievals that found all passages in the first three chunks.
pub open spec fn recalled_at_3() -> spec_fn(RetrievalMetrics) -> bool {
    |m: RetrievalMetrics| m.recall_at_3
}

/// The retrievals that found all passages in the first five chunks.
pub open spec fn recalled_at_5() -> spec_fn(RetrievalMetrics) -> bool {
    |m: RetrievalMetrics| m.recall_at_5
}

/// The retrievals that found all passages in the first ten chunks.
pub open spec fn recalled_at_10() -> spec_fn(RetrievalMetrics) -> bool {
    |m: RetrievalMetrics| m.recall_at_10
}

/// The retrievals that reached the best rank their passages allow.
pub open spec fn covered_perfectly() -> spec_fn(RetrievalMetrics) -> bool {
    |m: RetrievalMetrics| m.perfect_coverage
}

/// The times that retrievals took.
pub open spec fn retrieval_times(list: Seq<RetrievalMetrics>) -> Seq<u64> {
    list.map_values(|m: RetrievalMetrics| m.elapsed_millis)
}

/// The reciprocal ranks of retrievals.
pub open spec fn ranks(list: Seq<RetrievalMetrics>) -> Seq<Ratio> {
    list.map_values(|m: RetrievalMetrics| m.mrr)
}

/// Whether ratios summarise retrievals.
pub open spec fn summarises_retrieval(r: RetrievalRatios, list: Seq<RetrievalMetrics>) -> bool {
    &&& is_share(r.recall_at_1, list, recalled_at_1())
    &&& is_share(r.recall_at_3, list, recalled_at_3())
    &&& is_share(r.recall_at_5, list, recalled_at_5())
    &&& is_share(r.recall_at_10, list, recalled_at_10())
    &&& is_share(r.perfect_coverage, list, covered_perfectly())
    &&& r.reciprocal_ranks@ == ranks(list)
    &&& r.elapsed_millis_p50 == stats::p50(retrieval_times(list))
    &&& r.elapsed_millis_p95 == stats::p95(retrieval_times(list))
}

/// Sums up retrievals.
pub fn summarize_retrieval(metrics: &Vec<RetrievalMetrics>) -> (res: RetrievalRatios)
    ensures
        summarises_retrieval(res, metrics@),
{
    let ghost all = metrics@;
    let total: usize = metrics.len();
    let mut at_1: usize = 0;
    let mut at_3: usize = 0;
    let mut at_5: usize = 0;
    let mut at_10: usize = 0;
    let mut perfect: usize = 0;
    let mut reciprocal_ranks: Vec<Ratio> = Vec::new();
    let mut times: Vec<u64> = Vec::new();
    let mut i: usize = 0;
    assert(all.take(0).len() == 0);
    assert(times@ == retrieval_times(all.take(0)));
    assert(reciprocal_ranks@ == ranks(all.take(0)));
    while i < total
        invariant
            all == metrics@,
            total == metrics@.len(),
            i <= total,
            at_1 == stats::count_if(all.take(i as int), recalled_at_1()),
            at_3 == stats::count_if(all.take(i as int), recalled_at_3()),
            at_5 == stats::count_if(all.take(i as int), recalled_at_5()),
            at_10 == stats::count_if(all.take(i as int), recalled_at_10()),
            perfect == stats::count_if(all.take(i as int), covered_perfectly()),
            at_1 <= i,
            at_3 <= i,
            at_5 <= i,
            at_10 <= i,
            perfect <= i,
            reciprocal_ranks@ == ranks(all.take(i as int)),
            times@ == retrieval_times(all.take(i as int)),
        decreases total - i,
    {
        let m = metrics[i];
        proof {
            assert(all.take(i + 1).drop_last() == all.take(i as int));
            assert(all.take(i + 1).last() == m);
            assert(retrieval_times(all.take(i + 1)) == retrieval_times(all.take(i as int)).push(
                m.elapsed_millis,
            ));
            assert(ranks(all.take(i + 1)) == ranks(all.take(i as int)).push(m.mrr));
        }
        if m.recall_at_1 {
            at_1 = at_1 + 1;
        }
        if m.recall_at_3 {
            at_3 = at_3 + 1;
        }
        if m.recall_at_5 {
            at_5 = at_5 + 1;
        }
        if m.recall_at_10 {
            at_10 = at_10 + 1;
        }
        if m.perfect_coverage {
            perfect = perfect + 1;
        }
        reciprocal_ranks.push(m.mrr);
        times.push(m.elapsed_millis);
        i = i + 1;
    }
    assert(all.take(i as int) == all);
    let (elapsed_millis_p50, elapsed_millis_p95) = stats::percentiles(times);
    RetrievalRatios {
        recall_at_1: Ratio { numerator: at_1, denominator: total },
        recall_at_3: Ratio { numerator: at_3, denominator: total },
        recall_at_5: Ratio { numerator: at_5, denominator: total },
        recall_at_10: Ratio { numerator: at_10, denominator: total },
        perfect_coverage: Ratio { numerator: perfect, denominator: total },
        reciprocal_ranks,
        elapsed_millis_p50,
        elapsed_millis_p95,
    }
}

/// The answers that quote all expected passages.
pub open spec fn quoted() -> spec_fn(GenerationMetrics) -> bool {
    |m: GenerationMetrics| m.quote_match
}

/// The answers that refuse.
pub open spec fn refusing() -> spec_fn(GenerationMetrics) -> bool {
    |m: GenerationMetrics| m.refused
}

/// The times that answers took from the start.
pub open spec fn total_times(list: Seq<GenerationMetrics>) -> Seq<u64> {
    list.map_values(|m: GenerationMetrics| m.total_elapsed_millis)
}

/// The tokens that went in.
pub open spec fn inputs(list: Seq<GenerationMetrics>) -> Seq<u64> {
    list.map_values(|m: GenerationMetrics| m.input_tokens as u64)
}

/// The tokens that came out.
pub open spec fn outputs(list: Seq<GenerationMetrics>) -> Seq<u64> {
    list.map_values(|m: GenerationMetrics| m.output_tokens as u64)
}

/// Whether ratios summarise answers.
pub open spec fn summarises_generation(r: GenerationRatios, list: Seq<GenerationMetrics>) -> bool {
    &&& is_share(r.quote, list, quoted())
    &&& is_share(r.refusal, list, refusing())
    &&& r.total_elapsed_millis_p50 == stats::p50(total_times(list))
    &&& r.total_elapsed_millis_p95 == stats::p95(total_times(list))
    &&& r.input_tokens_p50 == stats::p50(inputs(list))
    &&& r.input_tokens_p95 == stats::p95(inputs(list))
    &&& r.output_tokens_p50 == stats::p50(outputs(list))
    &&& r.output_tokens_p95 == stats::p95(outputs(list))
}

/// The percentiles of numbers that all fit a `usize`.
fn size_percentiles(values: Vec<u64>) -> (res: (usize, usize))
    requires
        forall|i: int| 0 <= i < values@.len() ==> #[trigger] values@[i] <= usize::MAX,
    ensures
        res.0 == stats::p50(values@),
        res.1 == stats::p95(values@),
{
    let ghost all = values@;
    let (a, b) = stats::percentiles(values);
    proof {
        if all.len() > 0 {
            let i = choose|i: int| 0 <= i < all.len() && all[i] == a;
            let j = choose|j: int| 0 <= j < all.len() && all[j] == b;
            assert(all[i] <= usize::MAX);
            assert(all[j] <= usize::MAX);
        }
    }
    (a as usize, b as usize)
}

/// Sums up answers.
pub fn summarize_generation(metrics: &Vec<GenerationMetrics>) -> (res: GenerationRatios)
    ensures
        summarises_generation(res, metrics@),
{
    let ghost all = metrics@;
    let total: usize = metrics.len();
    let mut quotes: usize = 0;
    let mut refusals: usize = 0;
    let mut times: Vec<u64> = Vec::new();
    let mut tokens_in: Vec<u64> = Vec::new();
    let mut tokens_out: Vec<u64> = Vec::new();
    let mut i: usize = 0;
    assert(all.take(0).len() == 0);
    assert(times@ == total_times(all.take(0)));
    assert(tokens_in@ == inputs(all.take(0)));
    assert(tokens_out@ == outputs(all.take(0)));
    while i < total
        invariant
            all == metrics@,
            total == metrics@.len(),
            i <= total,
            quotes == stats::count_if(all.take(i as int), quoted()),
            refusals == stats::count_if(all.take(i as int), refusing()),
            quotes <= i,
            refusals <= i,
            times@ == total_times(all.take(i as int)),
            tokens_in@ == inputs(all.take(i as int)),
            tokens_out@ == outputs(all.take(i as int)),
            forall|j: int| 0 <= j < tokens_in@.len() ==> #[trigger] tokens_in@[j] <= usize::MAX,
            forall|j: int| 0 <= j < tokens_out@.len() ==> #[trigger] tokens_out@[j] <= usize::MAX,
        decreases total - i,
    {
        let m = metrics[i];
        proof {
            assert(all.take(i + 1).drop_last() == all.take(i as int));
            assert(all.take(i + 1).last() == m);
            assert(total_times(all.take(i + 1)) == total_times(all.take(i as int)).push(
                m.total_elapsed_millis,
            ));
            assert(inputs(all.take(i + 1)) == inputs(all.take(i as int)).push(m.input_tokens as u64));
            assert(outputs(all.take(i + 1)) == outputs(all.take(i as int)).push(
                m.output_tokens as u64,
            ));
        }
        if m.quote_match {
            quotes = quotes + 1;
        }
        if m.refused {
            refusals = refusals + 1;
        }
        times.push(m.total_elapsed_millis);
        tokens_in.push(m.input_tokens as u64);
        tokens_out.push(m.output_tokens as u64);
        i = i + 1;
    }
    assert(all.take(i as int) == all);
    let (total_elapsed_millis_p50, total_elapsed_millis_p95) = stats::percentiles(times);
    let (input_tokens_p50, input_tokens_p95) = size_percentiles(tokens_in);
    let (output_tokens_p50, output_tokens_p95) = size_percentiles(tokens_out);
    GenerationRatios {
        quote: Ratio { numerator: quotes, denominator: total },
        refusal: Ratio { numerator: refusals, denominator: total },
        total_elapsed_millis_p50,
        total_elapsed_millis_p95,
        input_tokens_p50,
        input_tokens_p95,
        output_tokens_p50,
        output_tokens_p95,
    }
}

/// No share passes one, and a routing is never both correct and a false positive.
pub proof fn law_routing_shares(r: RoutingRatios, list: Seq<RoutingMetrics>)
    requires
        summarises_routing(r, list),
    ensures
        r.accuracy.numerator + r.false_positive_rate.numerator <= list.len(),
        r.elapsed_millis_p50 <= r.elapsed_millis_p95,
{
    lemma_disjoint_counts(list);
    stats::law_percentiles_in_order(routing_times(list));
}

proof fn lemma_disjoint_counts(list: Seq<RoutingMetrics>)
    ensures
        stats::count_if(list, correct()) + stats::count_if(list, false_positive()) <= list.len(),
    decreases list.len(),
{
    if list.len() > 0 {
        lemma_disjoint_counts(list.drop_last());
    }
}

/// Recall grows with depth for retrievals that are measured by their coverage, and no share passes
/// one.
pub proof fn law_retrieval_shares(r: RetrievalRatios, list: Seq<RetrievalMetrics>)
    requires
        summarises_retrieval(r, list),
        forall|i: int| 0 <= i < list.len() ==> metrics::recall_nested(#[trigger] list[i]),
    ensures
        r.recall_at_1.numerator <= r.recall_at_3.numerator,
        r.recall_at_3.numerator <= r.recall_at_5.numerator,
        r.recall_at_5.numerator <= r.recall_at_10.numerator,
        r.recall_at_10.numerator <= r.recall_at_10.denominator,
        r.perfect_coverage.numerator <= r.perfect_coverage.denominator,
        r.elapsed_millis_p50 <= r.elapsed_millis_p95,
{
    stats::lemma_count_monotone(list, recalled_at_1(), recalled_at_3());
    stats::lemma_count_monotone(list, recalled_at_3(), recalled_at_5());
    stats::lemma_count_monotone(list, recalled_at_5(), recalled_at_10());
    stats::lemma_count_bound(list, recalled_at_10());
    stats::lemma_count_bound(list, covered_perfectly());
    stats::law_percentiles_in_order(retrieval_times(list));
}

} // verus!
