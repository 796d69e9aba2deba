//! What came of the examples of an evaluation.

use crate::eval::examples::EvalExample;
use crate::eval::metrics::{GenerationMetrics, RetrievalMetrics, RoutingMetrics};
use crate::eval::summary;
use crate::eval::summary::{GenerationRatios, RetrievalRatios, RoutingRatios};
use crate::model::{Answer, RetrievalResult};
use crate::sorting;
use crate::sorting::Ranked;
use crate::text;
use vstd::prelude::*;

verus! {

/// How the game that a retrieval is limited to is found.
#[derive(Debug, Clone, Copy, PartialEq, Eq, Structural)]
pub enum FilterMode {
    /// By asking the classifier.
    Classifier,
    /// From the example.
    Oracle,
    /// Not at all.
    Unfiltered,
}

/// What came of an example that was answered.
#[derive(Debug)]
pub enum FullOutcome {
    Success {
        answer: Answer,
        routing_metrics: RoutingMetrics,
        retrieval_metrics: RetrievalMetrics,
        generation_metrics: GenerationMetrics,
    },
    Errored { error: Vec<String> },
}

/// The metrics of an outcome.
pub struct MetricsRef<'a> {
    pub routing_metrics: &'a RoutingMetrics,
    pub retr_metrics: &'a RetrievalMetrics,
    pub gen_metrics: &'a GenerationMetrics,
}

impl FullOutcome {
    /// The metrics, unless the example ended in an error.
    pub fn metrics(&self) -> (res: Option<MetricsRef<'_>>)
        ensures
            match *self {
                FullOutcome::Success { routing_metrics, retrieval_metrics, generation_metrics, .. } => {
                    &&& res is Some
                    &&& *res.unwrap().routing_metrics == routing_metrics
                    &&& *res.unwrap().retr_metrics == retrieval_metrics
                    &&& *res.unwrap().gen_metrics == generation_metrics
                },
                FullOutcome::Errored { .. } => res is None,
            },
    {
        match self {
            FullOutcome::Success { routing_metrics, retrieval_metrics, generation_metrics, .. } => Some(
                MetricsRef {
                    routing_metrics,
                    retr_metrics: retrieval_metrics,
                    gen_metrics: generation_metrics,
                },
            ),
            FullOutcome::Errored { .. } => None,
        }
    }
}

/// What came of an example that was only retrieved for.
#[derive(Debug)]
pub enum RetrievalOutcome {
    Success {
        routing_metrics: RoutingMetrics,
        retrieval: Vec<RetrievalResult>,
        metrics: RetrievalMetrics,
    },
    Errored { error: Vec<String> },
}

impl RetrievalOutcome {
    /// The metrics of the retrieval, unless the example ended in an error.
    pub fn metrics(&self) -> (res: Option<&RetrievalMetrics>)
        ensures
            match *self {
                RetrievalOutcome::Success { metrics, .. } => res is Some && *res.unwrap() == metrics,
                RetrievalOutcome::Errored { .. } => res is None,
            },
    {
        match self {
            RetrievalOutcome::Success { metrics, .. } => Some(metrics),
            RetrievalOutcome::Errored { .. } => None,
        }
    }

    /// The metrics of the routing, unless the example ended in an error.
    pub fn routing_metrics(&self) -> (res: Option<&RoutingMetrics>)
        ensures
            match *self {
                RetrievalOutcome::Success { routing_metrics, .. } => res is Some && *res.unwrap()
                    == routing_metrics,
                RetrievalOutcome::Errored { .. } => res is None,
            },
    {
        match self {
            RetrievalOutcome::Success { routing_metrics, .. } => Some(routing_metrics),
            RetrievalOutcome::Errored { .. } => None,
        }
    }
}

/// An example with what came of it.
#[derive(Debug)]
pub struct FullEval {
    pub example: EvalExample,
    pub outcome: FullOutcome,
}

/// An example with what came of its retrieval.
#[derive(Debug)]
pub struct RetrievalEval {
    pub example: EvalExample,
    pub outcome: RetrievalOutcome,
}

impl Ranked for FullEval {
    open spec fn may_precede(self, other: FullEval) -> bool {
        text::text_le(self.example.id@, other.example.id@)
    }

    proof fn lemma_total(a: FullEval, b: FullEval) {
        text::lemma_text_le_total(a.example.id@, b.example.id@);
    }

    proof fn lemma_transitive(a: FullEval, b: FullEval, c: FullEval) {
        text::lemma_text_le_transitive(a.example.id@, b.example.id@, c.example.id@);
    }

    fn precedes(&self, other: &FullEval) -> (res: bool) {
        text::is_text_le(self.example.id.as_str(), other.example.id.as_str())
    }
}

impl Ranked for RetrievalEval {
    open spec fn may_precede(self, other: RetrievalEval) -> bool {
        text::text_le(self.example.id@, other.example.id@)
    }

    proof fn lemma_total(a: RetrievalEval, b: RetrievalEval) {
        text::lemma_text_le_total(a.example.id@, b.example.id@);
    }

    proof fn lemma_transitive(a: RetrievalEval, b: RetrievalEval, c: RetrievalEval) {
        text::lemma_text_le_transitive(a.example.id@, b.example.id@, c.example.id@);
    }

    fn precedes(&self, other: &RetrievalEval) -> (res: bool) {
        text::is_text_le(self.example.id.as_str(), other.example.id.as_str())
    }
}

/// All answered examples with their summaries.
#[derive(Debug)]
pub struct FullEvaluation {
    pub evals: Vec<FullEval>,
    pub routing_ratios: Option<RoutingRatios>,
    pub retrieval_ratios: RetrievalRatios,
    pub generation_ratios: GenerationRatios,
}

/// All retrieved examples with their summaries.
#[derive(Debug)]
pub struct RetrievalEvaluation {
    pub evals: Vec<RetrievalEval>,
    pub routing_ratios: Option<RoutingRatios>,
    pub ratios: RetrievalRatios,
}

/// The routing metrics of the answered examples, errors left out.
pub open spec fn full_routing(evals: Seq<FullEval>) -> Seq<RoutingMetrics>
    decreases evals.len(),
{
    if evals.len() == 0 {
        seq![]
    } else {
        match evals.last().outcome {
            FullOutcome::Success { routing_metrics, .. } => full_routing(evals.drop_last()).push(
                routing_metrics,
            ),
            FullOutcome::Errored { .. } => full_routing(evals.drop_last()),
        }
    }
}

/// The retrieval metrics of the answered examples, errors left out.
pub open spec fn full_retrieval(evals: Seq<FullEval>) -> Seq<RetrievalMetrics>
    decreases evals.len(),
{
    if evals.len() == 0 {
        seq![]
    } else {
        match evals.last().outcome {
            FullOutcome::Success { retrieval_metrics, .. } => full_retrieval(evals.drop_last()).push(
                retrieval_metrics,
            ),
            FullOutcome::Errored { .. } => full_retrieval(evals.drop_last()),
        }
    }
}

/// The answer metrics of the answered examples, errors left out.
pub open spec fn full_generation(evals: Seq<FullEval>) -> Seq<GenerationMetrics>
    decreases evals.len(),
{
    if evals.len() == 0 {
        seq![]
    } else {
        match evals.last().outcome {
            FullOutcome::Success { generation_metrics, .. } => full_generation(evals.drop_last()).push(
                generation_metrics,
            ),
            FullOutcome::Errored { .. } => full_generation(evals.drop_last()),
        }
    }
}

/// The routing metrics of the retrieved examples, errors left out.
pub open spec fn retrieval_routing(evals: Seq<RetrievalEval>) -> Seq<RoutingMetrics>
    decreases evals.len(),
{
    if evals.len() == 0 {
        seq![]
    } else {
        match evals.last().outcome {
            RetrievalOutcome::Success { routing_metrics, .. } => retrieval_routing(
                evals.drop_last(),
            ).push(routing_metrics),
            RetrievalOutcome::Errored { .. } => retrieval_routing(evals.drop_last()),
        }
    }
}

/// The retrieval metrics of the retrieved examples, errors left out.
pub open spec fn retrieval_metrics(evals: Seq<RetrievalEval>) -> Seq<RetrievalMetrics>
    decreases evals.len(),
{
    if evals.len() == 0 {
        seq![]
    } else {
        match evals.last().outcome {
            RetrievalOutcome::Success { metrics, .. } => retrieval_metrics(evals.drop_last()).push(
                metrics,
            ),
            RetrievalOutcome::Errored { .. } => retrieval_metrics(evals.drop_last()),
        }
    }
}

/// Whether optional ratios summarise routings: there are some only when the classifier was asked.
pub open spec fn routing_summarised(
    r: Option<RoutingRatios>,
    mode: FilterMode,
    list: Seq<RoutingMetrics>,
) -> bool {
    match r {
        Some(ratios) => mode == FilterMode::Classifier && summary::summarises_routing(ratios, list),
        None => mode != FilterMode::Classifier,
    }
}

/// Summarises routings if the classifier was asked.
fn summarize_routing_for(mode: FilterMode, list: &Vec<RoutingMetrics>) -> (res: Option<RoutingRatios>)
    ensures
        routing_summarised(res, mode, list@),
{
    match mode {
        FilterMode::Classifier => Some(summary::summarize_routing(list)),
        _ => None,
    }
}

/// Puts answered examples in order of their ids and sums them up.
pub fn full_evaluation(evals: Vec<FullEval>, mode: FilterMode) -> (res: FullEvaluation)
    ensures
        sorting::in_order(res.evals@),
        res.evals@.to_multiset() == evals@.to_multiset(),
        routing_summarised(res.routing_ratios, mode, full_routing(res.evals@)),
        summary::summarises_retrieval(res.retrieval_ratios, full_retrieval(res.evals@)),
        summary::summarises_generation(res.generation_ratios, full_generation(res.evals@)),
{
    let sorted = sorting::sort(evals);
    let ghost all = sorted@;
    let mut routing: Vec<RoutingMetrics> = Vec::new();
    let mut retrieval: Vec<RetrievalMetrics> = Vec::new();
    let mut generation: Vec<GenerationMetrics> = Vec::new();
    let mut i: usize = 0;
    assert(all.take(0).len() == 0);
    while i < sorted.len()
        invariant
            all == sorted@,
            i <= sorted@.len(),
            routing@ == full_routing(all.take(i as int)),
            retrieval@ == full_retrieval(all.take(i as int)),
            generation@ == full_generation(all.take(i as int)),
        decreases sorted@.len() - i,
    {
        proof {
            assert(all.take(i + 1).drop_last() == all.take(i as int));
            assert(all.take(i + 1).last() == all[i as int]);
        }
        match sorted[i].outcome.metrics() {
            Some(m) => {
                routing.push(m.routing_metrics.clone());
                retrieval.push(*m.retr_metrics);
                generation.push(*m.gen_metrics);
            },
            None => {},
        }
        i = i + 1;
    }
    assert(all.take(i as int) == all);
    FullEvaluation {
        routing_ratios: summarize_routing_for(mode, &routing),
        retrieval_ratios: summary::summarize_retrieval(&retrieval),
        generation_ratios: summary::summarize_generation(&generation),
        evals: sorted,
    }
}

/// Puts retrieved examples in order of their ids and sums them up.
pub fn retrieval_evaluation(evals: Vec<RetrievalEval>, mode: FilterMode) -> (res: RetrievalEvaluation)
    ensures
        sorting::in_order(res.evals@),
        res.evals@.to_multiset() == evals@.to_multiset(),
        routing_summarised(res.routing_ratios, mode, retrieval_routing(res.evals@)),
        summary::summarises_retrieval(res.ratios, retrieval_metrics(res.evals@)),
{
    let sorted = sorting::sort(evals);
    let ghost all = sorted@;
    let mut routing: Vec<RoutingMetrics> = Vec::new();
    let mut retrieval: Vec<RetrievalMetrics> = Vec::new();
    let mut i: usize = 0;
    assert(all.take(0).len() == 0);
    while i < sorted.len()
        invariant
            all == sorted@,
            i <= sorted@.len(),
            routing@ == retrieval_routing(all.take(i as int)),
            retrieval@ == retrieval_metrics(all.take(i as int)),
        decreases sorted@.len() - i,
    {
        proof {
            assert(all.take(i + 1).drop_last() == all.take(i as int));
            assert(all.take(i + 1).last() == all[i as int]);
        }
        match sorted[i].outcome.metrics() {
            Some(m) => {
                retrieval.push(*m);
            },
            None => {},
        }
        match sorted[i].outcome.routing_metrics() {
            Some(m) => {
                routing.push(m.clone());
            },
            None => {},
        }
        i = i + 1;
    }
    assert(all.take(i as int) == all);
    RetrievalEvaluation {
        routing_ratios: summarize_routing_for(mode, &routing),
        ratios: summary::summarize_retrieval(&retrieval),
        evals: sorted,
    }
}

} // verus!
