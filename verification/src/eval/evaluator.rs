//! Which examples an evaluation runs, and with what.

use crate::eval::examples;
use crate::eval::examples::EvalExample;
use crate::eval::outcome;
use crate::eval::outcome::{
    FilterMode, FullEval, FullEvaluation, RetrievalEval, RetrievalEvaluation,
};
use crate::eval::run;
use crate::eval::run::{RetrievalStage, Stage};
use crate::eval::summary;
use crate::sorting;
use crate::text;
use vstd::prelude::*;

verus! {

/// Evaluates a pipeline `P`, with a classifier `C` for the games.
pub struct PipelineEvaluator<P, C> {
    pub pipeline: P,
    pub classifier: C,
    pub games: Vec<String>,
    pub filter_mode: FilterMode,
    pub tag_filters: Vec<String>,
    pub limit: Option<usize>,
}

impl<P, C> PipelineEvaluator<P, C> {
    /// An evaluator of a pipeline.
    pub fn new(
        pipeline: P,
        classifier: C,
        games: Vec<String>,
        filter_mode: FilterMode,
        tag_filters: Vec<String>,
        limit: Option<usize>,
    ) -> (res: Self)
        ensures
            res == (PipelineEvaluator {
                pipeline,
                classifier,
                games,
                filter_mode,
                tag_filters,
                limit,
            }),
    {
        PipelineEvaluator { pipeline, classifier, games, filter_mode, tag_filters, limit }
    }

    /// The examples to run.
    pub fn select(&self, list: Vec<EvalExample>) -> (res: Vec<EvalExample>)
        ensures
            res@ == examples::limited(
                examples::tagged(list@, text::texts(self.tag_filters@)),
                self.limit,
            ),
    {
        examples::select_examples(list, &self.tag_filters, self.limit)
    }

    /// The first stage of an example.
    pub fn begin(&self, example: &EvalExample) -> (res: Stage)
        ensures
            res == run::first_stage(self.filter_mode, *example),
    {
        run::start(self.filter_mode, example)
    }

    /// Sums up what came of the examples.
    pub fn finish(&self, evals: Vec<FullEval>) -> (res: FullEvaluation)
        ensures
            sorting::in_order(res.evals@),
            res.evals@.to_multiset() == evals@.to_multiset(),
            outcome::routing_summarised(
                res.routing_ratios,
                self.filter_mode,
                outcome::full_routing(res.evals@),
            ),
            summary::summarises_retrieval(
                res.retrieval_ratios,
                outcome::full_retrieval(res.evals@),
            ),
            summary::summarises_generation(
                res.generation_ratios,
                outcome::full_generation(res.evals@),
            ),
    {
        outcome::full_evaluation(evals, self.filter_mode)
    }
}

/// Evaluates a retriever `R`, with a classifier `C` for the games.
pub struct RetrievalEvaluator<R, C> {
    pub retriever: R,
    pub classifier: C,
    pub games: Vec<String>,
    pub filter_mode: FilterMode,
    pub tag_filters: Vec<String>,
    pub limit: Option<usize>,
}

impl<R, C> RetrievalEvaluator<R, C> {
    /// An evaluator of a retriever.
    pub fn new(
        retriever: R,
        classifier: C,
        games: Vec<String>,
        filter_mode: FilterMode,
        tag_filters: Vec<String>,
        limit: Option<usize>,
    ) -> (res: Self)
        ensures
            res == (RetrievalEvaluator {
                retriever,
                classifier,
                games,
                filter_mode,
                tag_filters,
                limit,
            }),
    {
        RetrievalEvaluator { retriever, classifier, games, filter_mode, tag_filters, limit }
    }

    /// The examples to run.
    pub fn select(&self, list: Vec<EvalExample>) -> (res: Vec<EvalExample>)
        ensures
            res@ == examples::limited(
                examples::tagged(list@, text::texts(self.tag_filters@)),
                self.limit,
            ),
    {
        examples::select_examples(list, &self.tag_filters, self.limit)
    }

    /// The first stage of an example.
    pub fn begin(&self, example: &EvalExample) -> (res: RetrievalStage)
        ensures
            res == run::first_retrieval_stage(self.filter_mode, *example),
    {
        run::start_retrieval(self.filter_mode, example)
    }

    /// Sums up what came of the examples.
    pub fn finish(&self, evals: Vec<RetrievalEval>) -> (res: RetrievalEvaluation)
        ensures
            sorting::in_order(res.evals@),
            res.evals@.to_multiset() == evals@.to_multiset(),
            outcome::routing_summarised(
                res.routing_ratios,
                self.filter_mode,
                outcome::retrieval_routing(res.evals@),
            ),
            summary::summarises_retrieval(res.ratios, outcome::retrieval_metrics(res.evals@)),
    {
        outcome::retrieval_evaluation(evals, self.filter_mode)
    }
}

} // verus!
