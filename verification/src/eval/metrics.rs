//! What is measured of one example.

use crate::eval::coverage::Coverage;
use vstd::prelude::*;

verus! {

/// A fraction. Zero over zero stands for zero.
#[derive(Debug, Clone, Copy, PartialEq, Eq, Structural)]
pub struct Ratio {
    pub numerator: usize,
    pub denominator: usize,
}

/// What is measured of the routing of a question to a game.
#[derive(Debug)]
pub struct RoutingMetrics {
    pub correct: bool,
    pub classified: Option<String>,
    pub elapsed_millis: u64,
}

impl Clone for RoutingMetrics {
    fn clone(&self) -> (res: Self)
        ensures
            res == *self,
    {
        RoutingMetrics {
            correct: self.correct,
            classified: match &self.classified {
                Some(game) => Some(game.clone()),
                None => None,
            },
            elapsed_millis: self.elapsed_millis,
        }
    }
}

impl Default for RoutingMetrics {
    fn default() -> (res: Self)
        ensures
            res == (RoutingMetrics { correct: false, classified: None, elapsed_millis: 0 }),
    {
        RoutingMetrics { correct: false, classified: None, elapsed_millis: 0 }
    }
}

/// What is measured of a retrieval. `mrr` is the reciprocal of `found_at`, or zero if the passages
/// were not found.
#[derive(Debug, Clone, Copy, PartialEq, Eq, Structural)]
pub struct RetrievalMetrics {
    pub recall_at_1: bool,
    pub recall_at_3: bool,
    pub recall_at_5: bool,
    pub recall_at_10: bool,
    pub perfect_coverage: bool,
    pub mrr: Ratio,
    pub found_at: usize,
    pub elapsed_millis: u64,
}

/// The metrics for a coverage.
pub open spec fn metrics_for(coverage: Option<Coverage>, elapsed_millis: u64) -> RetrievalMetrics {
    match coverage {
        Some(c) => RetrievalMetrics {
            recall_at_1: c.rank < 1,
            recall_at_3: c.rank < 3,
            recall_at_5: c.rank < 5,
            recall_at_10: c.rank < 10,
            perfect_coverage: c.rank == c.floor,
            mrr: Ratio { numerator: 1, denominator: (c.rank + 1) as usize },
            found_at: (c.rank + 1) as usize,
            elapsed_millis,
        },
        None => RetrievalMetrics {
            recall_at_1: false,
            recall_at_3: false,
            recall_at_5: false,
            recall_at_10: false,
            perfect_coverage: false,
            mrr: Ratio { numerator: 0, denominator: 1 },
            found_at: 0,
            elapsed_millis,
        },
    }
}

impl RetrievalMetrics {
    /// The metrics for a coverage.
    pub fn from(coverage: Option<Coverage>, elapsed_millis: u64) -> (res: Self)
        requires
            coverage is Some ==> coverage.unwrap().rank < usize::MAX,
        ensures
            res == metrics_for(coverage, elapsed_millis),
    {
        match coverage {
            Some(c) => RetrievalMetrics {
                recall_at_1: c.rank < 1,
                recall_at_3: c.rank < 3,
                recall_at_5: c.rank < 5,
                recall_at_10: c.rank < 10,
                perfect_coverage: c.rank == c.floor,
                mrr: Ratio { numerator: 1, denominator: c.rank + 1 },
                found_at: c.rank + 1,
                elapsed_millis,
            },
            None => RetrievalMetrics {
                recall_at_1: false,
                recall_at_3: false,
                recall_at_5: false,
                recall_at_10: false,
                perfect_coverage: false,
                mrr: Ratio { numerator: 0, denominator: 1 },
                found_at: 0,
                elapsed_millis,
            },
        }
    }
}

impl Default for RetrievalMetrics {
    fn default() -> (res: Self)
        ensures
            res == (RetrievalMetrics {
                recall_at_1: false,
                recall_at_3: false,
                recall_at_5: false,
                recall_at_10: false,
                perfect_coverage: false,
                mrr: Ratio { numerator: 0, denominator: 1 },
                found_at: 0,
                elapsed_millis: 0,
            }),
    {
        RetrievalMetrics::from(None, 0)
    }
}

/// Whether recall at a depth implies recall at every greater one.
pub open spec fn recall_nested(m: RetrievalMetrics) -> bool {
    &&& m.recall_at_1 ==> m.recall_at_3
    &&& m.recall_at_3 ==> m.recall_at_5
    &&& m.recall_at_5 ==> m.recall_at_10
}

/// Recall at a depth implies recall at every greater one. Where a single chunk is enough, perfect
/// coverage is recall at one.
pub proof fn law_recall(coverage: Option<Coverage>, elapsed_millis: u64)
    ensures
        ({
            let m = metrics_for(coverage, elapsed_millis);
            &&& recall_nested(m)
            &&& coverage is Some && coverage.unwrap().floor == 0 ==> m.perfect_coverage
                == m.recall_at_1
            &&& coverage is None ==> !m.recall_at_10 && !m.perfect_coverage && m.found_at == 0
        }),
{
}

/// What is measured of an answer.
#[derive(Debug, Clone, Copy, PartialEq, Eq, Structural)]
pub struct GenerationMetrics {
    pub quote_match: bool,
    pub refused: bool,
    pub total_elapsed_millis: u64,
    pub input_tokens: usize,
    pub output_tokens: usize,
}

impl Default for GenerationMetrics {
    fn default() -> (res: Self)
        ensures
            res == (GenerationMetrics {
                quote_match: false,
                refused: false,
                total_elapsed_millis: 0,
                input_tokens: 0,
                output_tokens: 0,
            }),
    {
        GenerationMetrics {
            quote_match: false,
            refused: false,
            total_elapsed_millis: 0,
            input_tokens: 0,
            output_tokens: 0,
        }
    }
}

} // verus!
