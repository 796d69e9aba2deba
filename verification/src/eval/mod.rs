//! Scoring of retrievals and answers against a set of examples.

pub mod checks;
pub mod coverage;
pub mod coverage_laws;
pub mod evaluator;
pub mod examples;
pub mod golden;
pub mod metrics;
pub mod metrics_laws;
pub mod normalize;
pub mod normalize_laws;
pub mod outcome;
pub mod run;
pub mod run_laws;
pub mod stats;
pub mod summary;
pub mod summary_laws;
pub mod tokens;
