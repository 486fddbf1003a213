//! Analytic packs: input checks, metadata, invariants that are decided
//! exactly, and the integer parts of the solvers.
pub mod common;
pub mod segmentation;
pub mod trend_detection;
pub mod anomaly_detection;
pub mod classification;
pub mod descriptive_stats;
pub mod forecasting;
pub mod regression;
pub mod naive_bayes;
pub mod ranking;
pub mod similarity;
pub mod fuzzy;
