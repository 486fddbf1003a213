//! Closed-form analytics and fuzzy inference rules, with their contracts.
pub mod batch;
pub mod error;
pub mod features;
pub mod float_bits;
pub mod fuzzy;
pub mod ingest;
pub mod named;
pub mod pipeline;
pub mod text;
pub mod primitives;
pub mod provenance;
pub mod storage;
pub mod packs;

pub use packs::anomaly_detection::AnomalyDetectionPack;
pub use packs::classification::ClassificationPack;
pub use packs::descriptive_stats::DescriptiveStatsPack;
pub use packs::forecasting::ForecastingPack;
pub use packs::fuzzy::FuzzyInferencePack;
pub use packs::naive_bayes::NaiveBayesPack;
pub use packs::ranking::RankingPack;
pub use packs::regression::RegressionPack;
pub use packs::segmentation::SegmentationPack;
pub use packs::similarity::SimilarityPack;
pub use packs::trend_detection::TrendDetectionPack;
pub use provenance::PRISM_PROVENANCE;
