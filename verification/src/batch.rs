//! Settings of temporal feature extraction over event logs.
use vstd::prelude::*;
use vstd::string::StringExecFns;

verus! {

/// Which columns of an event log hold the entity, the time, the event type
/// and the category, and below how many seconds two events count as a burst.
#[derive(Debug, Clone)]
pub struct TemporalFeatureConfig {
    pub entity_column: String,
    pub timestamp_column: String,
    pub type_column: String,
    pub category_column: String,
    pub burst_threshold_seconds: i64,
}

impl Default for TemporalFeatureConfig {
    /// Columns `user_id`, `timestamp`, `event_type`, `repo_id`; bursts under
    /// 60 seconds.
    fn default() -> (r: TemporalFeatureConfig)
        ensures
            r.entity_column@ == "user_id"@,
            r.timestamp_column@ == "timestamp"@,
            r.type_column@ == "event_type"@,
            r.category_column@ == "repo_id"@,
            r.burst_threshold_seconds == 60,
    {
        TemporalFeatureConfig {
            entity_column: String::from_str("user_id"),
            timestamp_column: String::from_str("timestamp"),
            type_column: String::from_str("event_type"),
            category_column: String::from_str("repo_id"),
            burst_threshold_seconds: 60,
        }
    }
}

} // verus!
