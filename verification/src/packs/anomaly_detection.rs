//! Z-score anomaly detection: input checks, the selection of outliers, and the
//! statistics invariant.
use crate::error::InputError;
use crate::float_bits::FloatBits;
use crate::fuzzy::types::zero_bits;
use crate::packs::common::{invariant_spec, InvariantSpec, Severity};
use crate::primitives::ZScoreThreshold;
use vstd::prelude::*;

verus! {

/// A series to scan for outliers, with optional per-value labels.
#[derive(Debug, Clone)]
pub struct AnomalyDetectionInput {
    pub values: Vec<FloatBits>,
    pub threshold: ZScoreThreshold,
    pub labels: Option<Vec<String>>,
}

/// The threshold when none is given: `2.0`.
pub fn default_threshold() -> (r: ZScoreThreshold)
    ensures
        r@.bits == 0x4000_0000_0000_0000u64,
{
    ZScoreThreshold::from_positive(FloatBits::from_bits(0x4000_0000_0000_0000u64))
}

/// The refusal, if any, of an anomaly-detection input.
pub open spec fn anomaly_check(values: nat, labels: Option<Vec<String>>) -> Result<(), InputError> {
    if values == 0 {
        Err(InputError::NoValues)
    } else if labels matches Some(l) && l@.len() != values {
        Err(InputError::LabelsLengthMismatch)
    } else {
        Ok(())
    }
}

impl AnomalyDetectionInput {
    /// Checks: at least one value; labels, when given, one per value.
    pub fn validate(&self) -> (r: Result<(), InputError>)
        ensures
            r == anomaly_check(self.values@.len(), self.labels),
    {
        if self.values.len() == 0 {
            return Err(InputError::NoValues);
        }
        if let Some(labels) = &self.labels {
            if labels.len() != self.values.len() {
                return Err(InputError::LabelsLengthMismatch);
            }
        }
        Ok(())
    }
}

/// A value flagged as an outlier.
#[derive(Debug, Clone)]
pub struct AnomalyRecord {
    pub index: usize,
    pub value: FloatBits,
    pub z_score: FloatBits,
    pub label: Option<String>,
}

/// The result of anomaly detection.
#[derive(Debug, Clone)]
pub struct AnomalyDetectionOutput {
    pub anomalies: Vec<AnomalyRecord>,
    pub mean: FloatBits,
    pub std_dev: FloatBits,
    pub total_points: usize,
    pub anomaly_count: usize,
}

/// The record of position `i`: its value, its z-score and its label, if any.
pub open spec fn anomaly_record(
    input: AnomalyDetectionInput,
    z_scores: Seq<FloatBits>,
    i: int,
) -> AnomalyRecord {
    AnomalyRecord {
        index: i as usize,
        value: input.values@[i],
        z_score: z_scores[i],
        label: match input.labels {
            Some(l) => Some(l@[i]),
            None => None,
        },
    }
}

/// Whether position `i` is an outlier: the deviation is above `0.0` and the
/// z-score above the threshold.
pub open spec fn is_outlier(
    input: AnomalyDetectionInput,
    std_dev: FloatBits,
    z_scores: Seq<FloatBits>,
    i: int,
) -> bool {
    zero_bits().spec_lt(std_dev) && input.threshold@.spec_lt(z_scores[i])
}

/// The records of the outliers among the first `n` positions, in order.
pub open spec fn outliers_upto(
    input: AnomalyDetectionInput,
    std_dev: FloatBits,
    z_scores: Seq<FloatBits>,
    n: int,
) -> Seq<AnomalyRecord>
    decreases n,
{
    if n <= 0 {
        Seq::empty()
    } else {
        let before = outliers_upto(input, std_dev, z_scores, n - 1);
        if is_outlier(input, std_dev, z_scores, n - 1) {
            before.push(anomaly_record(input, z_scores, n - 1))
        } else {
            before
        }
    }
}

/// A series whose deviation is not above `0.0` (constant data) has no outliers,
/// and no series has more outliers than points, each flagged for a z-score
/// above the threshold.
pub proof fn lemma_outliers_bounded(
    input: AnomalyDetectionInput,
    std_dev: FloatBits,
    z_scores: Seq<FloatBits>,
    n: int,
)
    requires
        0 <= n,
    ensures
        outliers_upto(input, std_dev, z_scores, n).len() <= n,
        !zero_bits().spec_lt(std_dev) ==> outliers_upto(input, std_dev, z_scores, n).len() == 0,
        forall|k: int|
            0 <= k < outliers_upto(input, std_dev, z_scores, n).len() ==> {
                let rec = #[trigger] outliers_upto(input, std_dev, z_scores, n)[k];
                &&& rec.index < n
                &&& input.threshold@.spec_lt(rec.z_score)
            },
    decreases n,
{
    if n > 0 {
        lemma_outliers_bounded(input, std_dev, z_scores, n - 1);
        let before = outliers_upto(input, std_dev, z_scores, n - 1);
        assert forall|k: int|
            0 <= k < outliers_upto(input, std_dev, z_scores, n).len() implies {
                let rec = #[trigger] outliers_upto(input, std_dev, z_scores, n)[k];
                &&& rec.index < n
                &&& input.threshold@.spec_lt(rec.z_score)
            } by {
            if k < before.len() {
                assert(outliers_upto(input, std_dev, z_scores, n)[k] == before[k]);
            }
        }
    }
}

/// The outliers among the first `n` positions are exactly the positions whose
/// z-score is above the threshold when the deviation is above `0.0`: each
/// reported record is such a position, with its value and z-score, the
/// positions come in increasing order, and every such position is reported.
pub proof fn lemma_outliers_exact(
    input: AnomalyDetectionInput,
    std_dev: FloatBits,
    z_scores: Seq<FloatBits>,
    n: int,
)
    requires
        0 <= n <= z_scores.len(),
        n <= input.values@.len(),
        n <= usize::MAX,
    ensures
        forall|k: int|
            0 <= k < outliers_upto(input, std_dev, z_scores, n).len() ==> {
                let rec = #[trigger] outliers_upto(input, std_dev, z_scores, n)[k];
                &&& rec.index < n
                &&& zero_bits().spec_lt(std_dev)
                &&& input.threshold@.spec_lt(rec.z_score)
                &&& rec.z_score == z_scores[rec.index as int]
                &&& rec.value == input.values@[rec.index as int]
            },
        forall|k1: int, k2: int|
            0 <= k1 < k2 < outliers_upto(input, std_dev, z_scores, n).len() ==> (#[trigger] outliers_upto(
                input,
                std_dev,
                z_scores,
                n,
            )[k1]).index < (#[trigger] outliers_upto(input, std_dev, z_scores, n)[k2]).index,
        forall|i: int|
            0 <= i < n && zero_bits().spec_lt(std_dev) && input.threshold@.spec_lt(#[trigger] z_scores[i])
                ==> exists|k: int|
                0 <= k < outliers_upto(input, std_dev, z_scores, n).len() && (#[trigger] outliers_upto(
                    input,
                    std_dev,
                    z_scores,
                    n,
                )[k]).index == i,
    decreases n,
{
    if n > 0 {
        lemma_outliers_exact(input, std_dev, z_scores, n - 1);
        let before = outliers_upto(input, std_dev, z_scores, n - 1);
        let now = outliers_upto(input, std_dev, z_scores, n);
        assert forall|k: int| 0 <= k < before.len() implies #[trigger] now[k] == before[k] by {}
        assert forall|k: int|
            0 <= k < now.len() implies {
                let rec = #[trigger] now[k];
                &&& rec.index < n
                &&& zero_bits().spec_lt(std_dev)
                &&& input.threshold@.spec_lt(rec.z_score)
                &&& rec.z_score == z_scores[rec.index as int]
                &&& rec.value == input.values@[rec.index as int]
            } by {
            if k < before.len() {
                assert(now[k] == before[k]);
            }
        }
        assert forall|k1: int, k2: int| 0 <= k1 < k2 < now.len() implies (#[trigger] now[k1]).index < (
        #[trigger] now[k2]).index by {
            assert(now[k1] == before[k1]);
            if k2 < before.len() {
                assert(now[k2] == before[k2]);
            }
        }
        assert forall|i: int|
            0 <= i < n && zero_bits().spec_lt(std_dev) && input.threshold@.spec_lt(#[trigger] z_scores[i])
                implies exists|k: int| 0 <= k < now.len() && (#[trigger] now[k]).index == i by {
            if i < n - 1 {
                let k = choose|k: int| 0 <= k < before.len() && (#[trigger] before[k]).index == i;
                assert(now[k] == before[k]);
            } else {
                assert(now[before.len() as int].index == i);
            }
        }
    }
}

/// The z-score detector.
pub struct ZScoreSolver;

impl ZScoreSolver {
    /// The detection's output from the series' statistics and each value's
    /// z-score: the outliers in order of position, the statistics, the number of
    /// points and the number of outliers.
    pub fn detect(
        &self,
        input: &AnomalyDetectionInput,
        mean: FloatBits,
        std_dev: FloatBits,
        z_scores: &Vec<FloatBits>,
    ) -> (r: AnomalyDetectionOutput)
        requires
            z_scores@.len() == input.values@.len(),
            input.labels matches Some(l) ==> l@.len() == input.values@.len(),
        ensures
            r.anomalies@ == outliers_upto(*input, std_dev, z_scores@, input.values@.len() as int),
            r.mean == mean,
            r.std_dev == std_dev,
            r.total_points == input.values@.len(),
            r.anomaly_count == r.anomalies@.len(),
            forall|k: int|
                0 <= k < r.anomalies@.len() ==> {
                    let rec = #[trigger] r.anomalies@[k];
                    &&& rec.index < input.values@.len()
                    &&& zero_bits().spec_lt(std_dev)
                    &&& input.threshold@.spec_lt(rec.z_score)
                    &&& rec.z_score == z_scores@[rec.index as int]
                    &&& rec.value == input.values@[rec.index as int]
                },
            forall|k1: int, k2: int|
                0 <= k1 < k2 < r.anomalies@.len() ==> (#[trigger] r.anomalies@[k1]).index < (
                #[trigger] r.anomalies@[k2]).index,
            forall|i: int|
                0 <= i < input.values@.len() && zero_bits().spec_lt(std_dev) && input.threshold@.spec_lt(
                    #[trigger] z_scores@[i],
                ) ==> exists|k: int| 0 <= k < r.anomalies@.len() && (#[trigger] r.anomalies@[k]).index == i,
    {
        let zero = FloatBits::zero();
        let spread = zero.lt(&std_dev);
        let threshold = input.threshold.value();
        let n = input.values.len();
        let mut anomalies: Vec<AnomalyRecord> = Vec::new();
        let mut i: usize = 0;
        while i < n
            invariant
                n == input.values@.len(),
                z_scores@.len() == n,
                i <= n,
                threshold == input.threshold@,
                spread == zero_bits().spec_lt(std_dev),
                input.labels matches Some(l) ==> l@.len() == n,
                anomalies@ == outliers_upto(*input, std_dev, z_scores@, i as int),
            decreases n - i,
        {
            let z = z_scores[i];
            if spread && threshold.lt(&z) {
                let label = match &input.labels {
                    Some(l) => Some(l[i].clone()),
                    None => None,
                };
                anomalies.push(
                    AnomalyRecord { index: i, value: input.values[i], z_score: z, label },
                );
            }
            i = i + 1;
        }
        let count = anomalies.len();
        proof {
            lemma_outliers_exact(*input, std_dev, z_scores@, n as int);
        }
        AnomalyDetectionOutput { anomalies, mean, std_dev, total_points: n, anomaly_count: count }
    }
}

/// The anomaly-detection pack.
pub struct AnomalyDetectionPack;

impl AnomalyDetectionPack {
    /// `"anomaly-detection"`.
    pub fn name(&self) -> (r: &'static str)
        ensures
            r@ == "anomaly-detection"@,
    {
        "anomaly-detection"
    }

    /// `"1.0.0"`.
    pub fn version(&self) -> (r: &'static str)
        ensures
            r@ == "1.0.0"@,
    {
        "1.0.0"
    }

    /// The invariants: `valid-statistics` (critical) and `anomaly-ratio` (advisory).
    pub fn invariants(&self) -> (r: Vec<InvariantSpec>)
        ensures
            r@.len() == 2,
            r@[0].name@ == "valid-statistics"@,
            r@[0].severity == Severity::Critical,
            r@[1].name@ == "anomaly-ratio"@,
            r@[1].severity == Severity::Advisory,
    {
        let mut r = Vec::new();
        r.push(
            invariant_spec(
                "valid-statistics",
                "Standard deviation must be > 0 (constant data cannot detect anomalies)",
                Severity::Critical,
            ),
        );
        r.push(
            invariant_spec(
                "anomaly-ratio",
                "Anomaly count exceeds 50% of total points — threshold may be too low",
                Severity::Advisory,
            ),
        );
        r
    }

    /// `valid-statistics` passes unless `std_dev <= 0.0` (a NaN deviation
    /// passes).
    pub fn valid_statistics(&self, output: &AnomalyDetectionOutput) -> (r: bool)
        ensures
            r == !output.std_dev.spec_le(zero_bits()),
    {
        let zero = FloatBits::zero();
        !output.std_dev.le(&zero)
    }
}

} // verus!
