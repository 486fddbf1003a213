//! Descriptive statistics: input checks, the sorted series, and the statistics
//! invariants.
use crate::error::InputError;
use crate::float_bits::FloatBits;
use crate::fuzzy::types::{one_bits, zero_bits};
use crate::packs::common::{
    ascending_order, first_other_length, first_row_of_other_length, invariant_spec, is_permutation, no_nan,
    ranks_ascending, row_lengths, InvariantSpec, Severity,
};
use vstd::prelude::*;

verus! {

/// A series and the percentiles to report.
#[derive(Debug, Clone)]
pub struct DescriptiveStatsInput {
    pub values: Vec<FloatBits>,
    pub percentiles: Vec<FloatBits>,
}

/// `100.0` as a binary64 pattern.
pub open spec fn hundred_bits() -> FloatBits {
    FloatBits { bits: 0x4059_0000_0000_0000u64 }
}

/// The first percentile, from position `i` on, outside `[0, 100]`.
pub open spec fn first_bad_percentile(p: Seq<FloatBits>, i: int) -> Option<int>
    decreases p.len() - i,
{
    if i < 0 || i >= p.len() {
        None
    } else if !p[i].spec_within(zero_bits(), hundred_bits()) {
        Some(i)
    } else {
        first_bad_percentile(p, i + 1)
    }
}

/// The refusal, if any, of a descriptive-statistics input.
pub open spec fn descriptive_check(values: nat, percentiles: Seq<FloatBits>) -> Result<(), InputError> {
    if values == 0 {
        Err(InputError::NoValues)
    } else {
        match first_bad_percentile(percentiles, 0) {
            Some(i) => Err(InputError::PercentileOutOfRange { index: i as usize, percentile: percentiles[i] }),
            None => Ok(()),
        }
    }
}

impl DescriptiveStatsInput {
    /// Checks: at least one value; every percentile within `[0, 100]`.
    pub fn validate(&self) -> (r: Result<(), InputError>)
        ensures
            r == descriptive_check(self.values@.len(), self.percentiles@),
    {
        if self.values.len() == 0 {
            return Err(InputError::NoValues);
        }
        let zero = FloatBits::zero();
        let hundred = FloatBits::from_bits(0x4059_0000_0000_0000u64);
        let n = self.percentiles.len();
        let mut i: usize = 0;
        while i < n
            invariant
                n == self.percentiles@.len(),
                self.values@.len() > 0,
                i <= n,
                zero == zero_bits(),
                hundred == hundred_bits(),
                first_bad_percentile(self.percentiles@, 0) == first_bad_percentile(self.percentiles@, i as int),
            decreases n - i,
        {
            let p = self.percentiles[i];
            if !p.within(&zero, &hundred) {
                return Err(InputError::PercentileOutOfRange { index: i, percentile: p });
            }
            i = i + 1;
        }
        Ok(())
    }
}

/// A requested percentile and its value.
#[derive(Debug, Clone, Copy)]
pub struct PercentileResult {
    pub percentile: FloatBits,
    pub value: FloatBits,
}

/// The summary statistics of a series.
#[derive(Debug, Clone)]
pub struct DescriptiveStatsOutput {
    pub count: usize,
    pub mean: FloatBits,
    pub median: FloatBits,
    pub std_dev: FloatBits,
    pub variance: FloatBits,
    pub min: FloatBits,
    pub max: FloatBits,
    pub range: FloatBits,
    pub skewness: FloatBits,
    pub kurtosis: FloatBits,
    pub percentiles: Vec<PercentileResult>,
}

/// `2.0` as a binary64 pattern.
pub open spec fn two_bits() -> FloatBits {
    FloatBits { bits: 0x4000_0000_0000_0000u64 }
}

/// The descriptive-statistics solver.
pub struct DescriptiveStatsSolver;

impl DescriptiveStatsSolver {
    /// The values sorted from lowest to highest, equal values in their original
    /// order (a stable sort): the values rearranged by an ascending order of
    /// their positions. Where a value is NaN, the rearrangement is all that is
    /// promised.
    pub fn sorted_values(&self, values: &Vec<FloatBits>) -> (r: Vec<FloatBits>)
        ensures
            r@.len() == values@.len(),
            exists|order: Seq<usize>|
                #![trigger is_permutation(order, values@.len())]
                {
                    &&& is_permutation(order, values@.len())
                    &&& no_nan(values@) ==> ranks_ascending(values@, order)
                    &&& forall|i: int| 0 <= i < values@.len() ==> r@[i] == values@[#[trigger] order[i] as int]
                },
            no_nan(values@) ==> forall|i: int, j: int|
                0 <= i <= j < values@.len() ==> (#[trigger] r@[i]).spec_le(#[trigger] r@[j]),
    {
        let order = ascending_order(values);
        let n = values.len();
        let mut sorted: Vec<FloatBits> = Vec::new();
        let mut i: usize = 0;
        while i < n
            invariant
                n == values@.len(),
                is_permutation(order@, n as nat),
                no_nan(values@) ==> ranks_ascending(values@, order@),
                i <= n,
                sorted@.len() == i,
                forall|k: int| 0 <= k < i ==> sorted@[k] == values@[#[trigger] order@[k] as int],
            decreases n - i,
        {
            sorted.push(values[order[i]]);
            i = i + 1;
        }
        proof {
            assert(is_permutation(order@, values@.len()));
            assert(forall|k: int| 0 <= k < n ==> sorted@[k] == values@[#[trigger] order@[k] as int]);
            if no_nan(values@) {
                assert forall|a: int, b: int| 0 <= a <= b < n implies (#[trigger] sorted@[a]).spec_le(
                    #[trigger] sorted@[b],
                ) by {
                    assert(sorted@[a] == values@[order@[a] as int]);
                    assert(sorted@[b] == values@[order@[b] as int]);
                    assert(order@[a] < n && order@[b] < n);
                    assert(!values@[order@[a] as int].spec_nan());
                    assert(!values@[order@[b] as int].spec_nan());
                    if a < b {
                        let x = values@[order@[a] as int];
                        let y = values@[order@[b] as int];
                        assert(x.spec_lt(y) || (y.spec_num_eq(x) && order@[a] < order@[b]));
                    }
                }
            }
        }
        sorted
    }
}

/// The descriptive-stats pack.
pub struct DescriptiveStatsPack;

impl DescriptiveStatsPack {
    /// `"descriptive-stats"`.
    pub fn name(&self) -> (r: &'static str)
        ensures
            r@ == "descriptive-stats"@,
    {
        "descriptive-stats"
    }

    /// `"1.0.0"`.
    pub fn version(&self) -> (r: &'static str)
        ensures
            r@ == "1.0.0"@,
    {
        "1.0.0"
    }

    /// The invariants: `finite-statistics` (critical) and `high-skew` (advisory).
    pub fn invariants(&self) -> (r: Vec<InvariantSpec>)
        ensures
            r@.len() == 2,
            r@[0].name@ == "finite-statistics"@,
            r@[0].severity == Severity::Critical,
            r@[1].name@ == "high-skew"@,
            r@[1].severity == Severity::Advisory,
    {
        let mut r = Vec::new();
        r.push(
            invariant_spec(
                "finite-statistics",
                "All computed statistics must be finite",
                Severity::Critical,
            ),
        );
        r.push(
            invariant_spec(
                "high-skew",
                "Absolute skewness > 2 — data is heavily skewed",
                Severity::Advisory,
            ),
        );
        r
    }

    /// `finite-statistics`: mean, median, deviation, variance, skewness and
    /// kurtosis are all finite.
    pub fn finite_statistics(&self, output: &DescriptiveStatsOutput) -> (r: bool)
        ensures
            r == (output.mean.spec_finite() && output.median.spec_finite() && output.std_dev.spec_finite()
                && output.variance.spec_finite() && output.skewness.spec_finite()
                && output.kurtosis.spec_finite()),
    {
        output.mean.is_finite() && output.median.is_finite() && output.std_dev.is_finite()
            && output.variance.is_finite() && output.skewness.is_finite() && output.kurtosis.is_finite()
    }

    /// `high-skew` fires: `|skewness| > 2`.
    pub fn high_skew(&self, output: &DescriptiveStatsOutput) -> (r: bool)
        ensures
            r == two_bits().spec_lt(FloatBits { bits: output.skewness.magnitude() as u64 }),
    {
        let two = FloatBits::from_bits(0x4000_0000_0000_0000u64);
        output.skewness.abs().gt(&two)
    }
}

} // verus!
