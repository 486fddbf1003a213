//! Linear regression: input checks and the prediction invariants.
use crate::error::InputError;
use crate::float_bits::FloatBits;
use crate::fuzzy::types::{one_bits, zero_bits};
use crate::packs::common::{
    first_other_length, first_row_of_other_length, invariant_spec, row_lengths, InvariantSpec, Severity,
};
use vstd::prelude::*;

verus! {

/// Records scored by a linear model.
#[derive(Debug, Clone)]
pub struct RegressionInput {
    pub records: Vec<Vec<FloatBits>>,
    pub weights: Vec<FloatBits>,
    pub bias: FloatBits,
}

/// The refusal, if any, of records scored by a weight vector: no records,
/// no weights, a record whose length is not the number of weights.
pub open spec fn regression_check(records: Seq<Vec<FloatBits>>, dim: nat) -> Result<(), InputError> {
    if records.len() == 0 {
        Err(InputError::NoRecords)
    } else if dim == 0 {
        Err(InputError::NoWeights)
    } else {
        match first_other_length(row_lengths(records), dim, 0) {
            Some(i) => Err(
                InputError::RecordDimension {
                    index: i as usize,
                    found: records[i]@.len() as usize,
                    expected: dim as usize,
                },
            ),
            None => Ok(()),
        }
    }
}

impl RegressionInput {
    /// Checks: records present, weights present, every record as long as the
    /// weights.
    pub fn validate(&self) -> (r: Result<(), InputError>)
        ensures
            r == regression_check(self.records@, self.weights@.len()),
    {
        if self.records.len() == 0 {
            return Err(InputError::NoRecords);
        }
        let dim = self.weights.len();
        if dim == 0 {
            return Err(InputError::NoWeights);
        }
        match first_row_of_other_length(&self.records, dim) {
            Some(i) => {
                assert(row_lengths(self.records@)[i as int] == self.records@[i as int]@.len());
                Err(InputError::RecordDimension { index: i, found: self.records[i].len(), expected: dim })
            },
            None => Ok(()),
        }
    }
}

/// One predicted value.
#[derive(Debug, Clone, Copy)]
pub struct PredictedValue {
    pub index: usize,
    pub value: FloatBits,
}

/// The result of regression.
#[derive(Debug, Clone)]
pub struct RegressionOutput {
    pub predictions: Vec<PredictedValue>,
    pub mean_prediction: FloatBits,
    pub std_prediction: FloatBits,
    pub total: usize,
}

/// `1e-10` as a binary64 pattern.
pub open spec fn tiny_bits() -> FloatBits {
    FloatBits { bits: 0x3ddb_7cdf_d9d7_bdbbu64 }
}

/// The regression pack.
pub struct RegressionPack;

impl RegressionPack {
    /// `"regression"`.
    pub fn name(&self) -> (r: &'static str)
        ensures
            r@ == "regression"@,
    {
        "regression"
    }

    /// `"1.0.0"`.
    pub fn version(&self) -> (r: &'static str)
        ensures
            r@ == "1.0.0"@,
    {
        "1.0.0"
    }

    /// The invariants: `finite-values` (critical) and `zero-variance` (advisory).
    pub fn invariants(&self) -> (r: Vec<InvariantSpec>)
        ensures
            r@.len() == 2,
            r@[0].name@ == "finite-values"@,
            r@[0].severity == Severity::Critical,
            r@[1].name@ == "zero-variance"@,
            r@[1].severity == Severity::Advisory,
    {
        let mut r = Vec::new();
        r.push(
            invariant_spec(
                "finite-values",
                "All predicted values must be finite",
                Severity::Critical,
            ),
        );
        r.push(
            invariant_spec(
                "zero-variance",
                "All predictions are identical — model may be degenerate",
                Severity::Advisory,
            ),
        );
        r
    }

    /// `finite-values`: every predicted value is finite.
    pub fn finite_values(&self, output: &RegressionOutput) -> (r: bool)
        ensures
            r == forall|i: int|
                0 <= i < output.predictions@.len() ==> (#[trigger] output.predictions@[i]).value.spec_finite(),
    {
        let n = output.predictions.len();
        let mut i: usize = 0;
        while i < n
            invariant
                n == output.predictions@.len(),
                i <= n,
                forall|j: int| 0 <= j < i ==> (#[trigger] output.predictions@[j]).value.spec_finite(),
            decreases n - i,
        {
            if !output.predictions[i].value.is_finite() {
                return false;
            }
            i = i + 1;
        }
        true
    }

    /// `zero-variance` fires: the prediction spread is below `1e-10` and
    /// there is more than one prediction.
    pub fn zero_variance(&self, output: &RegressionOutput) -> (r: bool)
        ensures
            r == (output.std_prediction.spec_lt(tiny_bits()) && output.total > 1),
    {
        let tiny = FloatBits::from_bits(0x3ddb_7cdf_d9d7_bdbbu64);
        output.std_prediction.lt(&tiny) && output.total > 1
    }
}

} // verus!
