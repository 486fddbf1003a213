//! Exponential-smoothing forecasts: input checks and the finiteness invariant.
use crate::error::InputError;
use crate::float_bits::FloatBits;
use crate::fuzzy::types::{one_bits, zero_bits};
use crate::packs::common::{
    first_other_length, first_row_of_other_length, invariant_spec, row_lengths, InvariantSpec, Severity,
};
use vstd::prelude::*;

verus! {

/// A history to extend `horizon` steps with smoothing factor `alpha`.
#[derive(Debug, Clone)]
pub struct ForecastingInput {
    pub values: Vec<FloatBits>,
    pub horizon: usize,
    pub alpha: FloatBits,
}

/// The smoothing factor when none is given: `0.3`.
pub fn default_alpha() -> (r: FloatBits)
    ensures
        r.bits == 0x3fd3_3333_3333_3333u64,
{
    FloatBits::from_bits(0x3fd3_3333_3333_3333u64)
}

/// The refusal, if any, of a forecasting input.
pub open spec fn forecasting_check(values: nat, horizon: usize, alpha: FloatBits) -> Result<(), InputError> {
    if values < 2 {
        Err(InputError::TooFewHistoricalValues)
    } else if horizon == 0 {
        Err(InputError::ZeroHorizon)
    } else if !alpha.spec_within(zero_bits(), one_bits()) {
        Err(InputError::AlphaOutOfRange)
    } else {
        Ok(())
    }
}

impl ForecastingInput {
    /// Checks: at least two values, a horizon of at least one step, and
    /// `alpha` within `[0, 1]`.
    pub fn validate(&self) -> (r: Result<(), InputError>)
        ensures
            r == forecasting_check(self.values@.len(), self.horizon, self.alpha),
    {
        if self.values.len() < 2 {
            return Err(InputError::TooFewHistoricalValues);
        }
        if self.horizon == 0 {
            return Err(InputError::ZeroHorizon);
        }
        let zero = FloatBits::zero();
        let one = FloatBits::one();
        if !self.alpha.within(&zero, &one) {
            return Err(InputError::AlphaOutOfRange);
        }
        Ok(())
    }
}

/// One forecast step with its interval.
#[derive(Debug, Clone, Copy)]
pub struct ForecastPoint {
    pub step: usize,
    pub value: FloatBits,
    pub lower: FloatBits,
    pub upper: FloatBits,
}

/// The result of forecasting.
#[derive(Debug, Clone)]
pub struct ForecastingOutput {
    pub predictions: Vec<ForecastPoint>,
    pub residual_std: FloatBits,
    pub horizon: usize,
}

/// The forecasting pack.
pub struct ForecastingPack;

impl ForecastingPack {
    /// `"forecasting"`.
    pub fn name(&self) -> (r: &'static str)
        ensures
            r@ == "forecasting"@,
    {
        "forecasting"
    }

    /// `"1.0.0"`.
    pub fn version(&self) -> (r: &'static str)
        ensures
            r@ == "1.0.0"@,
    {
        "1.0.0"
    }

    /// The invariants: `finite-predictions` (critical) and `wide-intervals` (advisory).
    pub fn invariants(&self) -> (r: Vec<InvariantSpec>)
        ensures
            r@.len() == 2,
            r@[0].name@ == "finite-predictions"@,
            r@[0].severity == Severity::Critical,
            r@[1].name@ == "wide-intervals"@,
            r@[1].severity == Severity::Advisory,
    {
        let mut r = Vec::new();
        r.push(
            invariant_spec(
                "finite-predictions",
                "All predicted values must be finite",
                Severity::Critical,
            ),
        );
        r.push(
            invariant_spec(
                "wide-intervals",
                "Confidence intervals exceed 2x the data range — low predictive power",
                Severity::Advisory,
            ),
        );
        r
    }

    /// `finite-predictions`: every value and interval bound is finite.
    pub fn finite_predictions(&self, output: &ForecastingOutput) -> (r: bool)
        ensures
            r == forall|i: int|
                0 <= i < output.predictions@.len() ==> {
                    let p = #[trigger] output.predictions@[i];
                    p.value.spec_finite() && p.lower.spec_finite() && p.upper.spec_finite()
                },
    {
        let n = output.predictions.len();
        let mut i: usize = 0;
        while i < n
            invariant
                n == output.predictions@.len(),
                i <= n,
                forall|j: int|
                    0 <= j < i ==> {
                        let p = #[trigger] output.predictions@[j];
                        p.value.spec_finite() && p.lower.spec_finite() && p.upper.spec_finite()
                    },
            decreases n - i,
        {
            let p = output.predictions[i];
            if !(p.value.is_finite() && p.lower.is_finite() && p.upper.is_finite()) {
                return false;
            }
            i = i + 1;
        }
        true
    }
}

} // verus!
