//! Bounded numbers that the pack inputs carry.
use crate::error::InputError;
use crate::float_bits::FloatBits;
use crate::fuzzy::types::{one_bits, zero_bits};
use vstd::prelude::*;

verus! {

/// A smoothing or probability factor in `[0.0, 1.0]`.
#[derive(Debug, Clone, Copy, PartialEq, Eq, Structural)]
pub struct UnitFraction(FloatBits);

impl View for UnitFraction {
    type V = FloatBits;

    closed spec fn view(&self) -> FloatBits {
        self.0
    }
}

impl UnitFraction {
    #[verifier::type_invariant]
    closed spec fn in_range(self) -> bool {
        self.0.spec_within(zero_bits(), one_bits())
    }

    /// Accepts `v` exactly when `0.0 <= v <= 1.0`.
    pub fn new(v: FloatBits) -> (r: Result<UnitFraction, InputError>)
        ensures
            v.spec_within(zero_bits(), one_bits()) <==> r is Ok,
            r matches Ok(u) ==> u@ == v,
            r matches Err(e) ==> e == (InputError::OutsideUnitInterval { value: v }),
    {
        let zero = FloatBits::zero();
        let one = FloatBits::one();
        if v.within(&zero, &one) {
            Ok(UnitFraction(v))
        } else {
            Err(InputError::OutsideUnitInterval { value: v })
        }
    }

    /// The factor, within `[0.0, 1.0]`.
    pub fn value(self) -> (r: FloatBits)
        ensures
            r == self@,
            r.spec_within(zero_bits(), one_bits()),
    {
        proof {
            use_type_invariant(&self);
        }
        self.0
    }
}

/// A positive z-score threshold (`> 0.0`).
#[derive(Debug, Clone, Copy, PartialEq, Eq, Structural)]
pub struct ZScoreThreshold(FloatBits);

impl View for ZScoreThreshold {
    type V = FloatBits;

    closed spec fn view(&self) -> FloatBits {
        self.0
    }
}

impl ZScoreThreshold {
    #[verifier::type_invariant]
    closed spec fn positive(self) -> bool {
        zero_bits().spec_lt(self.0)
    }

    /// Accepts `v` exactly when `v > 0.0`.
    pub fn new(v: FloatBits) -> (r: Result<ZScoreThreshold, InputError>)
        ensures
            zero_bits().spec_lt(v) <==> r is Ok,
            r matches Ok(t) ==> t@ == v,
            r matches Err(e) ==> e == (InputError::NotPositive { value: v }),
    {
        let zero = FloatBits::zero();
        if v.gt(&zero) {
            Ok(ZScoreThreshold(v))
        } else {
            Err(InputError::NotPositive { value: v })
        }
    }

    /// A threshold from a value known to be above `0.0`.
    pub(crate) fn from_positive(v: FloatBits) -> (r: ZScoreThreshold)
        requires
            zero_bits().spec_lt(v),
        ensures
            r@ == v,
    {
        ZScoreThreshold(v)
    }

    /// The threshold, above `0.0`.
    pub fn value(self) -> (r: FloatBits)
        ensures
            r == self@,
            zero_bits().spec_lt(r),
    {
        proof {
            use_type_invariant(&self);
        }
        self.0
    }
}

} // verus!
