//! The fuzzy-inference pack: metadata and plan invariants.
use crate::float_bits::FloatBits;
use crate::fuzzy::types::{one_bits, zero_bits, FuzzyInferenceOutput};
use crate::named::NamedValues;
use crate::packs::common::{invariant_spec, InvariantSpec, Severity};
use vstd::prelude::*;

verus! {

/// A stored degree is usable: finite and within `[0, 1]`.
pub open spec fn degree_ok(v: FloatBits) -> bool {
    v.spec_finite() && v.spec_within(zero_bits(), one_bits())
}

/// Every value of the entries is a usable degree.
pub open spec fn degrees_ok(s: Seq<(String, FloatBits)>) -> bool {
    forall|i: int| 0 <= i < s.len() ==> degree_ok(#[trigger] s[i].1)
}

fn all_degrees_ok(m: &NamedValues) -> (r: bool)
    ensures
        r == degrees_ok(m@),
{
    let zero = FloatBits::zero();
    let one = FloatBits::one();
    let n = m.len();
    let mut i: usize = 0;
    while i < n
        invariant
            n == m@.len(),
            i <= n,
            zero == zero_bits(),
            one == one_bits(),
            forall|j: int| 0 <= j < i ==> degree_ok(#[trigger] m@[j].1),
        decreases n - i,
    {
        let v = m.value_at(i);
        if !(v.is_finite() && v.within(&zero, &one)) {
            return false;
        }
        i = i + 1;
    }
    true
}

/// The fuzzy-inference pack.
pub struct FuzzyInferencePack;

impl FuzzyInferencePack {
    /// `"fuzzy-inference"`.
    pub fn name(&self) -> (r: &'static str)
        ensures
            r@ == "fuzzy-inference"@,
    {
        "fuzzy-inference"
    }

    /// `"1.0.0"`.
    pub fn version(&self) -> (r: &'static str)
        ensures
            r@ == "1.0.0"@,
    {
        "1.0.0"
    }

    /// The invariants: `valid-memberships` (critical) and `rule-activation` (advisory).
    pub fn invariants(&self) -> (r: Vec<InvariantSpec>)
        ensures
            r@.len() == 2,
            r@[0].name@ == "valid-memberships"@,
            r@[0].severity == Severity::Critical,
            r@[1].name@ == "rule-activation"@,
            r@[1].severity == Severity::Advisory,
    {
        let mut r = Vec::new();
        r.push(
            invariant_spec(
                "valid-memberships",
                "All fuzzy memberships must be in [0, 1]",
                Severity::Critical,
            ),
        );
        r.push(
            invariant_spec(
                "rule-activation",
                "No fuzzy rule fired - output carries no active expectation signal",
                Severity::Advisory,
            ),
        );
        r
    }

    /// `valid-memberships`: every output and input membership is finite and
    /// within `[0, 1]`.
    pub fn valid_memberships(&self, output: &FuzzyInferenceOutput) -> (r: bool)
        ensures
            r == (degrees_ok(output.memberships@) && forall|i: int|
                0 <= i < output.input_memberships@.len() ==> degrees_ok(
                    (#[trigger] output.input_memberships@[i]).1@,
                )),
    {
        if !all_degrees_ok(&output.memberships) {
            return false;
        }
        let n = output.input_memberships.len();
        let mut i: usize = 0;
        while i < n
            invariant
                n == output.input_memberships@.len(),
                i <= n,
                degrees_ok(output.memberships@),
                forall|j: int| 0 <= j < i ==> degrees_ok((#[trigger] output.input_memberships@[j]).1@),
            decreases n - i,
        {
            if !all_degrees_ok(&output.input_memberships[i].1) {
                return false;
            }
            i = i + 1;
        }
        true
    }

    /// `rule-activation` passes: some rule fired.
    pub fn rules_fired(&self, output: &FuzzyInferenceOutput) -> (r: bool)
        ensures
            r == (output.activated_rules@.len() > 0),
    {
        output.activated_rules.len() > 0
    }
}

} // verus!
