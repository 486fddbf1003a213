//! Defuzzification settings and what a Mamdani defuzzification samples.
use crate::float_bits::FloatBits;
use crate::fuzzy::tsukamoto::{find_set, set_position_from};
use crate::fuzzy::types::{find_variable, variable_position_from, zero_bits, FuzzySet, LinguisticVariable};
use crate::named::NamedValues;
use crate::text::{dotted, strip_prefix, strip_prefix_spec};
use vstd::prelude::*;

verus! {

/// How a Mamdani output is turned into a crisp value.
#[derive(Debug, Clone, Copy, PartialEq, Eq, Structural)]
pub enum DefuzzMethod {
    Centroid,
    Bisector,
    MeanOfMaxima,
    Height,
}

/// The sampled crisp domain: `steps + 1` points from `min` to `max`.
#[derive(Debug, Clone, Copy, PartialEq, Eq, Structural)]
pub struct Domain {
    pub min: FloatBits,
    pub max: FloatBits,
    pub steps: usize,
}

/// A usable domain: finite bounds, `min < max`, at least one step.
pub open spec fn domain_valid(d: Domain) -> bool {
    d.min.spec_finite() && d.max.spec_finite() && d.min.spec_lt(d.max) && d.steps > 0
}

impl Domain {
    /// A domain from its bounds and step count.
    pub fn new(min: FloatBits, max: FloatBits, steps: usize) -> (r: Domain)
        ensures
            r == (Domain { min, max, steps }),
    {
        Domain { min, max, steps }
    }

    /// Whether the domain can be sampled.
    pub fn is_valid(&self) -> (r: bool)
        ensures
            r == domain_valid(*self),
    {
        self.min.is_finite() && self.max.is_finite() && self.min.lt(&self.max) && self.steps > 0
    }
}

/// The consequents that a defuzzification samples, among the first `n`
/// membership entries: those whose key is `prefix` followed by the name of
/// one of `sets` and whose strength is above zero, as the position of that
/// (first so named) set and the strength, in key order.
pub open spec fn sampled_consequents(
    entries: Seq<(String, FloatBits)>,
    sets: Seq<FuzzySet>,
    prefix: Seq<char>,
    n: nat,
) -> Seq<(usize, FloatBits)>
    decreases n,
{
    if n == 0 {
        Seq::empty()
    } else {
        let prev = sampled_consequents(entries, sets, prefix, (n - 1) as nat);
        let strength = entries[n - 1].1;
        match strip_prefix_spec(entries[n - 1].0@, prefix) {
            Some(rest) => match set_position_from(sets, rest, 0) {
                Some(p) => if zero_bits().spec_lt(strength) {
                    prev.push((p as usize, strength))
                } else {
                    prev
                },
                None => prev,
            },
            None => prev,
        }
    }
}

/// What a Mamdani defuzzification of `output_variable` samples, before any
/// arithmetic: the position of the (first) variable of that name and the
/// consequents of it that fired. There is nothing to sample, and the
/// defuzzification gives no value, when the domain is unusable, no
/// variable has that name, or none of its consequents fired.
pub fn defuzz_consequents(
    memberships: &NamedValues,
    variables: &Vec<LinguisticVariable>,
    output_variable: &str,
    domain: &Domain,
) -> (r: Option<(usize, Vec<(usize, FloatBits)>)>)
    ensures
        r is Some <==> {
            &&& domain_valid(*domain)
            &&& variable_position_from(variables@, output_variable@, 0) matches Some(v)
            &&& sampled_consequents(
                memberships@,
                variables@[v].sets@,
                output_variable@ + seq!['.'],
                memberships@.len(),
            ).len() > 0
        },
        r matches Some(p) ==> {
            &&& variable_position_from(variables@, output_variable@, 0) == Some(p.0 as int)
            &&& p.1@ == sampled_consequents(
                memberships@,
                variables@[p.0 as int].sets@,
                output_variable@ + seq!['.'],
                memberships@.len(),
            )
        },
{
    if !domain.is_valid() {
        return None;
    }
    let v = match find_variable(variables, output_variable) {
        Some(v) => v,
        None => {
            return None;
        },
    };
    let sets = &variables[v].sets;
    let prefix = dotted(output_variable, "");
    proof {
        reveal_strlit("");
        assert(prefix@ =~= output_variable@ + seq!['.']);
    }
    let n = memberships.len();
    let mut picked: Vec<(usize, FloatBits)> = Vec::new();
    let mut i: usize = 0;
    while i < n
        invariant
            n == memberships@.len(),
            i <= n,
            v < variables@.len(),
            sets@ == variables@[v as int].sets@,
            picked@ == sampled_consequents(memberships@, sets@, prefix@, i as nat),
        decreases n - i,
    {
        let key = memberships.name_at(i);
        let strength = memberships.value_at(i);
        let zero = FloatBits::zero();
        assert(zero == zero_bits());
        match strip_prefix(key.as_str(), prefix.as_str()) {
            Some(rest) => match find_set(sets, rest.as_str()) {
                Some(p) => {
                    if zero.lt(&strength) {
                        picked.push((p, strength));
                    }
                },
                None => {},
            },
            None => {},
        }
        i = i + 1;
    }
    if picked.len() == 0 {
        None
    } else {
        Some((v, picked))
    }
}

} // verus!
