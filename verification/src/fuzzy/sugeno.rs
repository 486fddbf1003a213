//! Sugeno rule bases: constant or linear consequents over the crisp inputs.
use crate::error::{InputError, RuleBase};
use crate::float_bits::FloatBits;
use crate::fuzzy::engine::{default_rule_id_spec, rule_id};
use crate::fuzzy::types::{
    base_check, consequent_of, evaluate_expression, expression_check, expression_degree, is_complement,
    is_consequent, is_strength, one_bits, strength_of, validate_base, validate_expression, zero_bits,
    FuzzyExpression, LinguisticVariable,
};
use crate::named::{lookup, NamedValues};
use crate::text::{is_blank, is_blank_spec};
use vstd::prelude::*;

verus! {

/// A Sugeno consequent.
#[derive(Debug)]
pub enum SugenoFunction {
    Constant { value: FloatBits },
    Linear { intercept: FloatBits, coefficients: NamedValues },
}

/// The first refusal among linear coefficients from position `i` on: blank
/// name, non-finite coefficient, a name that is no crisp input.
pub open spec fn coefficients_check_from(
    coefficients: Seq<(String, FloatBits)>,
    inputs: Seq<(String, FloatBits)>,
    i: int,
) -> Result<(), InputError>
    decreases coefficients.len() - i,
{
    if i < 0 || i >= coefficients.len() {
        Ok(())
    } else {
        let (name, coeff) = coefficients[i];
        if is_blank_spec(name@) {
            Err(InputError::BlankCoefficientName)
        } else if !coeff.spec_finite() {
            Err(InputError::NonFiniteCoefficient { name })
        } else if lookup(inputs, name@) is None {
            Err(InputError::UnknownCoefficientInput { name })
        } else {
            coefficients_check_from(coefficients, inputs, i + 1)
        }
    }
}

/// Whether a linear coefficient passes its checks: a name that is not blank
/// and names a crisp input, and a finite value.
pub open spec fn coefficient_ok(c: (String, FloatBits), inputs: Seq<(String, FloatBits)>) -> bool {
    &&& !is_blank_spec(c.0@)
    &&& c.1.spec_finite()
    &&& lookup(inputs, c.0@) is Some
}

/// The coefficients from position `i` on are accepted exactly when each
/// passes its own checks.
pub proof fn lemma_coefficients_ok(
    coefficients: Seq<(String, FloatBits)>,
    inputs: Seq<(String, FloatBits)>,
    i: int,
)
    requires
        0 <= i <= coefficients.len(),
    ensures
        coefficients_check_from(coefficients, inputs, i) is Ok <==> forall|j: int|
            i <= j < coefficients.len() ==> #[trigger] coefficient_ok(coefficients[j], inputs),
    decreases coefficients.len() - i,
{
    if i < coefficients.len() {
        lemma_coefficients_ok(coefficients, inputs, i + 1);
        assert((forall|j: int| i <= j < coefficients.len() ==> #[trigger] coefficient_ok(coefficients[j], inputs)) <==> (
        coefficient_ok(coefficients[i], inputs) && forall|j: int|
            i + 1 <= j < coefficients.len() ==> #[trigger] coefficient_ok(coefficients[j], inputs))) by {
            if coefficient_ok(coefficients[i], inputs) && (forall|j: int|
                i + 1 <= j < coefficients.len() ==> #[trigger] coefficient_ok(coefficients[j], inputs)) {
                assert forall|j: int| i <= j < coefficients.len() implies #[trigger] coefficient_ok(
                    coefficients[j],
                    inputs,
                ) by {
                    if j == i {
                    }
                }
            }
        }
    }
}

/// The refusal, if any, of a Sugeno consequent.
pub open spec fn sugeno_function_check(f: SugenoFunction, inputs: Seq<(String, FloatBits)>) -> Result<
    (),
    InputError,
> {
    match f {
        SugenoFunction::Constant { value } => {
            if !value.spec_finite() {
                Err(InputError::NonFiniteConstant)
            } else {
                Ok(())
            }
        },
        SugenoFunction::Linear { intercept, coefficients } => {
            if !intercept.spec_finite() {
                Err(InputError::NonFiniteIntercept)
            } else {
                coefficients_check_from(coefficients@, inputs, 0)
            }
        },
    }
}

impl SugenoFunction {
    /// Checks the consequent: finite constants, intercept and coefficients,
    /// non-blank coefficient names that are crisp inputs.
    #[verifier::loop_isolation(false)]
    pub fn validate(&self, inputs: &NamedValues) -> (r: Result<(), InputError>)
        ensures
            r == sugeno_function_check(*self, inputs@),
    {
        match self {
            SugenoFunction::Constant { value } => {
                if !value.is_finite() {
                    return Err(InputError::NonFiniteConstant);
                }
                Ok(())
            },
            SugenoFunction::Linear { intercept, coefficients } => {
                if !intercept.is_finite() {
                    return Err(InputError::NonFiniteIntercept);
                }
                let n = coefficients.len();
                let mut i: usize = 0;
                while i < n
                    invariant
                        n == coefficients@.len(),
                        i <= n,
                        coefficients_check_from(coefficients@, inputs@, 0) == coefficients_check_from(
                            coefficients@,
                            inputs@,
                            i as int,
                        ),
                    decreases n - i,
                {
                    let name = coefficients.name_at(i);
                    let coeff = coefficients.value_at(i);
                    if is_blank(name.as_str()) {
                        return Err(InputError::BlankCoefficientName);
                    }
                    if !coeff.is_finite() {
                        return Err(InputError::NonFiniteCoefficient { name: name.clone() });
                    }
                    if !inputs.contains_key(name.as_str()) {
                        return Err(InputError::UnknownCoefficientInput { name: name.clone() });
                    }
                    i = i + 1;
                }
                Ok(())
            },
        }
    }
}

/// A Sugeno rule.
#[derive(Debug)]
pub struct SugenoRule {
    pub id: Option<String>,
    pub when: FuzzyExpression,
    pub consequent: SugenoFunction,
    pub weight: Option<FloatBits>,
}

/// A rule weight, `1.0` when none is given.
pub open spec fn weight_or_one(w: Option<FloatBits>) -> FloatBits {
    match w {
        Some(w) => w,
        None => one_bits(),
    }
}

/// Whether a rule weight is acceptable: finite and within `[0, 1]`.
pub open spec fn weight_ok(w: FloatBits) -> bool {
    w.spec_within(zero_bits(), one_bits()) && w.spec_finite()
}

impl SugenoRule {
    /// The rule weight, `1.0` when none is given.
    pub fn weight(&self) -> (r: FloatBits)
        ensures
            r == weight_or_one(self.weight),
    {
        match self.weight {
            Some(w) => w,
            None => FloatBits::one(),
        }
    }
}

/// Checks a rule weight: finite and within `[0, 1]`.
pub fn check_weight(w: FloatBits) -> (r: bool)
    ensures
        r == weight_ok(w),
{
    let zero = FloatBits::zero();
    let one = FloatBits::one();
    w.within(&zero, &one) && w.is_finite()
}

/// The first refusal among Sugeno rules from position `i` on.
pub open spec fn sugeno_rules_check_from(
    rules: Seq<SugenoRule>,
    vars: Seq<LinguisticVariable>,
    inputs: Seq<(String, FloatBits)>,
    i: int,
) -> Result<(), InputError>
    decreases rules.len() - i,
{
    if i < 0 || i >= rules.len() {
        Ok(())
    } else {
        let r = rules[i];
        if r.id matches Some(id) && is_blank_spec(id@) {
            Err(InputError::BlankRuleId { rule: i as usize })
        } else if !weight_ok(weight_or_one(r.weight)) {
            Err(InputError::RuleWeight { rule: i as usize })
        } else if expression_check(r.when, vars, inputs) is Err {
            expression_check(r.when, vars, inputs)
        } else if sugeno_function_check(r.consequent, inputs) is Err {
            sugeno_function_check(r.consequent, inputs)
        } else {
            sugeno_rules_check_from(rules, vars, inputs, i + 1)
        }
    }
}

/// The refusal, if any, of a Sugeno rule base.
pub open spec fn sugeno_input_check(
    inputs: Seq<(String, FloatBits)>,
    vars: Seq<LinguisticVariable>,
    rules: Seq<SugenoRule>,
) -> Result<(), InputError> {
    if base_check(inputs, vars, rules.len(), RuleBase::Sugeno) is Err {
        base_check(inputs, vars, rules.len(), RuleBase::Sugeno)
    } else {
        sugeno_rules_check_from(rules, vars, inputs, 0)
    }
}

/// A Sugeno rule base with its crisp inputs.
#[derive(Debug)]
pub struct SugenoInferenceInput {
    pub inputs: NamedValues,
    pub variables: Vec<LinguisticVariable>,
    pub rules: Vec<SugenoRule>,
}

impl SugenoInferenceInput {
    /// Checks the rule base before inference.
    #[verifier::loop_isolation(false)]
    pub fn validate(&self) -> (r: Result<(), InputError>)
        ensures
            r == sugeno_input_check(self.inputs@, self.variables@, self.rules@),
    {
        let b = validate_base(&self.inputs, &self.variables, self.rules.len(), RuleBase::Sugeno);
        if b.is_err() {
            return b;
        }
        let n = self.rules.len();
        let mut i: usize = 0;
        while i < n
            invariant
                n == self.rules@.len(),
                i <= n,
                sugeno_rules_check_from(self.rules@, self.variables@, self.inputs@, 0)
                    == sugeno_rules_check_from(self.rules@, self.variables@, self.inputs@, i as int),
            decreases n - i,
        {
            let rule = &self.rules[i];
            if let Some(id) = &rule.id {
                if is_blank(id.as_str()) {
                    return Err(InputError::BlankRuleId { rule: i });
                }
            }
            if !check_weight(rule.weight()) {
                return Err(InputError::RuleWeight { rule: i });
            }
            let e = validate_expression(&rule.when, &self.variables, &self.inputs);
            if e.is_err() {
                return e;
            }
            let c = rule.consequent.validate(&self.inputs);
            if c.is_err() {
                return c;
            }
            i = i + 1;
        }
        Ok(())
    }
}

/// The id a rule at position `idx` reports: its own, or `rule-{idx + 1}`.
pub open spec fn reported_id(id: Option<String>, idx: nat) -> Seq<char> {
    match id {
        Some(s) => s@,
        None => default_rule_id_spec(idx),
    }
}

/// A rule that fired, as the fold sees it: its position, antecedent degree,
/// weight, firing strength and consequent value.
pub type Firing = (nat, FloatBits, FloatBits, FloatBits, FloatBits);

/// The running maximum of firing strengths, as `f64::max` keeps it.
pub open spec fn max_strength(m: FloatBits, f: FloatBits) -> FloatBits {
    if m.spec_lt(f) {
        f
    } else {
        m
    }
}

/// The Sugeno rules that fire among the first `n`, in order, and the greatest
/// firing strength (from `0.0`), or the first refusal: each rule's
/// antecedent is evaluated, its firing strength is `s` of the degree and the
/// weight, a rule whose strength is at most `0.0` is passed over, and a rule
/// that fires takes its consequent value from `v`, which must be finite.
pub open spec fn sugeno_firings<C, S, V>(
    rules: Seq<SugenoRule>,
    m: Seq<(String, NamedValues)>,
    c: C,
    s: S,
    v: V,
    n: nat,
) -> Result<(Seq<Firing>, FloatBits), InputError> where
    C: Fn(FloatBits) -> FloatBits,
    S: Fn(FloatBits, FloatBits) -> FloatBits,
    V: Fn(usize, FloatBits) -> Result<FloatBits, InputError>,

    decreases n,
{
    if n == 0 {
        Ok((Seq::empty(), zero_bits()))
    } else {
        let i = (n - 1) as nat;
        match sugeno_firings(rules, m, c, s, v, i) {
            Err(e) => Err(e),
            Ok(acc) => match expression_degree(rules[i as int].when, m, c) {
                Err(e) => Err(e),
                Ok(a) => {
                    let w = weight_or_one(rules[i as int].weight);
                    let f = strength_of(s, a, w);
                    if f.spec_le(zero_bits()) {
                        Ok(acc)
                    } else {
                        match consequent_of(v, i as usize, f) {
                            Err(e) => Err(e),
                            Ok(z) => if !z.spec_finite() {
                                Err(InputError::NonFiniteConsequent { rule: i as usize })
                            } else {
                                Ok((acc.0.push((i, a, w, f, z)), max_strength(acc.1, f)))
                            },
                        }
                    }
                },
            },
        }
    }
}

/// A refusal among the first `i` rules is the refusal of the whole fold.
proof fn lemma_sugeno_refusal_stays<C, S, V>(
    rules: Seq<SugenoRule>,
    m: Seq<(String, NamedValues)>,
    c: C,
    s: S,
    v: V,
    i: nat,
    n: nat,
) where
    C: Fn(FloatBits) -> FloatBits,
    S: Fn(FloatBits, FloatBits) -> FloatBits,
    V: Fn(usize, FloatBits) -> Result<FloatBits, InputError>,

    requires
        i <= n,
        sugeno_firings(rules, m, c, s, v, i) is Err,
    ensures
        sugeno_firings(rules, m, c, s, v, n) == sugeno_firings(rules, m, c, s, v, i),
    decreases n,
{
    if n > i {
        lemma_sugeno_refusal_stays(rules, m, c, s, v, i, (n - 1) as nat);
    }
}

/// The reported maximum is the strongest firing: every rule that fires has a
/// strength above `0.0`; no strength that is a number exceeds the maximum;
/// the maximum is a number and is the strength of a rule that fired, or
/// `0.0` when no fired strength is a number.
pub proof fn lemma_sugeno_strongest<C, S, V>(
    rules: Seq<SugenoRule>,
    m: Seq<(String, NamedValues)>,
    c: C,
    s: S,
    v: V,
    n: nat,
) where
    C: Fn(FloatBits) -> FloatBits,
    S: Fn(FloatBits, FloatBits) -> FloatBits,
    V: Fn(usize, FloatBits) -> Result<FloatBits, InputError>,

    ensures
        sugeno_firings(rules, m, c, s, v, n) matches Ok((fired, mx)) ==> {
            &&& !mx.spec_nan()
            &&& forall|j: int| 0 <= j < fired.len() ==> !(#[trigger] fired[j]).3.spec_le(zero_bits())
            &&& forall|j: int|
                0 <= j < fired.len() && !(#[trigger] fired[j]).3.spec_nan() ==> fired[j].3.spec_le(mx)
            &&& (exists|j: int| 0 <= j < fired.len() && (#[trigger] fired[j]).3 == mx) || (mx == zero_bits()
                && forall|j: int| 0 <= j < fired.len() ==> (#[trigger] fired[j]).3.spec_nan())
        },
    decreases n,
{
    if n > 0 {
        let i = (n - 1) as nat;
        lemma_sugeno_strongest(rules, m, c, s, v, i);
        match sugeno_firings(rules, m, c, s, v, i) {
            Ok(acc) => {
                let fired0 = acc.0;
                let mx0 = acc.1;
                match sugeno_firings(rules, m, c, s, v, n) {
                    Ok(res) => {
                        if res.0.len() > fired0.len() {
                            let f = res.0[fired0.len() as int].3;
                            assert(res.0 == fired0.push(res.0[fired0.len() as int]));
                            assert(!f.spec_le(zero_bits()));
                            assert forall|j: int| 0 <= j < res.0.len() && !(#[trigger] res.0[j]).3.spec_nan()
                                implies res.0[j].3.spec_le(res.1) by {
                                if j < fired0.len() {
                                    assert(res.0[j] == fired0[j]);
                                }
                            }
                            if mx0.spec_lt(f) {
                                assert(res.0[fired0.len() as int].3 == res.1);
                            } else {
                                assert(res.1 == mx0);
                                if exists|j: int| 0 <= j < fired0.len() && (#[trigger] fired0[j]).3 == mx0 {
                                    let j = choose|j: int| 0 <= j < fired0.len() && (#[trigger] fired0[j]).3 == mx0;
                                    assert(res.0[j] == fired0[j]);
                                } else {
                                    assert(f.spec_nan());
                                    assert forall|j: int| 0 <= j < res.0.len() implies (#[trigger] res.0[j]).3.spec_nan() by {
                                        if j < fired0.len() {
                                            assert(res.0[j] == fired0[j]);
                                        }
                                    }
                                }
                            }
                        } else {
                            assert(res == acc);
                        }
                    },
                    Err(_) => {},
                }
            },
            Err(_) => {},
        }
    }
}

/// The rules that fire are exactly those whose strength is above `0.0`: each
/// firing is a rule among the first `n`, in increasing order, with its
/// antecedent degree, its weight, and `s` of the two as its strength; and
/// every rule whose antecedent has a degree and whose strength is above `0.0`
/// fires.
pub proof fn lemma_sugeno_fires_positive<C, S, V>(
    rules: Seq<SugenoRule>,
    m: Seq<(String, NamedValues)>,
    c: C,
    s: S,
    v: V,
    n: nat,
) where
    C: Fn(FloatBits) -> FloatBits,
    S: Fn(FloatBits, FloatBits) -> FloatBits,
    V: Fn(usize, FloatBits) -> Result<FloatBits, InputError>,

    requires
        n <= rules.len(),
    ensures
        sugeno_firings(rules, m, c, s, v, n) matches Ok((fired, mx)) ==> {
            &&& forall|j: int|
                0 <= j < fired.len() ==> {
                    let f = #[trigger] fired[j];
                    &&& f.0 < n
                    &&& expression_degree(rules[f.0 as int].when, m, c) == Ok::<FloatBits, InputError>(f.1)
                    &&& f.2 == weight_or_one(rules[f.0 as int].weight)
                    &&& f.3 == strength_of(s, f.1, f.2)
                    &&& consequent_of(v, f.0 as usize, f.3) == Ok::<FloatBits, InputError>(f.4)
                    &&& f.4.spec_finite()
                }
            &&& forall|j1: int, j2: int|
                0 <= j1 < j2 < fired.len() ==> (#[trigger] fired[j1]).0 < (#[trigger] fired[j2]).0
            &&& forall|i: int|
                0 <= i < n && (#[trigger] expression_degree(rules[i].when, m, c)) is Ok && !strength_of(
                    s,
                    expression_degree(rules[i].when, m, c)->Ok_0,
                    weight_or_one(rules[i].weight),
                ).spec_le(zero_bits()) ==> exists|j: int| 0 <= j < fired.len() && (#[trigger] fired[j]).0 == i
        },
    decreases n,
{
    if n > 0 {
        let i = (n - 1) as nat;
        lemma_sugeno_fires_positive(rules, m, c, s, v, i);
        match sugeno_firings(rules, m, c, s, v, i) {
            Ok(acc) => {
                let before = acc.0;
                match sugeno_firings(rules, m, c, s, v, n) {
                    Ok(res) => {
                        let now = res.0;
                        assert forall|j: int| 0 <= j < before.len() implies #[trigger] now[j] == before[j] by {
                            if now.len() > before.len() {
                                assert(now == before.push(now[before.len() as int]));
                            } else {
                                assert(now == before);
                            }
                        }
                        assert forall|j1: int, j2: int| 0 <= j1 < j2 < now.len() implies (#[trigger] now[j1]).0
                            < (#[trigger] now[j2]).0 by {
                            assert(now[j1] == before[j1]);
                            if j2 < before.len() {
                                assert(now[j2] == before[j2]);
                            }
                        }
                        assert forall|k: int|
                            0 <= k < n && (#[trigger] expression_degree(rules[k].when, m, c)) is Ok
                                && !strength_of(s, expression_degree(rules[k].when, m, c)->Ok_0, weight_or_one(rules[k].weight)).spec_le(zero_bits())
                                implies exists|j: int| 0 <= j < now.len() && (#[trigger] now[j]).0 == k by {
                            if k < i {
                                let j = choose|j: int| 0 <= j < before.len() && (#[trigger] before[j]).0 == k;
                                assert(now[j] == before[j]);
                            } else {
                                assert(now[before.len() as int].0 == k);
                            }
                        }
                    },
                    Err(_) => {},
                }
            },
            Err(_) => {},
        }
    }
}

/// A Sugeno rule that fired.
#[derive(Debug, Clone)]
pub struct SugenoActivatedRule {
    pub id: String,
    pub antecedent_strength: FloatBits,
    pub weight: FloatBits,
    pub firing_strength: FloatBits,
    pub consequent_value: FloatBits,
}

/// Whether `rec` reports the firing `f` of a rule with id `id`.
pub open spec fn sugeno_record(rec: SugenoActivatedRule, id: Option<String>, f: Firing) -> bool {
    &&& rec.id@ == reported_id(id, f.0)
    &&& rec.antecedent_strength == f.1
    &&& rec.weight == f.2
    &&& rec.firing_strength == f.3
    &&& rec.consequent_value == f.4
}

/// The rules that fired and the greatest firing strength.
#[derive(Debug, Clone)]
pub struct SugenoActivation {
    pub activated_rules: Vec<SugenoActivatedRule>,
    pub max_firing_strength: FloatBits,
}

impl SugenoActivation {
    /// The confidence of the inference: the greatest firing strength when the
    /// rules give an output, `0.0` when they give none.
    pub fn confidence(&self, has_output: bool) -> (r: FloatBits)
        ensures
            has_output ==> r == self.max_firing_strength,
            !has_output ==> r == zero_bits(),
    {
        if has_output {
            self.max_firing_strength
        } else {
            FloatBits::zero()
        }
    }
}

/// The Sugeno engine: the weighted average of the consequents of the rules
/// that fire.
pub struct SugenoInferenceEngine;

impl SugenoInferenceEngine {
    /// Fires the rules in order over the evaluated memberships: `complement`
    /// is the fuzzy `not`, `strength` the firing strength of a degree and a
    /// weight, and `consequent` the consequent value of a rule at a strength.
    pub fn activate<C, S, V>(
        &self,
        input: &SugenoInferenceInput,
        memberships: &Vec<(String, NamedValues)>,
        complement: &C,
        strength: &S,
        consequent: &V,
    ) -> (r: Result<SugenoActivation, InputError>) where
        C: Fn(FloatBits) -> FloatBits,
        S: Fn(FloatBits, FloatBits) -> FloatBits,
        V: Fn(usize, FloatBits) -> Result<FloatBits, InputError>,

        requires
            is_complement(*complement),
            is_strength(*strength),
            is_consequent(*consequent),
            input.rules@.len() < usize::MAX,
        ensures
            match (r, sugeno_firings(input.rules@, memberships@, *complement, *strength, *consequent, input.rules@.len())) {
                (Ok(act), Ok(fired)) => {
                    &&& act.activated_rules@.len() == fired.0.len()
                    &&& act.max_firing_strength == fired.1
                    &&& forall|j: int|
                        0 <= j < fired.0.len() ==> sugeno_record(
                            #[trigger] act.activated_rules@[j],
                            input.rules@[fired.0[j].0 as int].id,
                            fired.0[j],
                        )
                },
                (Err(e), Err(e2)) => e == e2,
                _ => false,
            },
            r matches Ok(act) ==> {
                &&& !act.max_firing_strength.spec_nan()
                &&& forall|j: int|
                    0 <= j < act.activated_rules@.len() ==> !(#[trigger] act.activated_rules@[j]).firing_strength.spec_le(
                        zero_bits(),
                    )
                &&& forall|j: int|
                    0 <= j < act.activated_rules@.len() && !(#[trigger] act.activated_rules@[j]).firing_strength.spec_nan()
                        ==> act.activated_rules@[j].firing_strength.spec_le(act.max_firing_strength)
                &&& (exists|j: int|
                    0 <= j < act.activated_rules@.len() && (#[trigger] act.activated_rules@[j]).firing_strength
                        == act.max_firing_strength) || (act.max_firing_strength == zero_bits() && forall|j: int|
                    0 <= j < act.activated_rules@.len() ==> (#[trigger] act.activated_rules@[j]).firing_strength.spec_nan())
            },
    {
        let n = input.rules.len();
        let mut activated: Vec<SugenoActivatedRule> = Vec::new();
        let mut max = FloatBits::zero();
        let ghost mut fired: Seq<Firing> = Seq::empty();
        let mut i: usize = 0;
        while i < n
            invariant
                n == input.rules@.len(),
                n < usize::MAX,
                i <= n,
                is_complement(*complement),
                is_strength(*strength),
                is_consequent(*consequent),
                sugeno_firings(input.rules@, memberships@, *complement, *strength, *consequent, i as nat)
                    == Ok::<(Seq<Firing>, FloatBits), InputError>((fired, max)),
                activated@.len() == fired.len(),
                forall|j: int| 0 <= j < fired.len() ==> #[trigger] fired[j].0 < i,
                forall|j: int|
                    0 <= j < fired.len() ==> sugeno_record(
                        #[trigger] activated@[j],
                        input.rules@[fired[j].0 as int].id,
                        fired[j],
                    ),
            decreases n - i,
        {
            let rule = &input.rules[i];
            let a = match evaluate_expression(&rule.when, memberships, complement) {
                Ok(d) => d.value(),
                Err(e) => {
                    proof {
                        lemma_sugeno_refusal_stays(
                            input.rules@, memberships@, *complement, *strength, *consequent, (i + 1) as nat, n as nat,
                        );
                    }
                    return Err(e);
                },
            };
            let w = rule.weight();
            let f = strength(a, w);
            let zero = FloatBits::zero();
            if !f.le(&zero) {
                let z = match consequent(i, f) {
                    Ok(z) => z,
                    Err(e) => {
                        proof {
                            lemma_sugeno_refusal_stays(
                                input.rules@, memberships@, *complement, *strength, *consequent, (i + 1) as nat, n as nat,
                            );
                        }
                        return Err(e);
                    },
                };
                if !z.is_finite() {
                    proof {
                        lemma_sugeno_refusal_stays(
                            input.rules@, memberships@, *complement, *strength, *consequent, (i + 1) as nat, n as nat,
                        );
                    }
                    return Err(InputError::NonFiniteConsequent { rule: i });
                }
                let id = rule_id(&rule.id, i);
                assert(id@ == reported_id(rule.id, i as nat));
                let ghost before = activated@;
                let ghost fired_before = fired;
                activated.push(
                    SugenoActivatedRule {
                        id,
                        antecedent_strength: a,
                        weight: w,
                        firing_strength: f,
                        consequent_value: z,
                    },
                );
                proof {
                    fired = fired.push((i as nat, a, w, f, z));
                    assert forall|j: int| 0 <= j < fired.len() implies #[trigger] fired[j].0 < i + 1 && sugeno_record(
                        activated@[j],
                        input.rules@[fired[j].0 as int].id,
                        fired[j],
                    ) by {
                        if j < fired_before.len() {
                            assert(activated@[j] == before[j]);
                            assert(fired[j] == fired_before[j]);
                        }
                    }
                }
                if max.lt(&f) {
                    max = f;
                }
            }
            i = i + 1;
        }
        proof {
            lemma_sugeno_strongest(input.rules@, memberships@, *complement, *strength, *consequent, n as nat);
            assert forall|j: int| 0 <= j < activated@.len() implies (#[trigger] activated@[j]).firing_strength
                == fired[j].3 by {
                assert(sugeno_record(activated@[j], input.rules@[fired[j].0 as int].id, fired[j]));
            }
            if exists|j: int| 0 <= j < fired.len() && (#[trigger] fired[j]).3 == max {
                let j = choose|j: int| 0 <= j < fired.len() && (#[trigger] fired[j]).3 == max;
                assert(activated@[j].firing_strength == max);
            }
        }
        Ok(SugenoActivation { activated_rules: activated, max_firing_strength: max })
    }
}

/// Whether a Sugeno rule passes its checks: an id, when given, that is not
/// blank; a weight finite and in `[0, 1]`; an antecedent over known variables
/// and sets; a consequent with finite numbers over the crisp inputs.
pub open spec fn sugeno_rule_ok(r: SugenoRule, vars: Seq<LinguisticVariable>, inputs: Seq<(String, FloatBits)>) -> bool {
    &&& !(r.id matches Some(id) && is_blank_spec(id@))
    &&& weight_ok(weight_or_one(r.weight))
    &&& expression_check(r.when, vars, inputs) is Ok
    &&& sugeno_function_check(r.consequent, inputs) is Ok
}

/// The Sugeno rules from position `i` on are accepted exactly when each passes
/// its own checks.
pub proof fn lemma_sugeno_rules_ok(
    rules: Seq<SugenoRule>,
    vars: Seq<LinguisticVariable>,
    inputs: Seq<(String, FloatBits)>,
    i: int,
)
    requires
        0 <= i <= rules.len(),
    ensures
        sugeno_rules_check_from(rules, vars, inputs, i) is Ok <==> forall|j: int|
            i <= j < rules.len() ==> #[trigger] sugeno_rule_ok(rules[j], vars, inputs),
    decreases rules.len() - i,
{
    if i < rules.len() {
        lemma_sugeno_rules_ok(rules, vars, inputs, i + 1);
        assert((forall|j: int| i <= j < rules.len() ==> #[trigger] sugeno_rule_ok(rules[j], vars, inputs)) <==> (sugeno_rule_ok(rules[i], vars, inputs) && forall|j: int|
            i + 1 <= j < rules.len() ==> #[trigger] sugeno_rule_ok(rules[j], vars, inputs))) by {
            if sugeno_rule_ok(rules[i], vars, inputs) && (forall|j: int| i + 1 <= j < rules.len() ==> #[trigger] sugeno_rule_ok(rules[j], vars, inputs)) {
                assert forall|j: int| i <= j < rules.len() implies #[trigger] sugeno_rule_ok(rules[j], vars, inputs) by {
                    if j == i {
                    }
                }
            }
        }
    }
}

} // verus!
