//! Membership functions, linguistic variables, rule expressions, the checks a
//! fuzzy rule base must pass before inference, and the degree of an antecedent.
use crate::error::{InputError, RuleBase};
use crate::float_bits::FloatBits;
use crate::fuzzy::sugeno::{check_weight, weight_ok, weight_or_one};
use crate::named::{lookup, NamedValues};
use crate::text::{dotted, is_blank, is_blank_spec, text_eq};
use vstd::prelude::*;

verus! {

/// `0.0` as a binary64 pattern.
pub open spec fn zero_bits() -> FloatBits {
    FloatBits { bits: 0 }
}

/// `1.0` as a binary64 pattern.
pub open spec fn one_bits() -> FloatBits {
    FloatBits { bits: 0x3ff0_0000_0000_0000u64 }
}

/// The degree a number is clamped to: `v.clamp(0.0, 1.0)` for a number, and
/// `0.0` for a NaN, so that every degree lies in `[0, 1]`.
pub open spec fn clamp_unit(v: FloatBits) -> FloatBits {
    if v.spec_nan() {
        zero_bits()
    } else if v.spec_lt(zero_bits()) {
        zero_bits()
    } else if one_bits().spec_lt(v) {
        one_bits()
    } else {
        v
    }
}

/// A clamped degree lies in `[0, 1]`, a number already in `[0, 1]` is its own
/// degree, and clamping twice changes nothing.
pub proof fn lemma_clamped_degree(v: FloatBits)
    ensures
        clamp_unit(v).spec_within(zero_bits(), one_bits()),
        v.spec_within(zero_bits(), one_bits()) ==> clamp_unit(v) == v,
        clamp_unit(clamp_unit(v)) == clamp_unit(v),
{
}

/// A fuzzy membership degree, always in `[0.0, 1.0]`: [`MembershipDegree::new`]
/// clamps into that range, a NaN becoming `0.0`.
#[derive(Debug, Clone, Copy, PartialEq, Eq, Structural)]
pub struct MembershipDegree(pub(crate) FloatBits);

impl View for MembershipDegree {
    type V = FloatBits;

    closed spec fn view(&self) -> FloatBits {
        self.0
    }
}

impl MembershipDegree {
    #[verifier::type_invariant]
    closed spec fn in_unit(self) -> bool {
        self.0.spec_within(zero_bits(), one_bits())
    }

    /// `MembershipDegree::new(v)`: `v` clamped into `[0.0, 1.0]`, a NaN
    /// giving `0.0`.
    pub fn new(v: FloatBits) -> (r: MembershipDegree)
        ensures
            r@ == clamp_unit(v),
    {
        let zero = FloatBits::zero();
        let one = FloatBits::one();
        if v.is_nan() {
            MembershipDegree(zero)
        } else {
            MembershipDegree(v.clamp(&zero, &one))
        }
    }

    /// The degree as a binary64 number, within `[0.0, 1.0]`.
    pub fn value(self) -> (r: FloatBits)
        ensures
            r == self@,
            r.spec_within(zero_bits(), one_bits()),
    {
        proof {
            use_type_invariant(&self);
        }
        self.0
    }

    /// The degree `0.0`.
    pub fn zero() -> (r: MembershipDegree)
        ensures
            r@ == zero_bits(),
    {
        MembershipDegree(FloatBits::zero())
    }

    /// The degree `1.0`.
    pub fn one() -> (r: MembershipDegree)
        ensures
            r@ == one_bits(),
    {
        MembershipDegree(FloatBits::one())
    }

    /// The degree `v`, already in `[0.0, 1.0]`.
    pub(crate) fn from_unit(v: FloatBits) -> (r: MembershipDegree)
        requires
            v.spec_within(zero_bits(), one_bits()),
        ensures
            r@ == v,
    {
        MembershipDegree(v)
    }
}

/// The degree a number is clamped to, as a `MembershipDegree`.
pub closed spec fn degree_of(v: FloatBits) -> MembershipDegree {
    MembershipDegree(clamp_unit(v))
}

/// The degree of `v` has the clamped `v` as its value, and a degree whose
/// value is the clamped `v` is the degree of `v`.
pub proof fn lemma_degree_of(d: MembershipDegree, v: FloatBits)
    ensures
        degree_of(v)@ == clamp_unit(v),
        d@ == clamp_unit(v) ==> d == degree_of(v),
{
}

/// A membership function over a crisp domain.
#[derive(Debug, Clone, Copy, PartialEq, Eq, Structural)]
pub enum MembershipFunction {
    Triangular { min: FloatBits, peak: FloatBits, max: FloatBits },
    Trapezoidal { min: FloatBits, lower_peak: FloatBits, upper_peak: FloatBits, max: FloatBits },
    LeftShoulder { start: FloatBits, end: FloatBits },
    RightShoulder { start: FloatBits, end: FloatBits },
    Gaussian { center: FloatBits, sigma: FloatBits },
}

/// The refusal, if any, of a membership function's parameters.
pub open spec fn membership_check(f: MembershipFunction) -> Result<(), InputError> {
    match f {
        MembershipFunction::Triangular { min, peak, max } => {
            if !(min.spec_finite() && peak.spec_finite() && max.spec_finite()) {
                Err(InputError::NonFiniteBounds)
            } else if !(min.spec_lt(peak) && peak.spec_lt(max)) {
                Err(InputError::TriangularOrder)
            } else {
                Ok(())
            }
        },
        MembershipFunction::Trapezoidal { min, lower_peak, upper_peak, max } => {
            if !(min.spec_finite() && lower_peak.spec_finite() && upper_peak.spec_finite()
                && max.spec_finite()) {
                Err(InputError::NonFiniteBounds)
            } else if !(min.spec_lt(lower_peak) && lower_peak.spec_le(upper_peak) && upper_peak.spec_lt(
                max,
            )) {
                Err(InputError::TrapezoidalOrder)
            } else {
                Ok(())
            }
        },
        MembershipFunction::LeftShoulder { start, end }
        | MembershipFunction::RightShoulder { start, end } => {
            if !(start.spec_finite() && end.spec_finite()) {
                Err(InputError::NonFiniteBounds)
            } else if end.spec_le(start) {
                Err(InputError::ShoulderOrder)
            } else {
                Ok(())
            }
        },
        MembershipFunction::Gaussian { center, sigma } => {
            if !(center.spec_finite() && sigma.spec_finite()) {
                Err(InputError::NonFiniteBounds)
            } else if sigma.spec_le(zero_bits()) {
                Err(InputError::NonPositiveSigma)
            } else {
                Ok(())
            }
        },
    }
}

/// Monotonic shapes: the shoulders.
pub open spec fn is_monotonic_spec(f: MembershipFunction) -> bool {
    f is LeftShoulder || f is RightShoulder
}

/// When the inverse of `f` at `target` is refused: a target that is not a
/// finite number in `[0, 1]`, then a shape that is not monotonic.
pub open spec fn inverse_check(f: MembershipFunction, target: FloatBits) -> Result<(), InputError> {
    if !(target.spec_finite() && target.spec_within(zero_bits(), one_bits())) {
        Err(InputError::InverseTarget)
    } else if !is_monotonic_spec(f) {
        Err(InputError::InverseNotMonotonic)
    } else {
        Ok(())
    }
}

impl MembershipFunction {
    /// Whether the inverse `x` with `μ(x) = target` is defined: the target
    /// must be a finite membership in `[0, 1]` and the shape a shoulder. The
    /// crisp value itself is `end - target × (end - start)` for a left
    /// shoulder and `start + target × (end - start)` for a right one.
    pub fn check_inverse(&self, target: FloatBits) -> (r: Result<(), InputError>)
        ensures
            r == inverse_check(*self, target),
    {
        let zero = FloatBits::zero();
        let one = FloatBits::one();
        if !(target.is_finite() && target.within(&zero, &one)) {
            return Err(InputError::InverseTarget);
        }
        if !self.is_monotonic() {
            return Err(InputError::InverseNotMonotonic);
        }
        Ok(())
    }

    /// Whether this membership function is monotonic over its support, so
    /// that a firing strength inverts to a unique crisp value.
    pub fn is_monotonic(&self) -> (r: bool)
        ensures
            r == is_monotonic_spec(*self),
    {
        match self {
            MembershipFunction::LeftShoulder { .. } | MembershipFunction::RightShoulder { .. } => true,
            _ => false,
        }
    }

    /// Checks the parameters: all finite, and ordered as the shape needs
    /// (`min < peak < max`; `min < lower_peak <= upper_peak < max`;
    /// `start < end`; `sigma > 0`).
    pub fn validate(&self) -> (r: Result<(), InputError>)
        ensures
            r == membership_check(*self),
    {
        let zero = FloatBits::zero();
        match *self {
            MembershipFunction::Triangular { min, peak, max } => {
                if !(min.is_finite() && peak.is_finite() && max.is_finite()) {
                    return Err(InputError::NonFiniteBounds);
                }
                if !(min.lt(&peak) && peak.lt(&max)) {
                    return Err(InputError::TriangularOrder);
                }
            },
            MembershipFunction::Trapezoidal { min, lower_peak, upper_peak, max } => {
                if !(min.is_finite() && lower_peak.is_finite() && upper_peak.is_finite()
                    && max.is_finite()) {
                    return Err(InputError::NonFiniteBounds);
                }
                if !(min.lt(&lower_peak) && lower_peak.le(&upper_peak) && upper_peak.lt(&max)) {
                    return Err(InputError::TrapezoidalOrder);
                }
            },
            MembershipFunction::LeftShoulder { start, end }
            | MembershipFunction::RightShoulder { start, end } => {
                if !(start.is_finite() && end.is_finite()) {
                    return Err(InputError::NonFiniteBounds);
                }
                if start.ge(&end) {
                    return Err(InputError::ShoulderOrder);
                }
            },
            MembershipFunction::Gaussian { center, sigma } => {
                if !(center.is_finite() && sigma.is_finite()) {
                    return Err(InputError::NonFiniteBounds);
                }
                if sigma.le(&zero) {
                    return Err(InputError::NonPositiveSigma);
                }
            },
        }
        Ok(())
    }
}

/// A named fuzzy set of a linguistic variable.
#[derive(Debug, Clone)]
pub struct FuzzySet {
    pub name: String,
    pub function: MembershipFunction,
}

/// A linguistic variable and its fuzzy sets.
#[derive(Debug, Clone)]
pub struct LinguisticVariable {
    pub name: String,
    pub sets: Vec<FuzzySet>,
}

/// A rule antecedent.
#[derive(Debug)]
pub enum FuzzyExpression {
    Is { variable: String, set: String },
    And { terms: Vec<FuzzyExpression> },
    Or { terms: Vec<FuzzyExpression> },
    Not { term: Box<FuzzyExpression> },
}

/// The consequent `variable is set` of a Mamdani rule.
#[derive(Debug, Clone)]
pub struct FuzzyConsequent {
    pub variable: String,
    pub set: String,
}

impl FuzzyConsequent {
    /// The membership key `"{variable}.{set}"`.
    pub fn key(&self) -> (r: String)
        ensures
            r@ == self.variable@ + seq!['.'] + self.set@,
    {
        dotted(self.variable.as_str(), self.set.as_str())
    }
}

/// A Mamdani rule: antecedent, consequent, optional id and weight.
#[derive(Debug)]
pub struct FuzzyRule {
    pub id: Option<String>,
    pub when: FuzzyExpression,
    pub consequent: FuzzyConsequent,
    pub weight: Option<FloatBits>,
}

impl FuzzyRule {
    /// The rule weight as a degree, `1.0` when none is given. A weight that
    /// the rule-base check accepts is its own degree.
    pub fn weight(&self) -> (r: MembershipDegree)
        ensures
            r@ == clamp_unit(weight_or_one(self.weight)),
            weight_ok(weight_or_one(self.weight)) ==> r@ == weight_or_one(self.weight),
    {
        match self.weight {
            Some(w) => MembershipDegree::new(w),
            None => MembershipDegree::one(),
        }
    }
}

/// Whether some variable is called `name`.
pub open spec fn has_variable(vars: Seq<LinguisticVariable>, name: Seq<char>) -> bool {
    exists|i: int| 0 <= i < vars.len() && #[trigger] vars[i].name@ == name
}

/// Whether a variable called `variable` has a set called `set`.
pub open spec fn has_set(vars: Seq<LinguisticVariable>, variable: Seq<char>, set: Seq<char>) -> bool {
    exists|i: int, j: int|
        0 <= i < vars.len() && #[trigger] vars[i].name@ == variable && 0 <= j < vars[i].sets@.len()
            && #[trigger] vars[i].sets@[j].name@ == set
}

/// The refusal, if any, of a reference to set `set` of variable `variable`.
pub open spec fn variable_set_check(
    variable: String,
    set: String,
    vars: Seq<LinguisticVariable>,
) -> Result<(), InputError> {
    if !has_variable(vars, variable@) {
        Err(InputError::UnknownVariable { name: variable })
    } else if !has_set(vars, variable@, set@) {
        Err(InputError::UnknownSet { set, variable })
    } else {
        Ok(())
    }
}

/// The first refusal among the sets of `variable` from position `i` on:
/// blank name, repeated name, bad membership function.
pub open spec fn sets_check_from(variable: String, sets: Seq<FuzzySet>, i: int) -> Result<
    (),
    InputError,
>
    decreases sets.len() - i,
{
    if i < 0 || i >= sets.len() {
        Ok(())
    } else {
        let s = sets[i];
        if is_blank_spec(s.name@) {
            Err(InputError::BlankSetName { variable })
        } else if exists|j: int| 0 <= j < i && #[trigger] sets[j].name@ == s.name@ {
            Err(InputError::DuplicateSet { set: s.name, variable })
        } else if membership_check(s.function) is Err {
            membership_check(s.function)
        } else {
            sets_check_from(variable, sets, i + 1)
        }
    }
}

/// The first refusal among the variables from position `i` on: blank name,
/// repeated name, no sets, or a refusal among its sets.
pub open spec fn variables_check_from(vars: Seq<LinguisticVariable>, i: int) -> Result<
    (),
    InputError,
>
    decreases vars.len() - i,
{
    if i < 0 || i >= vars.len() {
        Ok(())
    } else {
        let v = vars[i];
        if is_blank_spec(v.name@) {
            Err(InputError::BlankVariableName)
        } else if exists|j: int| 0 <= j < i && #[trigger] vars[j].name@ == v.name@ {
            Err(InputError::DuplicateVariable { name: v.name })
        } else if v.sets@.len() == 0 {
            Err(InputError::VariableWithoutSets { name: v.name })
        } else if sets_check_from(v.name, v.sets@, 0) is Err {
            sets_check_from(v.name, v.sets@, 0)
        } else {
            variables_check_from(vars, i + 1)
        }
    }
}

/// The refusal, if any, of an antecedent: unknown variable or set, a
/// variable without crisp input, an empty `and`/`or`.
pub open spec fn expression_check(
    e: FuzzyExpression,
    vars: Seq<LinguisticVariable>,
    inputs: Seq<(String, FloatBits)>,
) -> Result<(), InputError>
    decreases e,
{
    match e {
        FuzzyExpression::Is { variable, set } => {
            if variable_set_check(variable, set, vars) is Err {
                variable_set_check(variable, set, vars)
            } else if lookup(inputs, variable@) is None {
                Err(InputError::MissingCrispInput { variable })
            } else {
                Ok(())
            }
        },
        FuzzyExpression::And { terms } => {
            if terms@.len() == 0 {
                Err(InputError::EmptyTerms)
            } else {
                terms_check(terms@, vars, inputs)
            }
        },
        FuzzyExpression::Or { terms } => {
            if terms@.len() == 0 {
                Err(InputError::EmptyTerms)
            } else {
                terms_check(terms@, vars, inputs)
            }
        },
        FuzzyExpression::Not { term } => expression_check(*term, vars, inputs),
    }
}

/// The first refusal among a list of antecedent terms.
pub open spec fn terms_check(
    terms: Seq<FuzzyExpression>,
    vars: Seq<LinguisticVariable>,
    inputs: Seq<(String, FloatBits)>,
) -> Result<(), InputError>
    decreases terms,
{
    if terms.len() == 0 {
        Ok(())
    } else if expression_check(terms[0], vars, inputs) is Err {
        expression_check(terms[0], vars, inputs)
    } else {
        terms_check(terms.drop_first(), vars, inputs)
    }
}

/// The refusal, if any, of the crisp inputs themselves: a blank name or a
/// value that is not finite.
pub open spec fn crisp_inputs_check(inputs: Seq<(String, FloatBits)>) -> Result<(), InputError> {
    if exists|i: int|
        0 <= i < inputs.len() && (is_blank_spec(#[trigger] inputs[i].0@) || !inputs[i].1.spec_finite()) {
        Err(InputError::InvalidCrispInput)
    } else {
        Ok(())
    }
}

/// The first crisp input, from position `i` on, that names no variable.
pub open spec fn inputs_defined_from(
    inputs: Seq<(String, FloatBits)>,
    vars: Seq<LinguisticVariable>,
    i: int,
) -> Result<(), InputError>
    decreases inputs.len() - i,
{
    if i < 0 || i >= inputs.len() {
        Ok(())
    } else if !has_variable(vars, inputs[i].0@) {
        Err(InputError::UndefinedInputVariable { name: inputs[i].0 })
    } else {
        inputs_defined_from(inputs, vars, i + 1)
    }
}

/// The refusal, if any, of the rule-independent part of a rule base: no
/// inputs, no variables, no rules, bad inputs, bad variables, inputs that
/// name no variable, in that order.
pub open spec fn base_check(
    inputs: Seq<(String, FloatBits)>,
    vars: Seq<LinguisticVariable>,
    rule_count: nat,
    base: RuleBase,
) -> Result<(), InputError> {
    if inputs.len() == 0 {
        Err(InputError::NoCrispInputs)
    } else if vars.len() == 0 {
        Err(InputError::NoVariables)
    } else if rule_count == 0 {
        Err(InputError::NoRules { base })
    } else if crisp_inputs_check(inputs) is Err {
        crisp_inputs_check(inputs)
    } else if variables_check_from(vars, 0) is Err {
        variables_check_from(vars, 0)
    } else {
        inputs_defined_from(inputs, vars, 0)
    }
}

/// The first refusal among Mamdani rules from position `i` on: blank id,
/// weight that is not finite or not in `[0, 1]`, bad antecedent, bad
/// consequent.
pub open spec fn fuzzy_rules_check_from(
    rules: Seq<FuzzyRule>,
    vars: Seq<LinguisticVariable>,
    inputs: Seq<(String, FloatBits)>,
    i: int,
) -> Result<(), InputError>
    decreases rules.len() - i,
{
    if i < 0 || i >= rules.len() {
        Ok(())
    } else {
        let r = rules[i];
        if r.id matches Some(id) && is_blank_spec(id@) {
            Err(InputError::BlankRuleId { rule: i as usize })
        } else if r.weight matches Some(w) && !weight_ok(w) {
            Err(InputError::RuleWeight { rule: i as usize })
        } else if expression_check(r.when, vars, inputs) is Err {
            expression_check(r.when, vars, inputs)
        } else if variable_set_check(r.consequent.variable, r.consequent.set, vars) is Err {
            variable_set_check(r.consequent.variable, r.consequent.set, vars)
        } else {
            fuzzy_rules_check_from(rules, vars, inputs, i + 1)
        }
    }
}

/// The refusal, if any, of a Mamdani rule base.
pub open spec fn fuzzy_input_check(
    inputs: Seq<(String, FloatBits)>,
    vars: Seq<LinguisticVariable>,
    rules: Seq<FuzzyRule>,
) -> Result<(), InputError> {
    if base_check(inputs, vars, rules.len(), RuleBase::Fuzzy) is Err {
        base_check(inputs, vars, rules.len(), RuleBase::Fuzzy)
    } else {
        fuzzy_rules_check_from(rules, vars, inputs, 0)
    }
}

/// A Mamdani rule base with its crisp inputs.
#[derive(Debug)]
pub struct FuzzyInferenceInput {
    pub inputs: NamedValues,
    pub variables: Vec<LinguisticVariable>,
    pub rules: Vec<FuzzyRule>,
}

impl FuzzyInferenceInput {
    /// Checks the rule base before inference.
    #[verifier::loop_isolation(false)]
    pub fn validate(&self) -> (r: Result<(), InputError>)
        ensures
            r == fuzzy_input_check(self.inputs@, self.variables@, self.rules@),
    {
        let b = validate_base(&self.inputs, &self.variables, self.rules.len(), RuleBase::Fuzzy);
        if b.is_err() {
            return b;
        }
        let n = self.rules.len();
        let mut i: usize = 0;
        while i < n
            invariant
                n == self.rules@.len(),
                i <= n,
                fuzzy_rules_check_from(self.rules@, self.variables@, self.inputs@, 0)
                    == fuzzy_rules_check_from(self.rules@, self.variables@, self.inputs@, i as int),
            decreases n - i,
        {
            let rule = &self.rules[i];
            if let Some(id) = &rule.id {
                if is_blank(id.as_str()) {
                    return Err(InputError::BlankRuleId { rule: i });
                }
            }
            if let Some(w) = rule.weight {
                if !check_weight(w) {
                    return Err(InputError::RuleWeight { rule: i });
                }
            }
            let e = validate_expression(&rule.when, &self.variables, &self.inputs);
            if e.is_err() {
                return e;
            }
            let c = validate_variable_set(&rule.consequent.variable, &rule.consequent.set, &self.variables);
            if c.is_err() {
                return c;
            }
            i = i + 1;
        }
        Ok(())
    }
}

/// Checks the rule-independent part of a rule base.
#[verifier::loop_isolation(false)]
pub fn validate_base(
    inputs: &NamedValues,
    vars: &Vec<LinguisticVariable>,
    rule_count: usize,
    base: RuleBase,
) -> (r: Result<(), InputError>)
    ensures
        r == base_check(inputs@, vars@, rule_count as nat, base),
{
    if inputs.is_empty() {
        return Err(InputError::NoCrispInputs);
    }
    if vars.len() == 0 {
        return Err(InputError::NoVariables);
    }
    if rule_count == 0 {
        return Err(InputError::NoRules { base });
    }
    let n = inputs.len();
    let mut i: usize = 0;
    while i < n
        invariant
            n == inputs@.len(),
            i <= n,
            forall|j: int|
                0 <= j < i ==> !is_blank_spec(#[trigger] inputs@[j].0@) && inputs@[j].1.spec_finite(),
        decreases n - i,
    {
        let name = inputs.name_at(i);
        let value = inputs.value_at(i);
        if is_blank(name.as_str()) || !value.is_finite() {
            assert(is_blank_spec(inputs@[i as int].0@) || !inputs@[i as int].1.spec_finite());
            return Err(InputError::InvalidCrispInput);
        }
        assert(!is_blank_spec(inputs@[i as int].0@) && inputs@[i as int].1.spec_finite());
        assert forall|j: int| 0 <= j < i + 1 implies !is_blank_spec(#[trigger] inputs@[j].0@)
            && inputs@[j].1.spec_finite() by {
            if j == i as int {
            }
        }
        i = i + 1;
    }
    let v = validate_variables(vars);
    if v.is_err() {
        return v;
    }
    let mut i: usize = 0;
    while i < n
        invariant
            n == inputs@.len(),
            i <= n,
            inputs_defined_from(inputs@, vars@, 0) == inputs_defined_from(inputs@, vars@, i as int),
        decreases n - i,
    {
        let name = inputs.name_at(i);
        if find_variable(vars, name.as_str()).is_none() {
            return Err(InputError::UndefinedInputVariable { name: name.clone() });
        }
        i = i + 1;
    }
    Ok(())
}

/// The position of the first variable called `name`.
pub open spec fn variable_position_from(vars: Seq<LinguisticVariable>, name: Seq<char>, i: int) -> Option<
    int,
>
    decreases vars.len() - i,
{
    if i < 0 || i >= vars.len() {
        None
    } else if vars[i].name@ == name {
        Some(i)
    } else {
        variable_position_from(vars, name, i + 1)
    }
}

/// The position of the first variable called `name`.
pub fn find_variable(vars: &Vec<LinguisticVariable>, name: &str) -> (r: Option<usize>)
    ensures
        r matches Some(i) ==> i < vars@.len() && vars@[i as int].name@ == name@,
        r is None <==> !has_variable(vars@, name@),
        r matches Some(i) ==> variable_position_from(vars@, name@, 0) == Some(i as int),
        r is None ==> variable_position_from(vars@, name@, 0) is None,
{
    let n = vars.len();
    let mut i: usize = 0;
    while i < n
        invariant
            n == vars@.len(),
            i <= n,
            forall|j: int| 0 <= j < i ==> #[trigger] vars@[j].name@ != name@,
            variable_position_from(vars@, name@, 0) == variable_position_from(vars@, name@, i as int),
        decreases n - i,
    {
        if text_eq(vars[i].name.as_str(), name) {
            return Some(i);
        }
        i = i + 1;
    }
    None
}

/// Checks the linguistic variables: each name non-blank and unique, each
/// variable with at least one set, each set name non-blank and unique within
/// its variable, each membership function valid.
#[verifier::loop_isolation(false)]
pub fn validate_variables(vars: &Vec<LinguisticVariable>) -> (r: Result<(), InputError>)
    ensures
        r == variables_check_from(vars@, 0),
{
    let n = vars.len();
    let mut i: usize = 0;
    while i < n
        invariant
            n == vars@.len(),
            i <= n,
            variables_check_from(vars@, 0) == variables_check_from(vars@, i as int),
        decreases n - i,
    {
        let v = &vars[i];
        if is_blank(v.name.as_str()) {
            return Err(InputError::BlankVariableName);
        }
        let mut j: usize = 0;
        while j < i
            invariant
                n == vars@.len(),
                i < n,
                j <= i,
                v == vars@[i as int],
                forall|k: int| 0 <= k < j ==> #[trigger] vars@[k].name@ != v.name@,
            decreases i - j,
        {
            if text_eq(vars[j].name.as_str(), v.name.as_str()) {
                assert(vars@[j as int].name@ == vars@[i as int].name@);
                return Err(InputError::DuplicateVariable { name: v.name.clone() });
            }
            j = j + 1;
        }
        if v.sets.len() == 0 {
            return Err(InputError::VariableWithoutSets { name: v.name.clone() });
        }
        let s = validate_sets(&v.name, &v.sets);
        if s.is_err() {
            return s;
        }
        i = i + 1;
    }
    Ok(())
}

#[verifier::loop_isolation(false)]
fn validate_sets(variable: &String, sets: &Vec<FuzzySet>) -> (r: Result<(), InputError>)
    ensures
        r == sets_check_from(*variable, sets@, 0),
{
    let n = sets.len();
    let mut i: usize = 0;
    while i < n
        invariant
            n == sets@.len(),
            i <= n,
            sets_check_from(*variable, sets@, 0) == sets_check_from(*variable, sets@, i as int),
        decreases n - i,
    {
        let s = &sets[i];
        if is_blank(s.name.as_str()) {
            return Err(InputError::BlankSetName { variable: variable.clone() });
        }
        let mut j: usize = 0;
        while j < i
            invariant
                n == sets@.len(),
                i < n,
                j <= i,
                s == sets@[i as int],
                forall|k: int| 0 <= k < j ==> #[trigger] sets@[k].name@ != s.name@,
            decreases i - j,
        {
            if text_eq(sets[j].name.as_str(), s.name.as_str()) {
                assert(sets@[j as int].name@ == sets@[i as int].name@);
                return Err(InputError::DuplicateSet { set: s.name.clone(), variable: variable.clone() });
            }
            j = j + 1;
        }
        let f = s.function.validate();
        if f.is_err() {
            return f;
        }
        i = i + 1;
    }
    Ok(())
}

/// Checks a reference to set `set` of variable `variable`.
pub fn validate_variable_set(variable: &String, set: &String, vars: &Vec<LinguisticVariable>) -> (r:
    Result<(), InputError>)
    ensures
        r == variable_set_check(*variable, *set, vars@),
{
    let n = vars.len();
    let mut found_variable = false;
    let mut found_set = false;
    let mut i: usize = 0;
    while i < n
        invariant
            n == vars@.len(),
            i <= n,
            found_variable == (exists|k: int| 0 <= k < i && #[trigger] vars@[k].name@ == variable@),
            found_set == (exists|k: int, j: int|
                0 <= k < i && #[trigger] vars@[k].name@ == variable@ && 0 <= j < vars@[k].sets@.len()
                    && #[trigger] vars@[k].sets@[j].name@ == set@),
        decreases n - i,
    {
        let v = &vars[i];
        if text_eq(v.name.as_str(), variable.as_str()) {
            found_variable = true;
            let m = v.sets.len();
            let mut here = false;
            let mut j: usize = 0;
            while j < m
                invariant
                    v == vars@[i as int],
                    m == v.sets@.len(),
                    j <= m,
                    here == (exists|jj: int| 0 <= jj < j && #[trigger] v.sets@[jj].name@ == set@),
                decreases m - j,
            {
                if text_eq(v.sets[j].name.as_str(), set.as_str()) {
                    here = true;
                }
                j = j + 1;
            }
            if here {
                let ghost jj = choose|jj: int| 0 <= jj < m && #[trigger] v.sets@[jj].name@ == set@;
                assert(vars@[i as int].name@ == variable@ && vars@[i as int].sets@[jj].name@ == set@);
            }
            found_set = found_set || here;
        }
        i = i + 1;
    }
    if !found_variable {
        return Err(InputError::UnknownVariable { name: variable.clone() });
    }
    if !found_set {
        return Err(InputError::UnknownSet { set: set.clone(), variable: variable.clone() });
    }
    Ok(())
}

/// Checks an antecedent.
pub fn validate_expression(
    expression: &FuzzyExpression,
    vars: &Vec<LinguisticVariable>,
    inputs: &NamedValues,
) -> (r: Result<(), InputError>)
    ensures
        r == expression_check(*expression, vars@, inputs@),
    decreases expression,
{
    match expression {
        FuzzyExpression::Is { variable, set } => {
            let c = validate_variable_set(variable, set, vars);
            if c.is_err() {
                return c;
            }
            if !inputs.contains_key(variable.as_str()) {
                return Err(InputError::MissingCrispInput { variable: variable.clone() });
            }
            Ok(())
        },
        FuzzyExpression::And { terms } | FuzzyExpression::Or { terms } => {
            if terms.len() == 0 {
                return Err(InputError::EmptyTerms);
            }
            validate_terms(terms, vars, inputs)
        },
        FuzzyExpression::Not { term } => validate_expression(term, vars, inputs),
    }
}

fn validate_terms(
    terms: &Vec<FuzzyExpression>,
    vars: &Vec<LinguisticVariable>,
    inputs: &NamedValues,
) -> (r: Result<(), InputError>)
    ensures
        r == terms_check(terms@, vars@, inputs@),
    decreases terms@,
{
    let n = terms.len();
    let mut i: usize = 0;
    assert(terms@.skip(0) =~= terms@);
    while i < n
        invariant
            n == terms@.len(),
            i <= n,
            terms_check(terms@, vars@, inputs@) == terms_check(terms@.skip(i as int), vars@, inputs@),
        decreases n - i,
    {
        assert(terms@.skip(i as int)[0] == terms@[i as int]);
        assert(terms@.skip(i as int).drop_first() =~= terms@.skip(i + 1));
        let e = validate_expression(&terms[i], vars, inputs);
        if e.is_err() {
            return e;
        }
        i = i + 1;
    }
    Ok(())
}

// ── evaluation of antecedents ──

/// What a deterministic complement `f` gives for `x`.
pub open spec fn complement_of<F: Fn(FloatBits) -> FloatBits>(f: F, x: FloatBits) -> FloatBits {
    choose|y: FloatBits| call_ensures(f, (x,), y)
}

/// Whether `f` can be applied to every number and gives one result for each.
pub open spec fn is_complement<F: Fn(FloatBits) -> FloatBits>(f: F) -> bool {
    &&& forall|x: FloatBits| call_requires(f, (x,))
    &&& forall|x: FloatBits, y: FloatBits, z: FloatBits|
        call_ensures(f, (x,), y) && call_ensures(f, (x,), z) ==> y == z
}

/// What a deterministic firing-strength function `s` gives for an antecedent
/// degree and a rule weight.
pub open spec fn strength_of<S: Fn(FloatBits, FloatBits) -> FloatBits>(
    s: S,
    degree: FloatBits,
    weight: FloatBits,
) -> FloatBits {
    choose|y: FloatBits| call_ensures(s, (degree, weight), y)
}

/// Whether `s` can be applied to every degree and weight and gives one result
/// for each.
pub open spec fn is_strength<S: Fn(FloatBits, FloatBits) -> FloatBits>(s: S) -> bool {
    &&& forall|a: FloatBits, w: FloatBits| call_requires(s, (a, w))
    &&& forall|a: FloatBits, w: FloatBits, y: FloatBits, z: FloatBits|
        call_ensures(s, (a, w), y) && call_ensures(s, (a, w), z) ==> y == z
}

/// What a deterministic consequent function `v` gives for rule `rule` fired
/// at strength `f`.
pub open spec fn consequent_of<V: Fn(usize, FloatBits) -> Result<FloatBits, InputError>>(
    v: V,
    rule: usize,
    f: FloatBits,
) -> Result<FloatBits, InputError> {
    choose|y: Result<FloatBits, InputError>| call_ensures(v, (rule, f), y)
}

/// Whether `v` can be applied to every rule and strength and gives one result
/// for each.
pub open spec fn is_consequent<V: Fn(usize, FloatBits) -> Result<FloatBits, InputError>>(v: V) -> bool {
    &&& forall|i: usize, f: FloatBits| call_requires(v, (i, f))
    &&& forall|i: usize, f: FloatBits, y: Result<FloatBits, InputError>, z: Result<FloatBits, InputError>|
        call_ensures(v, (i, f), y) && call_ensures(v, (i, f), z) ==> y == z
}

/// What a deterministic inverse `g` gives for a membership function at a
/// degree.
pub open spec fn inverse_of<G: Fn(MembershipFunction, FloatBits) -> Result<FloatBits, InputError>>(
    g: G,
    f: MembershipFunction,
    degree: FloatBits,
) -> Result<FloatBits, InputError> {
    choose|y: Result<FloatBits, InputError>| call_ensures(g, (f, degree), y)
}

/// Whether `g` can be applied to every membership function and degree and
/// gives one result for each.
pub open spec fn is_inverse<G: Fn(MembershipFunction, FloatBits) -> Result<FloatBits, InputError>>(g: G) -> bool {
    &&& forall|f: MembershipFunction, d: FloatBits| call_requires(g, (f, d))
    &&& forall|f: MembershipFunction, d: FloatBits, y: Result<FloatBits, InputError>, z: Result<FloatBits, InputError>|
        call_ensures(g, (f, d), y) && call_ensures(g, (f, d), z) ==> y == z
}

/// The first position, from `i` on, of an entry named `name`.
pub open spec fn first_named(m: Seq<(String, NamedValues)>, name: Seq<char>, i: int) -> Option<int>
    decreases m.len() - i,
{
    if i < 0 || i >= m.len() {
        None
    } else if m[i].0@ == name {
        Some(i)
    } else {
        first_named(m, name, i + 1)
    }
}

/// The membership of `variable` in `set`, if it was evaluated.
pub open spec fn membership_of(m: Seq<(String, NamedValues)>, variable: Seq<char>, set: Seq<char>) -> Option<
    FloatBits,
> {
    match first_named(m, variable, 0) {
        Some(i) => lookup(m[i].1@, set),
        None => None,
    }
}

/// The degree of an antecedent over evaluated memberships: the membership for
/// `is`, as a degree (a membership already in `[0, 1]` is unchanged), the least term for `and` (starting from `1.0`), the greatest for `or`
/// (starting from `0.0`), and the complement `f`, clamped into `[0, 1]`, for
/// `not`; the first membership that was not evaluated is refused.
pub open spec fn expression_degree<F: Fn(FloatBits) -> FloatBits>(
    e: FuzzyExpression,
    m: Seq<(String, NamedValues)>,
    f: F,
) -> Result<FloatBits, InputError>
    decreases e,
{
    match e {
        FuzzyExpression::Is { variable, set } => match membership_of(m, variable@, set@) {
            Some(v) => Ok(clamp_unit(v)),
            None => Err(InputError::MembershipUnavailable { variable, set }),
        },
        FuzzyExpression::And { terms } => terms_degree(terms@, m, f, true, one_bits()),
        FuzzyExpression::Or { terms } => terms_degree(terms@, m, f, false, zero_bits()),
        FuzzyExpression::Not { term } => match expression_degree(*term, m, f) {
            Ok(v) => Ok(clamp_unit(complement_of(f, v))),
            Err(err) => Err(err),
        },
    }
}

/// The fold of `terms` from `acc`: keeping the lesser (`and`) or the greater
/// (`or`) of the accumulated degree and each term's degree.
pub open spec fn terms_degree<F: Fn(FloatBits) -> FloatBits>(
    terms: Seq<FuzzyExpression>,
    m: Seq<(String, NamedValues)>,
    f: F,
    conjunction: bool,
    acc: FloatBits,
) -> Result<FloatBits, InputError>
    decreases terms,
{
    if terms.len() == 0 {
        Ok(acc)
    } else {
        match expression_degree(terms[0], m, f) {
            Ok(t) => terms_degree(
                terms.drop_first(),
                m,
                f,
                conjunction,
                if conjunction {
                    if t.spec_lt(acc) {
                        t
                    } else {
                        acc
                    }
                } else {
                    if acc.spec_lt(t) {
                        t
                    } else {
                        acc
                    }
                },
            ),
            Err(err) => Err(err),
        }
    }
}

/// The position of the entry named `name`, the first one.
fn find_named(m: &Vec<(String, NamedValues)>, name: &str) -> (r: Option<usize>)
    ensures
        r matches Some(i) ==> i < m@.len() && first_named(m@, name@, 0) == Some(i as int),
        r is None ==> first_named(m@, name@, 0) is None,
{
    let n = m.len();
    let mut i: usize = 0;
    while i < n
        invariant
            n == m@.len(),
            i <= n,
            first_named(m@, name@, 0) == first_named(m@, name@, i as int),
        decreases n - i,
    {
        if text_eq(m[i].0.as_str(), name) {
            return Some(i);
        }
        i = i + 1;
    }
    None
}

/// The degree of an antecedent over the evaluated memberships (by variable,
/// then set), with `complement` as the fuzzy `not`.
pub fn evaluate_expression<F: Fn(FloatBits) -> FloatBits>(
    expression: &FuzzyExpression,
    memberships: &Vec<(String, NamedValues)>,
    complement: &F,
) -> (r: Result<MembershipDegree, InputError>)
    requires
        is_complement(*complement),
    ensures
        r matches Ok(d) ==> expression_degree(*expression, memberships@, *complement) == Ok::<FloatBits, InputError>(d@),
        r matches Err(err) ==> expression_degree(*expression, memberships@, *complement) == Err::<FloatBits, InputError>(err),
    decreases expression,
{
    match expression {
        FuzzyExpression::Is { variable, set } => {
            match find_named(memberships, variable.as_str()) {
                Some(i) => match memberships[i].1.get(set.as_str()) {
                    Some(v) => Ok(MembershipDegree::new(v)),
                    None => Err(InputError::MembershipUnavailable { variable: variable.clone(), set: set.clone() }),
                },
                None => Err(InputError::MembershipUnavailable { variable: variable.clone(), set: set.clone() }),
            }
        },
        FuzzyExpression::And { terms } => fold_terms(terms, memberships, complement, true),
        FuzzyExpression::Or { terms } => fold_terms(terms, memberships, complement, false),
        FuzzyExpression::Not { term } => {
            let inner = evaluate_expression(term, memberships, complement);
            match inner {
                Ok(d) => {
                    let c = complement(d.0);
                    Ok(MembershipDegree::new(c))
                },
                Err(err) => Err(err),
            }
        },
    }
}

fn fold_terms<F: Fn(FloatBits) -> FloatBits>(
    terms: &Vec<FuzzyExpression>,
    memberships: &Vec<(String, NamedValues)>,
    complement: &F,
    conjunction: bool,
) -> (r: Result<MembershipDegree, InputError>)
    requires
        is_complement(*complement),
    ensures
        r matches Ok(d) ==> terms_degree(
            terms@,
            memberships@,
            *complement,
            conjunction,
            if conjunction { one_bits() } else { zero_bits() },
        ) == Ok::<FloatBits, InputError>(d@),
        r matches Err(err) ==> terms_degree(
            terms@,
            memberships@,
            *complement,
            conjunction,
            if conjunction { one_bits() } else { zero_bits() },
        ) == Err::<FloatBits, InputError>(err),
    decreases terms@,
{
    let mut acc = if conjunction { MembershipDegree::one() } else { MembershipDegree::zero() };
    let n = terms.len();
    let mut i: usize = 0;
    assert(terms@.skip(0) =~= terms@);
    while i < n
        invariant
            n == terms@.len(),
            i <= n,
            is_complement(*complement),
            terms_degree(
                terms@,
                memberships@,
                *complement,
                conjunction,
                if conjunction { one_bits() } else { zero_bits() },
            ) == terms_degree(terms@.skip(i as int), memberships@, *complement, conjunction, acc@),
        decreases n - i,
    {
        assert(terms@.skip(i as int)[0] == terms@[i as int]);
        assert(terms@.skip(i as int).drop_first() =~= terms@.skip(i + 1));
        let t = evaluate_expression(&terms[i], memberships, complement);
        match t {
            Ok(d) => {
                if conjunction {
                    if d.0.lt(&acc.0) {
                        acc = d;
                    }
                } else {
                    if acc.0.lt(&d.0) {
                        acc = d;
                    }
                }
            },
            Err(err) => {
                return Err(err);
            },
        }
        i = i + 1;
    }
    Ok(acc)
}

/// Whether a set passes its checks, given the sets before it: a name that is
/// not blank and not taken by an earlier set, and valid parameters.
pub open spec fn set_ok(sets: Seq<FuzzySet>, i: int) -> bool {
    &&& !is_blank_spec(sets[i].name@)
    &&& forall|j: int| 0 <= j < i ==> #[trigger] sets[j].name@ != sets[i].name@
    &&& membership_check(sets[i].function) is Ok
}

/// The sets from position `i` on are accepted exactly when each passes its
/// own checks.
pub proof fn lemma_sets_ok(variable: String, sets: Seq<FuzzySet>, i: int)
    requires
        0 <= i <= sets.len(),
    ensures
        sets_check_from(variable, sets, i) is Ok <==> forall|j: int| i <= j < sets.len() ==> #[trigger] set_ok(sets, j),
    decreases sets.len() - i,
{
    if i < sets.len() {
        lemma_sets_ok(variable, sets, i + 1);
        assert((forall|j: int| i <= j < sets.len() ==> #[trigger] set_ok(sets, j)) <==> (set_ok(sets, i) && forall|j: int|
            i + 1 <= j < sets.len() ==> #[trigger] set_ok(sets, j))) by {
            if set_ok(sets, i) && (forall|j: int| i + 1 <= j < sets.len() ==> #[trigger] set_ok(sets, j)) {
                assert forall|j: int| i <= j < sets.len() implies #[trigger] set_ok(sets, j) by {
                    if j == i {
                    }
                }
            }
        }
    }
}

/// Whether a variable passes its checks, given the variables before it: a
/// name that is not blank and not taken by an earlier variable, and at least
/// one set, every set passing its own checks.
pub open spec fn variable_ok(vars: Seq<LinguisticVariable>, i: int) -> bool {
    &&& !is_blank_spec(vars[i].name@)
    &&& forall|j: int| 0 <= j < i ==> #[trigger] vars[j].name@ != vars[i].name@
    &&& vars[i].sets@.len() > 0
    &&& forall|k: int| 0 <= k < vars[i].sets@.len() ==> #[trigger] set_ok(vars[i].sets@, k)
}

/// The variables from position `i` on are accepted exactly when each passes
/// its own checks.
pub proof fn lemma_variables_ok(vars: Seq<LinguisticVariable>, i: int)
    requires
        0 <= i <= vars.len(),
    ensures
        variables_check_from(vars, i) is Ok <==> forall|j: int| i <= j < vars.len() ==> #[trigger] variable_ok(vars, j),
    decreases vars.len() - i,
{
    if i < vars.len() {
        lemma_variables_ok(vars, i + 1);
        lemma_sets_ok(vars[i].name, vars[i].sets@, 0);
        assert((forall|j: int| i <= j < vars.len() ==> #[trigger] variable_ok(vars, j)) <==> (variable_ok(vars, i) && forall|j: int|
            i + 1 <= j < vars.len() ==> #[trigger] variable_ok(vars, j))) by {
            if variable_ok(vars, i) && (forall|j: int| i + 1 <= j < vars.len() ==> #[trigger] variable_ok(vars, j)) {
                assert forall|j: int| i <= j < vars.len() implies #[trigger] variable_ok(vars, j) by {
                    if j == i {
                    }
                }
            }
        }
    }
}

/// Whether a Mamdani rule passes its checks: an id, when given, that is not
/// blank; a weight, when given, finite and in `[0, 1]`; an antecedent and a
/// consequent that name known variables and sets.
pub open spec fn fuzzy_rule_ok(r: FuzzyRule, vars: Seq<LinguisticVariable>, inputs: Seq<(String, FloatBits)>) -> bool {
    &&& !(r.id matches Some(id) && is_blank_spec(id@))
    &&& !(r.weight matches Some(w) && !weight_ok(w))
    &&& expression_check(r.when, vars, inputs) is Ok
    &&& variable_set_check(r.consequent.variable, r.consequent.set, vars) is Ok
}

/// The Mamdani rules from position `i` on are accepted exactly when each
/// passes its own checks.
pub proof fn lemma_fuzzy_rules_ok(
    rules: Seq<FuzzyRule>,
    vars: Seq<LinguisticVariable>,
    inputs: Seq<(String, FloatBits)>,
    i: int,
)
    requires
        0 <= i <= rules.len(),
    ensures
        fuzzy_rules_check_from(rules, vars, inputs, i) is Ok <==> forall|j: int|
            i <= j < rules.len() ==> #[trigger] fuzzy_rule_ok(rules[j], vars, inputs),
    decreases rules.len() - i,
{
    if i < rules.len() {
        lemma_fuzzy_rules_ok(rules, vars, inputs, i + 1);
        assert((forall|j: int| i <= j < rules.len() ==> #[trigger] fuzzy_rule_ok(rules[j], vars, inputs)) <==> (fuzzy_rule_ok(rules[i], vars, inputs) && forall|j: int|
            i + 1 <= j < rules.len() ==> #[trigger] fuzzy_rule_ok(rules[j], vars, inputs))) by {
            if fuzzy_rule_ok(rules[i], vars, inputs) && (forall|j: int| i + 1 <= j < rules.len() ==> #[trigger] fuzzy_rule_ok(rules[j], vars, inputs)) {
                assert forall|j: int| i <= j < rules.len() implies #[trigger] fuzzy_rule_ok(rules[j], vars, inputs) by {
                    if j == i {
                    }
                }
            }
        }
    }
}

// ── the membership table of the crisp inputs ──

/// What a deterministic membership evaluation `g` gives for a membership
/// function at a crisp value.
pub open spec fn membership_value<G: Fn(MembershipFunction, FloatBits) -> FloatBits>(
    g: G,
    f: MembershipFunction,
    x: FloatBits,
) -> FloatBits {
    choose|y: FloatBits| call_ensures(g, (f, x), y)
}

/// Whether `g` can be applied to every membership function and value and
/// gives one result for each.
pub open spec fn is_membership_eval<G: Fn(MembershipFunction, FloatBits) -> FloatBits>(g: G) -> bool {
    &&& forall|f: MembershipFunction, x: FloatBits| call_requires(g, (f, x))
    &&& forall|f: MembershipFunction, x: FloatBits, y: FloatBits, z: FloatBits|
        call_ensures(g, (f, x), y) && call_ensures(g, (f, x), z) ==> y == z
}

/// The entry named `name` at position `p`, with no earlier entry of that
/// name, is the first one.
pub proof fn lemma_first_named(m: Seq<(String, NamedValues)>, name: Seq<char>, p: int, i: int)
    requires
        0 <= i <= p < m.len(),
        m[p].0@ == name,
        forall|q: int| 0 <= q < p ==> (#[trigger] m[q]).0@ != name,
    ensures
        first_named(m, name, i) == Some(p),
    decreases p - i,
{
    if i < p {
        lemma_first_named(m, name, p, i + 1);
    }
}

/// Whether a membership table has an entry for every set of every variable
/// that has a crisp input: a set that some variable of that name has.
pub open spec fn table_covers(
    m: Seq<(String, NamedValues)>,
    vars: Seq<LinguisticVariable>,
    inputs: Seq<(String, FloatBits)>,
) -> bool {
    forall|name: Seq<char>, set: Seq<char>|
        has_set(vars, name, set) && lookup(inputs, name) is Some ==> #[trigger] membership_of(m, name, set) is Some
}

/// The memberships of each variable that has a crisp input, in the order of
/// the variables: for each of its sets, `eval` of the set's function at the
/// input. Where names repeat, the first variable of a name and the last set
/// of a name are the ones found.
pub fn input_memberships<G: Fn(MembershipFunction, FloatBits) -> FloatBits>(
    inputs: &NamedValues,
    vars: &Vec<LinguisticVariable>,
    eval: &G,
) -> (r: Vec<(String, NamedValues)>)
    requires
        is_membership_eval(*eval),
    ensures
        forall|p: int|
            0 <= p < r@.len() ==> exists|i: int|
                0 <= i < vars@.len() && (#[trigger] r@[p]).0@ == vars@[i].name@ && lookup(
                    inputs@,
                    vars@[i].name@,
                ) is Some,
        forall|i: int, j: int|
            0 <= i < vars@.len() && 0 <= j < vars@[i].sets@.len() && (forall|i2: int|
                0 <= i2 < i ==> (#[trigger] vars@[i2]).name@ != vars@[i].name@) && (forall|j2: int|
                j < j2 < vars@[i].sets@.len() ==> (#[trigger] vars@[i].sets@[j2]).name@
                    != vars@[i].sets@[j].name@) && lookup(inputs@, vars@[i].name@) is Some
                ==> #[trigger] membership_of(r@, vars@[i].name@, vars@[i].sets@[j].name@) == Some(
                membership_value(*eval, vars@[i].sets@[j].function, lookup(inputs@, vars@[i].name@)->0),
            ),
{
    let n = vars.len();
    let mut r: Vec<(String, NamedValues)> = Vec::new();
    let ghost mut src: Seq<int> = Seq::empty();
    let mut i: usize = 0;
    while i < n
        invariant
            n == vars@.len(),
            i <= n,
            is_membership_eval(*eval),
            src.len() == r@.len(),
            forall|p: int| 0 <= p < r@.len() ==> 0 <= #[trigger] src[p] < i,
            forall|p: int, q: int| 0 <= p < q < r@.len() ==> #[trigger] src[p] < #[trigger] src[q],
            forall|p: int|
                0 <= p < r@.len() ==> (#[trigger] r@[p]).0@ == vars@[src[p]].name@ && lookup(
                    inputs@,
                    vars@[src[p]].name@,
                ) is Some,
            forall|i2: int|
                0 <= i2 < i && lookup(inputs@, vars@[i2].name@) is Some ==> exists|p: int|
                    0 <= p < r@.len() && #[trigger] src[p] == i2,
            forall|p: int, j: int|
                0 <= p < r@.len() && 0 <= j < vars@[src[p]].sets@.len() && (forall|j2: int|
                    j < j2 < vars@[src[p]].sets@.len() ==> (#[trigger] vars@[src[p]].sets@[j2]).name@
                        != vars@[src[p]].sets@[j].name@) ==> #[trigger] lookup(
                    r@[p].1@,
                    vars@[src[p]].sets@[j].name@,
                ) == Some(
                    membership_value(*eval, vars@[src[p]].sets@[j].function, lookup(inputs@, vars@[src[p]].name@)->0),
                ),
        decreases n - i,
    {
        let var = &vars[i];
        match inputs.get(var.name.as_str()) {
            Some(x) => {
                let mut sets = NamedValues::new();
                let k = var.sets.len();
                let mut j: usize = 0;
                while j < k
                    invariant
                        k == var.sets@.len(),
                        j <= k,
                        is_membership_eval(*eval),
                        forall|j1: int|
                            0 <= j1 < j && (forall|j2: int|
                                j1 < j2 < j ==> (#[trigger] var.sets@[j2]).name@ != var.sets@[j1].name@) ==> #[trigger] lookup(
                                sets@,
                                var.sets@[j1].name@,
                            ) == Some(membership_value(*eval, var.sets@[j1].function, x)),
                    decreases k - j,
                {
                    let set = &var.sets[j];
                    let v = eval(set.function, x);
                    sets.insert(set.name.clone(), v);
                    proof {
                        assert(v == membership_value(*eval, var.sets@[j as int].function, x));
                        assert forall|j1: int|
                            0 <= j1 < j + 1 && (forall|j2: int|
                                j1 < j2 < j + 1 ==> (#[trigger] var.sets@[j2]).name@ != var.sets@[j1].name@) implies #[trigger] lookup(
                            sets@,
                            var.sets@[j1].name@,
                        ) == Some(membership_value(*eval, var.sets@[j1].function, x)) by {
                            if j1 < j {
                                assert(var.sets@[j as int].name@ != var.sets@[j1].name@);
                            }
                        }
                    }
                    j = j + 1;
                }
                let ghost before = r@;
                let ghost old_src = src;
                r.push((var.name.clone(), sets));
                proof {
                    src = src.push(i as int);
                    assert(r@[r@.len() - 1].1 == sets);
                    assert forall|p: int| 0 <= p < r@.len() - 1 implies r@[p] == before[p] by {}
                    assert forall|i2: int|
                        0 <= i2 < i + 1 && lookup(inputs@, vars@[i2].name@) is Some implies exists|p: int|
                            0 <= p < r@.len() && #[trigger] src[p] == i2 by {
                        if i2 == i {
                            assert(src[r@.len() - 1] == i2);
                        } else {
                            let p = choose|p: int| 0 <= p < old_src.len() && #[trigger] old_src[p] == i2;
                            assert(src[p] == i2);
                        }
                    }
                }
            },
            None => {
                proof {
                    assert forall|i2: int|
                        0 <= i2 < i + 1 && lookup(inputs@, vars@[i2].name@) is Some implies exists|p: int|
                            0 <= p < r@.len() && #[trigger] src[p] == i2 by {
                        if i2 == i {
                            assert(lookup(inputs@, vars@[i2].name@) is None);
                        }
                    }
                }
            },
        }
        i = i + 1;
    }
    proof {
        assert forall|i: int, j: int|
            0 <= i < vars@.len() && 0 <= j < vars@[i].sets@.len() && (forall|i2: int|
                0 <= i2 < i ==> (#[trigger] vars@[i2]).name@ != vars@[i].name@) && (forall|j2: int|
                j < j2 < vars@[i].sets@.len() ==> (#[trigger] vars@[i].sets@[j2]).name@
                    != vars@[i].sets@[j].name@) && lookup(inputs@, vars@[i].name@) is Some
                implies #[trigger] membership_of(r@, vars@[i].name@, vars@[i].sets@[j].name@) == Some(
                membership_value(*eval, vars@[i].sets@[j].function, lookup(inputs@, vars@[i].name@)->0),
            ) by {
            let p = choose|p: int| 0 <= p < r@.len() && #[trigger] src[p] == i;
            assert forall|q: int| 0 <= q < p implies (#[trigger] r@[q]).0@ != vars@[i].name@ by {
                assert(src[q] < src[p]);
                assert(r@[q].0@ == vars@[src[q]].name@);
            }
            lemma_first_named(r@, vars@[i].name@, p, 0);
            assert(lookup(r@[p].1@, vars@[src[p]].sets@[j].name@) == Some(
                membership_value(*eval, vars@[src[p]].sets@[j].function, lookup(inputs@, vars@[src[p]].name@)->0),
            ));
        }
    }
    r
}

/// A membership table with an entry for every set of every variable with a
/// crisp input, where names do not repeat, covers the rule base's variables.
pub proof fn lemma_table_covers(
    m: Seq<(String, NamedValues)>,
    vars: Seq<LinguisticVariable>,
    inputs: Seq<(String, FloatBits)>,
)
    requires
        variables_check_from(vars, 0) is Ok,
        forall|i: int, j: int|
            0 <= i < vars.len() && 0 <= j < vars[i].sets@.len() && (forall|i2: int|
                0 <= i2 < i ==> (#[trigger] vars[i2]).name@ != vars[i].name@) && (forall|j2: int|
                j < j2 < vars[i].sets@.len() ==> (#[trigger] vars[i].sets@[j2]).name@ != vars[i].sets@[j].name@)
                && lookup(inputs, vars[i].name@) is Some ==> (#[trigger] membership_of(
                m,
                vars[i].name@,
                vars[i].sets@[j].name@,
            )) is Some,
    ensures
        table_covers(m, vars, inputs),
{
    lemma_variables_ok(vars, 0);
    assert forall|name: Seq<char>, set: Seq<char>|
        has_set(vars, name, set) && lookup(inputs, name) is Some implies #[trigger] membership_of(m, name, set) is Some by {
        let (i, j) = choose|i: int, j: int|
            0 <= i < vars.len() && #[trigger] vars[i].name@ == name && 0 <= j < vars[i].sets@.len()
                && #[trigger] vars[i].sets@[j].name@ == set;
        assert(variable_ok(vars, i));
        assert forall|i2: int| 0 <= i2 < i implies (#[trigger] vars[i2]).name@ != vars[i].name@ by {}
        assert forall|j2: int| j < j2 < vars[i].sets@.len() implies (#[trigger] vars[i].sets@[j2]).name@
            != vars[i].sets@[j].name@ by {
            assert(set_ok(vars[i].sets@, j2));
        }
        assert(membership_of(m, vars[i].name@, vars[i].sets@[j].name@) is Some);
    }
}

/// An antecedent that passes its checks has a degree over a membership table
/// that covers the variables.
pub proof fn lemma_checked_expression_evaluates<C: Fn(FloatBits) -> FloatBits>(
    e: FuzzyExpression,
    vars: Seq<LinguisticVariable>,
    inputs: Seq<(String, FloatBits)>,
    m: Seq<(String, NamedValues)>,
    c: C,
)
    requires
        expression_check(e, vars, inputs) is Ok,
        table_covers(m, vars, inputs),
    ensures
        expression_degree(e, m, c) is Ok,
    decreases e,
{
    match e {
        FuzzyExpression::Is { variable, set } => {
            assert(membership_of(m, variable@, set@) is Some);
        },
        FuzzyExpression::And { terms } => {
            lemma_checked_terms_evaluate(terms@, vars, inputs, m, c, true, one_bits());
        },
        FuzzyExpression::Or { terms } => {
            lemma_checked_terms_evaluate(terms@, vars, inputs, m, c, false, zero_bits());
        },
        FuzzyExpression::Not { term } => {
            lemma_checked_expression_evaluates(*term, vars, inputs, m, c);
        },
    }
}

/// Terms that pass their checks fold to a degree over a membership table
/// that covers the variables.
pub proof fn lemma_checked_terms_evaluate<C: Fn(FloatBits) -> FloatBits>(
    terms: Seq<FuzzyExpression>,
    vars: Seq<LinguisticVariable>,
    inputs: Seq<(String, FloatBits)>,
    m: Seq<(String, NamedValues)>,
    c: C,
    conjunction: bool,
    acc: FloatBits,
)
    requires
        terms_check(terms, vars, inputs) is Ok,
        table_covers(m, vars, inputs),
    ensures
        terms_degree(terms, m, c, conjunction, acc) is Ok,
    decreases terms,
{
    if terms.len() > 0 {
        lemma_checked_expression_evaluates(terms[0], vars, inputs, m, c);
        let t = expression_degree(terms[0], m, c)->Ok_0;
        let next = if conjunction {
            if t.spec_lt(acc) {
                t
            } else {
                acc
            }
        } else {
            if acc.spec_lt(t) {
                t
            } else {
                acc
            }
        };
        lemma_checked_terms_evaluate(terms.drop_first(), vars, inputs, m, c, conjunction, next);
    }
}

} // verus!

verus! {

/// A rule that fired, with its strengths and consequent key.
#[derive(Debug, Clone)]
pub struct ActivatedRule {
    pub id: String,
    pub antecedent_strength: MembershipDegree,
    pub weight: MembershipDegree,
    pub strength: MembershipDegree,
    pub consequent: String,
}

/// The result of Mamdani inference. Memberships are degrees held as binary64
/// numbers: per input variable and set, and per consequent key.
#[derive(Debug)]
pub struct FuzzyInferenceOutput {
    pub input_memberships: Vec<(String, NamedValues)>,
    pub memberships: NamedValues,
    pub activated_rules: Vec<ActivatedRule>,
    pub confidence: MembershipDegree,
    pub total_rules: usize,
}

} // verus!
