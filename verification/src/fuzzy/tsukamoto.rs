//! Tsukamoto rule bases: consequents with monotonic membership functions.
use crate::error::{InputError, RuleBase};
use crate::float_bits::FloatBits;
use crate::fuzzy::engine::rule_id;
use crate::fuzzy::sugeno::{
    check_weight, max_strength, reported_id, weight_ok, weight_or_one, Firing,
};
use crate::fuzzy::types::{
    base_check, evaluate_expression, expression_check, expression_degree, find_variable,
    inverse_check, inverse_of, is_complement, is_inverse, is_monotonic_spec, is_strength, one_bits,
    strength_of, validate_base, validate_expression, variable_position_from, zero_bits,
    FuzzyExpression, FuzzySet, LinguisticVariable, MembershipFunction,
};
use crate::named::NamedValues;
use crate::text::{dotted, is_blank, is_blank_spec, text_eq};
use vstd::prelude::*;

verus! {

/// The consequent `variable is set` of a Tsukamoto rule.
#[derive(Debug, Clone)]
pub struct TsukamotoConsequent {
    pub variable: String,
    pub set: String,
}

impl TsukamotoConsequent {
    /// The key `"{variable}.{set}"`.
    pub fn key(&self) -> (r: String)
        ensures
            r@ == self.variable@ + seq!['.'] + self.set@,
    {
        dotted(self.variable.as_str(), self.set.as_str())
    }
}

/// A Tsukamoto rule.
#[derive(Debug)]
pub struct TsukamotoRule {
    pub id: Option<String>,
    pub when: FuzzyExpression,
    pub consequent: TsukamotoConsequent,
    pub weight: Option<FloatBits>,
}

impl TsukamotoRule {
    /// The rule weight, `1.0` when none is given.
    pub fn weight(&self) -> (r: FloatBits)
        ensures
            r == weight_or_one(self.weight),
    {
        match self.weight {
            Some(w) => w,
            None => FloatBits::one(),
        }
    }
}

/// The position of the first set called `name`.
pub open spec fn set_position_from(sets: Seq<FuzzySet>, name: Seq<char>, i: int) -> Option<int>
    decreases sets.len() - i,
{
    if i < 0 || i >= sets.len() {
        None
    } else if sets[i].name@ == name {
        Some(i)
    } else {
        set_position_from(sets, name, i + 1)
    }
}

/// The position of the first set called `name`.
pub fn find_set(sets: &Vec<FuzzySet>, name: &str) -> (r: Option<usize>)
    ensures
        r matches Some(i) ==> set_position_from(sets@, name@, 0) == Some(i as int),
        r is None ==> set_position_from(sets@, name@, 0) is None,
        r matches Some(i) ==> i < sets@.len() && sets@[i as int].name@ == name@,
{
    let n = sets.len();
    let mut i: usize = 0;
    while i < n
        invariant
            n == sets@.len(),
            i <= n,
            set_position_from(sets@, name@, 0) == set_position_from(sets@, name@, i as int),
        decreases n - i,
    {
        if text_eq(sets[i].name.as_str(), name) {
            return Some(i);
        }
        i = i + 1;
    }
    None
}

/// The refusal, if any, of the consequent of rule `rule`: its variable and
/// set must exist (first match by name), and the set must be monotonic.
pub open spec fn tsukamoto_consequent_check(
    c: TsukamotoConsequent,
    vars: Seq<LinguisticVariable>,
    rule: int,
) -> Result<(), InputError> {
    match variable_position_from(vars, c.variable@, 0) {
        None => Err(InputError::ConsequentUnknownVariable { rule: rule as usize, variable: c.variable }),
        Some(v) => match set_position_from(vars[v].sets@, c.set@, 0) {
            None => Err(
                InputError::ConsequentUnknownSet { rule: rule as usize, set: c.set, variable: c.variable },
            ),
            Some(s) => if !is_monotonic_spec(vars[v].sets@[s].function) {
                Err(
                    InputError::NonMonotonicConsequent {
                        rule: rule as usize,
                        variable: c.variable,
                        set: c.set,
                    },
                )
            } else {
                Ok(())
            },
        },
    }
}

/// The first refusal among Tsukamoto rules from position `i` on.
pub open spec fn tsukamoto_rules_check_from(
    rules: Seq<TsukamotoRule>,
    vars: Seq<LinguisticVariable>,
    inputs: Seq<(String, FloatBits)>,
    i: int,
) -> Result<(), InputError>
    decreases rules.len() - i,
{
    if i < 0 || i >= rules.len() {
        Ok(())
    } else {
        let r = rules[i];
        if r.id matches Some(id) && is_blank_spec(id@) {
            Err(InputError::BlankRuleId { rule: i as usize })
        } else if !weight_ok(weight_or_one(r.weight)) {
            Err(InputError::RuleWeight { rule: i as usize })
        } else if expression_check(r.when, vars, inputs) is Err {
            expression_check(r.when, vars, inputs)
        } else if tsukamoto_consequent_check(r.consequent, vars, i) is Err {
            tsukamoto_consequent_check(r.consequent, vars, i)
        } else {
            tsukamoto_rules_check_from(rules, vars, inputs, i + 1)
        }
    }
}

/// The refusal, if any, of a Tsukamoto rule base.
pub open spec fn tsukamoto_input_check(
    inputs: Seq<(String, FloatBits)>,
    vars: Seq<LinguisticVariable>,
    rules: Seq<TsukamotoRule>,
) -> Result<(), InputError> {
    if base_check(inputs, vars, rules.len(), RuleBase::Tsukamoto) is Err {
        base_check(inputs, vars, rules.len(), RuleBase::Tsukamoto)
    } else {
        tsukamoto_rules_check_from(rules, vars, inputs, 0)
    }
}

/// A Tsukamoto rule base with its crisp inputs.
#[derive(Debug)]
pub struct TsukamotoInferenceInput {
    pub inputs: crate::named::NamedValues,
    pub variables: Vec<LinguisticVariable>,
    pub rules: Vec<TsukamotoRule>,
}

impl TsukamotoInferenceInput {
    /// Checks the rule base before inference; every consequent must name a
    /// monotonic (shoulder) set.
    #[verifier::loop_isolation(false)]
    pub fn validate(&self) -> (r: Result<(), InputError>)
        ensures
            r == tsukamoto_input_check(self.inputs@, self.variables@, self.rules@),
    {
        let b = validate_base(&self.inputs, &self.variables, self.rules.len(), RuleBase::Tsukamoto);
        if b.is_err() {
            return b;
        }
        let n = self.rules.len();
        let mut i: usize = 0;
        while i < n
            invariant
                n == self.rules@.len(),
                i <= n,
                tsukamoto_rules_check_from(self.rules@, self.variables@, self.inputs@, 0)
                    == tsukamoto_rules_check_from(self.rules@, self.variables@, self.inputs@, i as int),
            decreases n - i,
        {
            let rule = &self.rules[i];
            if let Some(id) = &rule.id {
                if is_blank(id.as_str()) {
                    return Err(InputError::BlankRuleId { rule: i });
                }
            }
            if !check_weight(rule.weight()) {
                return Err(InputError::RuleWeight { rule: i });
            }
            let e = validate_expression(&rule.when, &self.variables, &self.inputs);
            if e.is_err() {
                return e;
            }
            let c = &rule.consequent;
            match find_variable(&self.variables, c.variable.as_str()) {
                None => {
                    return Err(
                        InputError::ConsequentUnknownVariable { rule: i, variable: c.variable.clone() },
                    );
                },
                Some(v) => {
                    let sets = &self.variables[v].sets;
                    match find_set(sets, c.set.as_str()) {
                        None => {
                            return Err(
                                InputError::ConsequentUnknownSet {
                                    rule: i,
                                    set: c.set.clone(),
                                    variable: c.variable.clone(),
                                },
                            );
                        },
                        Some(s) => {
                            if !sets[s].function.is_monotonic() {
                                return Err(
                                    InputError::NonMonotonicConsequent {
                                        rule: i,
                                        variable: c.variable.clone(),
                                        set: c.set.clone(),
                                    },
                                );
                            }
                        },
                    }
                },
            }
            i = i + 1;
        }
        Ok(())
    }
}

/// The set that the consequent of a rule names: the first variable of that
/// name, then its first set of that name.
pub open spec fn consequent_function(
    c: TsukamotoConsequent,
    vars: Seq<LinguisticVariable>,
) -> Option<MembershipFunction> {
    match variable_position_from(vars, c.variable@, 0) {
        Some(v) => match set_position_from(vars[v].sets@, c.set@, 0) {
            Some(s) => Some(vars[v].sets@[s].function),
            None => None,
        },
        None => None,
    }
}

/// Every rule from position `i` on passes the rule checks.
proof fn lemma_rules_pass_from(
    rules: Seq<TsukamotoRule>,
    vars: Seq<LinguisticVariable>,
    inputs: Seq<(String, FloatBits)>,
    i: int,
)
    requires
        0 <= i,
        tsukamoto_rules_check_from(rules, vars, inputs, i) is Ok,
    ensures
        forall|j: int|
            i <= j < rules.len() ==> (#[trigger] tsukamoto_consequent_check(
                rules[j].consequent,
                vars,
                j,
            )) is Ok,
    decreases rules.len() - i,
{
    if i < rules.len() {
        lemma_rules_pass_from(rules, vars, inputs, i + 1);
    }
}

/// In a Tsukamoto rule base that passed its checks, the consequent of every
/// rule names a set whose inverse is defined at every firing strength: each
/// finite strength in `[0, 1]` maps back to a crisp value.
pub proof fn lemma_validated_consequents_invert(
    inputs: Seq<(String, FloatBits)>,
    vars: Seq<LinguisticVariable>,
    rules: Seq<TsukamotoRule>,
    strength: FloatBits,
)
    requires
        tsukamoto_input_check(inputs, vars, rules) is Ok,
        strength.spec_finite(),
        strength.spec_within(zero_bits(), one_bits()),
    ensures
        forall|j: int|
            0 <= j < rules.len() ==> {
                let f = #[trigger] consequent_function(rules[j].consequent, vars);
                &&& f is Some
                &&& inverse_check(f->0, strength) is Ok
            },
{
    lemma_rules_pass_from(rules, vars, inputs, 0);
    assert forall|j: int| 0 <= j < rules.len() implies {
        let f = #[trigger] consequent_function(rules[j].consequent, vars);
        &&& f is Some
        &&& inverse_check(f->0, strength) is Ok
    } by {
        assert(tsukamoto_consequent_check(rules[j].consequent, vars, j) is Ok);
    }
}

/// The value of the consequent of rule `i` fired at strength `f`: its
/// variable and set are found by name (first match), and `g` inverts the set's
/// membership function at `f`; the value must be finite.
pub open spec fn tsukamoto_value<G>(
    vars: Seq<LinguisticVariable>,
    c: TsukamotoConsequent,
    g: G,
    i: nat,
    f: FloatBits,
) -> Result<FloatBits, InputError> where G: Fn(MembershipFunction, FloatBits) -> Result<FloatBits, InputError> {
    match variable_position_from(vars, c.variable@, 0) {
        None => Err(InputError::ConsequentUnknownVariable { rule: i as usize, variable: c.variable }),
        Some(vp) => match set_position_from(vars[vp].sets@, c.set@, 0) {
            None => Err(
                InputError::ConsequentUnknownSet { rule: i as usize, set: c.set, variable: c.variable },
            ),
            Some(sp) => match inverse_of(g, vars[vp].sets@[sp].function, f) {
                Err(e) => Err(e),
                Ok(z) => if z.spec_finite() {
                    Ok(z)
                } else {
                    Err(InputError::NonFiniteConsequent { rule: i as usize })
                },
            },
        },
    }
}

/// The Tsukamoto rules that fire among the first `n`, in order, and the
/// greatest firing strength (from `0.0`), or the first refusal: each rule's
/// antecedent is evaluated, its firing strength is `s` of the degree and the
/// weight, a rule whose strength is at most `0.0` is passed over, and a rule
/// that fires takes the value of its consequent at that strength.
pub open spec fn tsukamoto_firings<C, S, G>(
    input: TsukamotoInferenceInput,
    m: Seq<(String, NamedValues)>,
    c: C,
    s: S,
    g: G,
    n: nat,
) -> Result<(Seq<Firing>, FloatBits), InputError> where
    C: Fn(FloatBits) -> FloatBits,
    S: Fn(FloatBits, FloatBits) -> FloatBits,
    G: Fn(MembershipFunction, FloatBits) -> Result<FloatBits, InputError>,

    decreases n,
{
    if n == 0 {
        Ok((Seq::empty(), zero_bits()))
    } else {
        let i = (n - 1) as nat;
        let rule = input.rules@[i as int];
        match tsukamoto_firings(input, m, c, s, g, i) {
            Err(e) => Err(e),
            Ok(acc) => match expression_degree(rule.when, m, c) {
                Err(e) => Err(e),
                Ok(a) => {
                    let w = weight_or_one(rule.weight);
                    let f = strength_of(s, a, w);
                    if f.spec_le(zero_bits()) {
                        Ok(acc)
                    } else {
                        match tsukamoto_value(input.variables@, rule.consequent, g, i, f) {
                            Err(e) => Err(e),
                            Ok(z) => Ok((acc.0.push((i, a, w, f, z)), max_strength(acc.1, f))),
                        }
                    }
                },
            },
        }
    }
}

proof fn lemma_tsukamoto_refusal_stays<C, S, G>(
    input: TsukamotoInferenceInput,
    m: Seq<(String, NamedValues)>,
    c: C,
    s: S,
    g: G,
    i: nat,
    n: nat,
) where
    C: Fn(FloatBits) -> FloatBits,
    S: Fn(FloatBits, FloatBits) -> FloatBits,
    G: Fn(MembershipFunction, FloatBits) -> Result<FloatBits, InputError>,

    requires
        i <= n,
        tsukamoto_firings(input, m, c, s, g, i) is Err,
    ensures
        tsukamoto_firings(input, m, c, s, g, n) == tsukamoto_firings(input, m, c, s, g, i),
    decreases n,
{
    if n > i {
        lemma_tsukamoto_refusal_stays(input, m, c, s, g, i, (n - 1) as nat);
    }
}

/// The reported maximum is the strongest firing: every rule that fires has a
/// strength above `0.0`; no strength that is a number exceeds the maximum;
/// the maximum is a number and is the strength of a rule that fired, or
/// `0.0` when no fired strength is a number.
pub proof fn lemma_tsukamoto_strongest<C, S, G>(
    input: TsukamotoInferenceInput,
    m: Seq<(String, NamedValues)>,
    c: C,
    s: S,
    g: G,
    n: nat,
) where
    C: Fn(FloatBits) -> FloatBits,
    S: Fn(FloatBits, FloatBits) -> FloatBits,
    G: Fn(MembershipFunction, FloatBits) -> Result<FloatBits, InputError>,

    ensures
        tsukamoto_firings(input, m, c, s, g, n) matches Ok((fired, mx)) ==> {
            &&& !mx.spec_nan()
            &&& forall|j: int| 0 <= j < fired.len() ==> !(#[trigger] fired[j]).3.spec_le(zero_bits())
            &&& forall|j: int|
                0 <= j < fired.len() && !(#[trigger] fired[j]).3.spec_nan() ==> fired[j].3.spec_le(mx)
            &&& (exists|j: int| 0 <= j < fired.len() && (#[trigger] fired[j]).3 == mx) || (mx == zero_bits()
                && forall|j: int| 0 <= j < fired.len() ==> (#[trigger] fired[j]).3.spec_nan())
        },
    decreases n,
{
    if n > 0 {
        let i = (n - 1) as nat;
        lemma_tsukamoto_strongest(input, m, c, s, g, i);
        match tsukamoto_firings(input, m, c, s, g, i) {
            Ok(acc) => {
                let fired0 = acc.0;
                let mx0 = acc.1;
                match tsukamoto_firings(input, m, c, s, g, n) {
                    Ok(res) => {
                        if res.0.len() > fired0.len() {
                            let f = res.0[fired0.len() as int].3;
                            assert(res.0 == fired0.push(res.0[fired0.len() as int]));
                            assert(!f.spec_le(zero_bits()));
                            assert forall|j: int| 0 <= j < res.0.len() && !(#[trigger] res.0[j]).3.spec_nan()
                                implies res.0[j].3.spec_le(res.1) by {
                                if j < fired0.len() {
                                    assert(res.0[j] == fired0[j]);
                                }
                            }
                            if mx0.spec_lt(f) {
                                assert(res.0[fired0.len() as int].3 == res.1);
                            } else {
                                assert(res.1 == mx0);
                                if exists|j: int| 0 <= j < fired0.len() && (#[trigger] fired0[j]).3 == mx0 {
                                    let j = choose|j: int| 0 <= j < fired0.len() && (#[trigger] fired0[j]).3 == mx0;
                                    assert(res.0[j] == fired0[j]);
                                } else {
                                    assert(f.spec_nan());
                                    assert forall|j: int| 0 <= j < res.0.len() implies (#[trigger] res.0[j]).3.spec_nan() by {
                                        if j < fired0.len() {
                                            assert(res.0[j] == fired0[j]);
                                        }
                                    }
                                }
                            }
                        } else {
                            assert(res == acc);
                        }
                    },
                    Err(_) => {},
                }
            },
            Err(_) => {},
        }
    }
}

/// The Tsukamoto rules that fire are exactly those whose strength is above `0.0`: each
/// firing is a rule among the first `n`, in increasing order, with its
/// antecedent degree, its weight, `s` of the two as its strength and the
/// value of its consequent at that strength; and
/// every rule whose antecedent has a degree and whose strength is above `0.0`
/// fires.
pub proof fn lemma_tsukamoto_fires_positive<C, S, G>(
    input: TsukamotoInferenceInput,
    m: Seq<(String, NamedValues)>,
    c: C,
    s: S,
    g: G,
    n: nat,
) where
    C: Fn(FloatBits) -> FloatBits,
    S: Fn(FloatBits, FloatBits) -> FloatBits,
    G: Fn(MembershipFunction, FloatBits) -> Result<FloatBits, InputError>,

    requires
        n <= input.rules@.len(),
    ensures
        tsukamoto_firings(input, m, c, s, g, n) matches Ok((fired, mx)) ==> {
            &&& forall|j: int|
                0 <= j < fired.len() ==> {
                    let f = #[trigger] fired[j];
                    &&& f.0 < n
                    &&& expression_degree(input.rules@[f.0 as int].when, m, c) == Ok::<FloatBits, InputError>(f.1)
                    &&& f.2 == weight_or_one(input.rules@[f.0 as int].weight)
                    &&& f.3 == strength_of(s, f.1, f.2)
                    &&& tsukamoto_value(input.variables@, input.rules@[f.0 as int].consequent, g, f.0, f.3)
                        == Ok::<FloatBits, InputError>(f.4)
                }
            &&& forall|j1: int, j2: int|
                0 <= j1 < j2 < fired.len() ==> (#[trigger] fired[j1]).0 < (#[trigger] fired[j2]).0
            &&& forall|i: int|
                0 <= i < n && (#[trigger] expression_degree(input.rules@[i].when, m, c)) is Ok && !strength_of(
                    s,
                    expression_degree(input.rules@[i].when, m, c)->Ok_0,
                    weight_or_one(input.rules@[i].weight),
                ).spec_le(zero_bits()) ==> exists|j: int| 0 <= j < fired.len() && (#[trigger] fired[j]).0 == i
        },
    decreases n,
{
    if n > 0 {
        let i = (n - 1) as nat;
        lemma_tsukamoto_fires_positive(input, m, c, s, g, i);
        match tsukamoto_firings(input, m, c, s, g, i) {
            Ok(acc) => {
                let before = acc.0;
                match tsukamoto_firings(input, m, c, s, g, n) {
                    Ok(res) => {
                        let now = res.0;
                        assert forall|j: int| 0 <= j < before.len() implies #[trigger] now[j] == before[j] by {
                            if now.len() > before.len() {
                                assert(now == before.push(now[before.len() as int]));
                            } else {
                                assert(now == before);
                            }
                        }
                        assert forall|j1: int, j2: int| 0 <= j1 < j2 < now.len() implies (#[trigger] now[j1]).0
                            < (#[trigger] now[j2]).0 by {
                            assert(now[j1] == before[j1]);
                            if j2 < before.len() {
                                assert(now[j2] == before[j2]);
                            }
                        }
                        assert forall|k: int|
                            0 <= k < n && (#[trigger] expression_degree(input.rules@[k].when, m, c)) is Ok
                                && !strength_of(s, expression_degree(input.rules@[k].when, m, c)->Ok_0, weight_or_one(input.rules@[k].weight)).spec_le(zero_bits())
                                implies exists|j: int| 0 <= j < now.len() && (#[trigger] now[j]).0 == k by {
                            if k < i {
                                let j = choose|j: int| 0 <= j < before.len() && (#[trigger] before[j]).0 == k;
                                assert(now[j] == before[j]);
                            } else {
                                assert(now[before.len() as int].0 == k);
                            }
                        }
                    },
                    Err(_) => {},
                }
            },
            Err(_) => {},
        }
    }
}

/// A Tsukamoto rule that fired.
#[derive(Debug, Clone)]
pub struct TsukamotoActivatedRule {
    pub id: String,
    pub antecedent_strength: FloatBits,
    pub weight: FloatBits,
    pub firing_strength: FloatBits,
    pub consequent: String,
    pub consequent_value: FloatBits,
}

/// Whether `rec` reports the firing `f` of `rule`.
pub open spec fn tsukamoto_record(rec: TsukamotoActivatedRule, rule: TsukamotoRule, f: Firing) -> bool {
    &&& rec.id@ == reported_id(rule.id, f.0)
    &&& rec.antecedent_strength == f.1
    &&& rec.weight == f.2
    &&& rec.firing_strength == f.3
    &&& rec.consequent@ == rule.consequent.variable@ + seq!['.'] + rule.consequent.set@
    &&& rec.consequent_value == f.4
}

/// The rules that fired and the greatest firing strength.
#[derive(Debug, Clone)]
pub struct TsukamotoActivation {
    pub activated_rules: Vec<TsukamotoActivatedRule>,
    pub max_firing_strength: FloatBits,
}

impl TsukamotoActivation {
    /// The confidence of the inference: the greatest firing strength when the
    /// rules give an output, `0.0` when they give none.
    pub fn confidence(&self, has_output: bool) -> (r: FloatBits)
        ensures
            has_output ==> r == self.max_firing_strength,
            !has_output ==> r == zero_bits(),
    {
        if has_output {
            self.max_firing_strength
        } else {
            FloatBits::zero()
        }
    }
}

/// The Tsukamoto engine: monotonic consequents inverted at the firing
/// strength, then the weighted average of the values.
pub struct TsukamotoInferenceEngine;

impl TsukamotoInferenceEngine {
    /// Fires the rules in order over the evaluated memberships: `complement`
    /// is the fuzzy `not`, `strength` the firing strength of a degree and a
    /// weight, and `inverse` the inverse of a membership function at a degree.
    pub fn activate<C, S, G>(
        &self,
        input: &TsukamotoInferenceInput,
        memberships: &Vec<(String, NamedValues)>,
        complement: &C,
        strength: &S,
        inverse: &G,
    ) -> (r: Result<TsukamotoActivation, InputError>) where
        C: Fn(FloatBits) -> FloatBits,
        S: Fn(FloatBits, FloatBits) -> FloatBits,
        G: Fn(MembershipFunction, FloatBits) -> Result<FloatBits, InputError>,

        requires
            is_complement(*complement),
            is_strength(*strength),
            is_inverse(*inverse),
            input.rules@.len() < usize::MAX,
        ensures
            match (r, tsukamoto_firings(*input, memberships@, *complement, *strength, *inverse, input.rules@.len())) {
                (Ok(act), Ok(fired)) => {
                    &&& act.activated_rules@.len() == fired.0.len()
                    &&& act.max_firing_strength == fired.1
                    &&& forall|j: int|
                        0 <= j < fired.0.len() ==> tsukamoto_record(
                            #[trigger] act.activated_rules@[j],
                            input.rules@[fired.0[j].0 as int],
                            fired.0[j],
                        )
                },
                (Err(e), Err(e2)) => e == e2,
                _ => false,
            },
            r matches Ok(act) ==> {
                &&& !act.max_firing_strength.spec_nan()
                &&& forall|j: int|
                    0 <= j < act.activated_rules@.len() ==> !(#[trigger] act.activated_rules@[j]).firing_strength.spec_le(
                        zero_bits(),
                    )
                &&& forall|j: int|
                    0 <= j < act.activated_rules@.len() && !(#[trigger] act.activated_rules@[j]).firing_strength.spec_nan()
                        ==> act.activated_rules@[j].firing_strength.spec_le(act.max_firing_strength)
                &&& (exists|j: int|
                    0 <= j < act.activated_rules@.len() && (#[trigger] act.activated_rules@[j]).firing_strength
                        == act.max_firing_strength) || (act.max_firing_strength == zero_bits() && forall|j: int|
                    0 <= j < act.activated_rules@.len() ==> (#[trigger] act.activated_rules@[j]).firing_strength.spec_nan())
            },
    {
        let n = input.rules.len();
        let mut activated: Vec<TsukamotoActivatedRule> = Vec::new();
        let mut max = FloatBits::zero();
        let ghost mut fired: Seq<Firing> = Seq::empty();
        let mut i: usize = 0;
        while i < n
            invariant
                n == input.rules@.len(),
                n < usize::MAX,
                i <= n,
                is_complement(*complement),
                is_strength(*strength),
                is_inverse(*inverse),
                tsukamoto_firings(*input, memberships@, *complement, *strength, *inverse, i as nat)
                    == Ok::<(Seq<Firing>, FloatBits), InputError>((fired, max)),
                activated@.len() == fired.len(),
                forall|j: int| 0 <= j < fired.len() ==> #[trigger] fired[j].0 < i,
                forall|j: int|
                    0 <= j < fired.len() ==> tsukamoto_record(
                        #[trigger] activated@[j],
                        input.rules@[fired[j].0 as int],
                        fired[j],
                    ),
            decreases n - i,
        {
            let rule = &input.rules[i];
            let a = match evaluate_expression(&rule.when, memberships, complement) {
                Ok(d) => d.value(),
                Err(e) => {
                    proof {
                        lemma_tsukamoto_refusal_stays(
                            *input, memberships@, *complement, *strength, *inverse, (i + 1) as nat, n as nat,
                        );
                    }
                    return Err(e);
                },
            };
            let w = rule.weight();
            let f = strength(a, w);
            let zero = FloatBits::zero();
            if !f.le(&zero) {
                let z = match self.consequent_value(input, i, f, inverse) {
                    Ok(z) => z,
                    Err(e) => {
                        proof {
                            lemma_tsukamoto_refusal_stays(
                                *input, memberships@, *complement, *strength, *inverse, (i + 1) as nat, n as nat,
                            );
                        }
                        return Err(e);
                    },
                };
                let id = rule_id(&rule.id, i);
                let key = rule.consequent.key();
                let ghost before = activated@;
                let ghost fired_before = fired;
                activated.push(
                    TsukamotoActivatedRule {
                        id,
                        antecedent_strength: a,
                        weight: w,
                        firing_strength: f,
                        consequent: key,
                        consequent_value: z,
                    },
                );
                proof {
                    fired = fired.push((i as nat, a, w, f, z));
                    assert forall|j: int| 0 <= j < fired.len() implies #[trigger] fired[j].0 < i + 1 && tsukamoto_record(
                        activated@[j],
                        input.rules@[fired[j].0 as int],
                        fired[j],
                    ) by {
                        if j < fired_before.len() {
                            assert(activated@[j] == before[j]);
                            assert(fired[j] == fired_before[j]);
                        }
                    }
                }
                if max.lt(&f) {
                    max = f;
                }
            }
            i = i + 1;
        }
        proof {
            lemma_tsukamoto_strongest(*input, memberships@, *complement, *strength, *inverse, n as nat);
            assert forall|j: int| 0 <= j < activated@.len() implies (#[trigger] activated@[j]).firing_strength
                == fired[j].3 by {
                assert(tsukamoto_record(activated@[j], input.rules@[fired[j].0 as int], fired[j]));
            }
            if exists|j: int| 0 <= j < fired.len() && (#[trigger] fired[j]).3 == max {
                let j = choose|j: int| 0 <= j < fired.len() && (#[trigger] fired[j]).3 == max;
                assert(activated@[j].firing_strength == max);
            }
        }
        Ok(TsukamotoActivation { activated_rules: activated, max_firing_strength: max })
    }

    /// The value of the consequent of rule `i` fired at strength `f`.
    fn consequent_value<G>(&self, input: &TsukamotoInferenceInput, i: usize, f: FloatBits, inverse: &G) -> (r:
        Result<FloatBits, InputError>) where G: Fn(MembershipFunction, FloatBits) -> Result<FloatBits, InputError>
        requires
            i < input.rules@.len(),
            is_inverse(*inverse),
        ensures
            r == tsukamoto_value(input.variables@, input.rules@[i as int].consequent, *inverse, i as nat, f),
    {
        let c = &input.rules[i].consequent;
        let v = match find_variable(&input.variables, c.variable.as_str()) {
            Some(v) => v,
            None => {
                return Err(InputError::ConsequentUnknownVariable { rule: i, variable: c.variable.clone() });
            },
        };
        let sets = &input.variables[v].sets;
        let s = match find_set(sets, c.set.as_str()) {
            Some(s) => s,
            None => {
                return Err(
                    InputError::ConsequentUnknownSet { rule: i, set: c.set.clone(), variable: c.variable.clone() },
                );
            },
        };
        let z = match inverse(sets[s].function, f) {
            Ok(z) => z,
            Err(e) => {
                return Err(e);
            },
        };
        if z.is_finite() {
            Ok(z)
        } else {
            Err(InputError::NonFiniteConsequent { rule: i })
        }
    }
}

/// Whether Tsukamoto rule `i` passes its checks: an id, when given, that is
/// not blank; a weight finite and in `[0, 1]`; an antecedent over known
/// variables and sets; a consequent naming a known monotonic set.
pub open spec fn tsukamoto_rule_ok(
    rules: Seq<TsukamotoRule>,
    vars: Seq<LinguisticVariable>,
    inputs: Seq<(String, FloatBits)>,
    i: int,
) -> bool {
    &&& !(rules[i].id matches Some(id) && is_blank_spec(id@))
    &&& weight_ok(weight_or_one(rules[i].weight))
    &&& expression_check(rules[i].when, vars, inputs) is Ok
    &&& tsukamoto_consequent_check(rules[i].consequent, vars, i) is Ok
}

/// The Tsukamoto rules from position `i` on are accepted exactly when each
/// passes its own checks.
pub proof fn lemma_tsukamoto_rules_ok(
    rules: Seq<TsukamotoRule>,
    vars: Seq<LinguisticVariable>,
    inputs: Seq<(String, FloatBits)>,
    i: int,
)
    requires
        0 <= i <= rules.len(),
    ensures
        tsukamoto_rules_check_from(rules, vars, inputs, i) is Ok <==> forall|j: int|
            i <= j < rules.len() ==> #[trigger] tsukamoto_rule_ok(rules, vars, inputs, j),
    decreases rules.len() - i,
{
    if i < rules.len() {
        lemma_tsukamoto_rules_ok(rules, vars, inputs, i + 1);
        assert((forall|j: int| i <= j < rules.len() ==> #[trigger] tsukamoto_rule_ok(rules, vars, inputs, j)) <==> (tsukamoto_rule_ok(rules, vars, inputs, i) && forall|j: int|
            i + 1 <= j < rules.len() ==> #[trigger] tsukamoto_rule_ok(rules, vars, inputs, j))) by {
            if tsukamoto_rule_ok(rules, vars, inputs, i) && (forall|j: int| i + 1 <= j < rules.len() ==> #[trigger] tsukamoto_rule_ok(rules, vars, inputs, j)) {
                assert forall|j: int| i <= j < rules.len() implies #[trigger] tsukamoto_rule_ok(rules, vars, inputs, j) by {
                    if j == i {
                    }
                }
            }
        }
    }
}

} // verus!
