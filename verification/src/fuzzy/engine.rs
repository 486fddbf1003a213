//! Mamdani inference: the parts that are decided on names and positions.
use crate::float_bits::{last_maximum, lemma_max_by_position_in_range, max_by_position, FloatBits};
use crate::error::InputError;
use crate::fuzzy::sugeno::weight_or_one;
use crate::fuzzy::types::{
    clamp_unit, degree_of, evaluate_expression, expression_check, expression_degree, fuzzy_input_check,
    fuzzy_rule_ok, input_memberships, is_complement, is_membership_eval, is_strength, lemma_checked_expression_evaluates,
    lemma_degree_of, lemma_fuzzy_rules_ok, lemma_table_covers, membership_of,
    membership_value, one_bits, strength_of, zero_bits, ActivatedRule, FuzzyConsequent, FuzzyInferenceInput,
    FuzzyInferenceOutput, FuzzyRule, LinguisticVariable, MembershipDegree,
};
use crate::named::{lemma_lookup_at, lemma_lookup_found, lookup, names_sorted, NamedValues};
use crate::text::{decimal, decimal_string};
use vstd::prelude::*;
use vstd::string::StringExecFns;

verus! {

/// The id a rule at position `idx` reports when it has none of its own:
/// `"rule-{idx + 1}"`.
pub open spec fn default_rule_id_spec(idx: nat) -> Seq<char> {
    seq!['r', 'u', 'l', 'e', '-'] + decimal(idx + 1)
}

/// `format!("rule-{}", idx + 1)`.
pub fn default_rule_id(idx: usize) -> (r: String)
    requires
        idx < usize::MAX,
    ensures
        r@ == default_rule_id_spec(idx as nat),
{
    let mut s = String::from_str("rule-");
    proof {
        reveal_strlit("rule-");
    }
    let d = decimal_string(idx + 1);
    s.append(d.as_str());
    assert(s@ =~= default_rule_id_spec(idx as nat));
    s
}

/// The id a rule reports: its own, or the positional default.
pub fn rule_id(id: &Option<String>, idx: usize) -> (r: String)
    requires
        idx < usize::MAX,
    ensures
        id matches Some(s) ==> r@ == s@,
        id is None ==> r@ == default_rule_id_spec(idx as nat),
{
    match id {
        Some(s) => s.clone(),
        None => default_rule_id(idx),
    }
}

/// The membership key `"{variable}.{set}"` of a consequent.
pub open spec fn consequent_key(c: FuzzyConsequent) -> Seq<char> {
    c.variable@ + seq!['.'] + c.set@
}

/// A rule's weight as a degree: its own, clamped into `[0, 1]`, or `1.0`.
pub open spec fn rule_weight(r: FuzzyRule) -> FloatBits {
    clamp_unit(weight_or_one(r.weight))
}

/// The id a rule at position `idx` reports.
pub open spec fn rule_id_spec(r: FuzzyRule, idx: nat) -> Seq<char> {
    match r.id {
        Some(s) => s@,
        None => default_rule_id_spec(idx),
    }
}

/// The membership of `key` after the first `n` rules have fired: the
/// strength of the first rule with that consequent, replaced by each later
/// one that is strictly greater; `None` when no such rule is among them.
pub open spec fn aggregated(
    rules: Seq<FuzzyRule>,
    strengths: Seq<MembershipDegree>,
    key: Seq<char>,
    n: nat,
) -> Option<FloatBits>
    decreases n,
{
    if n == 0 {
        None
    } else {
        let prev = aggregated(rules, strengths, key, (n - 1) as nat);
        let s = strengths[n - 1]@;
        if consequent_key(rules[n - 1].consequent) == key {
            match prev {
                None => Some(s),
                Some(c) => if c.spec_lt(s) {
                    Some(s)
                } else {
                    Some(c)
                },
            }
        } else {
            prev
        }
    }
}

/// The positions, in order, among the first `n`, whose strength is above
/// zero: the rules that fired.
pub open spec fn fired(strengths: Seq<MembershipDegree>, n: nat) -> Seq<int>
    decreases n,
{
    if n == 0 {
        Seq::empty()
    } else {
        let p = fired(strengths, (n - 1) as nat);
        if zero_bits().spec_lt(strengths[n - 1]@) {
            p.push(n - 1)
        } else {
            p
        }
    }
}

/// The largest of the first `n` values of `entries`, starting from `0.0`
/// and taking a value only when it is strictly greater.
pub open spec fn peak(entries: Seq<(String, FloatBits)>, n: nat) -> FloatBits
    decreases n,
{
    if n == 0 {
        zero_bits()
    } else {
        let a = peak(entries, (n - 1) as nat);
        let b = entries[n - 1].1;
        if a.spec_lt(b) {
            b
        } else {
            a
        }
    }
}

/// The record of a fired rule at position `i`.
pub open spec fn activated_record(
    a: ActivatedRule,
    rule: FuzzyRule,
    antecedent: MembershipDegree,
    strength: MembershipDegree,
    i: nat,
) -> bool {
    &&& a.id@ == rule_id_spec(rule, i)
    &&& a.antecedent_strength == antecedent
    &&& a.weight@ == rule_weight(rule)
    &&& a.strength == strength
    &&& a.consequent@ == consequent_key(rule.consequent)
}

/// The Mamdani engine (max-aggregation of rule strengths per consequent).
pub struct FuzzyInferenceEngine;

impl FuzzyInferenceEngine {
    /// Folds the evaluated rules into the inference result: each consequent
    /// keeps the greatest strength of its rules, the rules whose strength is
    /// above zero are reported in order, and the confidence is the greatest
    /// membership. `antecedents[i]` and `strengths[i]` are the antecedent
    /// degree of rule `i` and that degree times its weight, clamped.
    pub fn aggregate(
        rules: &Vec<FuzzyRule>,
        antecedents: &Vec<MembershipDegree>,
        strengths: &Vec<MembershipDegree>,
        input_memberships: Vec<(String, NamedValues)>,
    ) -> (out: FuzzyInferenceOutput)
        requires
            antecedents.len() == rules.len(),
            strengths.len() == rules.len(),
            rules.len() < usize::MAX,
        ensures
            forall|k: Seq<char>|
                #[trigger] lookup(out.memberships@, k) == aggregated(
                    rules@,
                    strengths@,
                    k,
                    rules.len() as nat,
                ),
            out.activated_rules.len() == fired(strengths@, rules.len() as nat).len(),
            forall|j: int|
                0 <= j < out.activated_rules.len() ==> {
                    let i = #[trigger] fired(strengths@, rules.len() as nat)[j];
                    activated_record(
                        out.activated_rules[j],
                        rules[i],
                        antecedents[i],
                        strengths[i],
                        i as nat,
                    )
                },
            out.confidence@ == peak(out.memberships@, out.memberships@.len()),
            out.total_rules == rules.len(),
            out.input_memberships == input_memberships,
    {
        let n = rules.len();
        let mut memberships = NamedValues::new();
        let mut activated: Vec<ActivatedRule> = Vec::new();
        let mut i: usize = 0;
        while i < n
            invariant
                n == rules.len(),
                antecedents.len() == n,
                strengths.len() == n,
                n < usize::MAX,
                i <= n,
                forall|k: Seq<char>|
                    #[trigger] lookup(memberships@, k) == aggregated(
                        rules@,
                        strengths@,
                        k,
                        i as nat,
                    ),
                activated.len() == fired(strengths@, i as nat).len(),
                forall|j: int|
                    0 <= j < activated.len() ==> {
                        let p = #[trigger] fired(strengths@, i as nat)[j];
                        activated_record(activated[j], rules[p], antecedents[p], strengths[p], p as nat)
                    },
                forall|j: int|
                    0 <= j < fired(strengths@, i as nat).len() ==> 0 <= #[trigger] fired(
                        strengths@,
                        i as nat,
                    )[j] < i,
                forall|k: Seq<char>|
                    #[trigger] lookup(memberships@, k) matches Some(v) ==> v.spec_within(zero_bits(), one_bits()),
            decreases n - i,
        {
            let rule = &rules[i];
            let strength = strengths[i];
            let sv = strength.value();
            let key = rule.consequent.key();
            let current = memberships.get(key.as_str());
            let replace = match current {
                None => true,
                Some(c) => c.lt(&strength.value()),
            };
            if replace {
                memberships.insert(key.clone(), strength.value());
            }
            proof {
                assert forall|k: Seq<char>|
                    #[trigger] lookup(memberships@, k) == aggregated(
                        rules@,
                        strengths@,
                        k,
                        (i + 1) as nat,
                    ) by {
                    assert(key@ == consequent_key(rules@[i as int].consequent));
                }
            }
            let zero = FloatBits::zero();
            if zero.lt(&strength.value()) {
                let record = ActivatedRule {
                    id: rule_id(&rule.id, i),
                    antecedent_strength: antecedents[i],
                    weight: rule.weight(),
                    strength,
                    consequent: key,
                };
                activated.push(record);
            }
            i = i + 1;
        }
        let confidence = Self::peak_of(&memberships);
        FuzzyInferenceOutput {
            input_memberships,
            memberships,
            activated_rules: activated,
            confidence,
            total_rules: n,
        }
    }

    /// The greatest membership, from `0.0`, in key order.
    fn peak_of(memberships: &NamedValues) -> (r: MembershipDegree)
        requires
            forall|k: Seq<char>|
                #[trigger] lookup(memberships@, k) matches Some(v) ==> v.spec_within(zero_bits(), one_bits()),
        ensures
            r@ == peak(memberships@, memberships@.len()),
    {
        let n = memberships.len();
        let mut best = FloatBits::zero();
        let mut i: usize = 0;
        while i < n
            invariant
                n == memberships@.len(),
                names_sorted(memberships@),
                i <= n,
                best == peak(memberships@, i as nat),
                best.spec_within(zero_bits(), one_bits()),
                forall|k: Seq<char>|
                    #[trigger] lookup(memberships@, k) matches Some(v) ==> v.spec_within(zero_bits(), one_bits()),
            decreases n - i,
        {
            let v = memberships.value_at(i);
            proof {
                lemma_lookup_at(memberships@, i as int);
                assert(lookup(memberships@, memberships@[i as int].0@) == Some(v));
            }
            if best.lt(&v) {
                best = v;
            }
            i = i + 1;
        }
        MembershipDegree::from_unit(best)
    }
}

/// The values of the entries, in name order.
pub open spec fn entry_values(entries: Seq<(String, FloatBits)>) -> Seq<FloatBits> {
    entries.map_values(|e: (String, FloatBits)| e.1)
}

impl FuzzyInferenceOutput {
    /// The position, in name order, of the membership that the summary
    /// reports: the greatest, the last of equal or unordered ones; `None` when
    /// there are no memberships.
    pub fn top_membership(&self) -> (r: Option<usize>)
        ensures
            r matches Some(t) ==> t < self.memberships@.len() && max_by_position(
                entry_values(self.memberships@),
                self.memberships@.len(),
            ) == Some(t as nat),
            r is None <==> self.memberships@.len() == 0,
    {
        let n = self.memberships.len();
        let mut values: Vec<FloatBits> = Vec::new();
        let mut i: usize = 0;
        while i < n
            invariant
                n == self.memberships@.len(),
                i <= n,
                values@ == entry_values(self.memberships@).take(i as int),
            decreases n - i,
        {
            values.push(self.memberships.value_at(i));
            i = i + 1;
        }
        assert(values@ == entry_values(self.memberships@));
        proof {
            lemma_max_by_position_in_range(values@, n as nat);
        }
        last_maximum(&values)
    }
}

/// The antecedent degree of rule `i` over the membership table `m`.
pub open spec fn rule_degree<C: Fn(FloatBits) -> FloatBits>(
    rules: Seq<FuzzyRule>,
    m: Seq<(String, NamedValues)>,
    c: C,
    i: int,
) -> FloatBits {
    expression_degree(rules[i].when, m, c)->Ok_0
}

/// The antecedent degrees of the rules, as degrees.
pub open spec fn antecedent_degrees<C: Fn(FloatBits) -> FloatBits>(
    rules: Seq<FuzzyRule>,
    m: Seq<(String, NamedValues)>,
    c: C,
) -> Seq<MembershipDegree> {
    Seq::new(rules.len(), |i: int| degree_of(rule_degree(rules, m, c, i)))
}

/// The strength of each rule: `s` of its antecedent degree and its weight,
/// clamped into `[0, 1]`.
pub open spec fn rule_strengths<C: Fn(FloatBits) -> FloatBits, S: Fn(FloatBits, FloatBits) -> FloatBits>(
    rules: Seq<FuzzyRule>,
    m: Seq<(String, NamedValues)>,
    c: C,
    s: S,
) -> Seq<MembershipDegree> {
    Seq::new(rules.len(), |i: int| degree_of(strength_of(s, rule_degree(rules, m, c, i), rule_weight(rules[i]))))
}

/// Whether `m` is the membership table of the crisp inputs: each entry names
/// a variable with a crisp input, and each set of the first variable of a
/// name, the last set of a name, has `g` of its function at the input.
pub open spec fn is_input_table<G: Fn(crate::fuzzy::types::MembershipFunction, FloatBits) -> FloatBits>(
    m: Seq<(String, NamedValues)>,
    inputs: Seq<(String, FloatBits)>,
    vars: Seq<LinguisticVariable>,
    g: G,
) -> bool {
    &&& forall|p: int|
        0 <= p < m.len() ==> exists|i: int|
            0 <= i < vars.len() && (#[trigger] m[p]).0@ == vars[i].name@ && lookup(inputs, vars[i].name@) is Some
    &&& forall|i: int, j: int|
        0 <= i < vars.len() && 0 <= j < vars[i].sets@.len() && (forall|i2: int|
            0 <= i2 < i ==> (#[trigger] vars[i2]).name@ != vars[i].name@) && (forall|j2: int|
            j < j2 < vars[i].sets@.len() ==> (#[trigger] vars[i].sets@[j2]).name@ != vars[i].sets@[j].name@)
            && lookup(inputs, vars[i].name@) is Some ==> #[trigger] membership_of(
            m,
            vars[i].name@,
            vars[i].sets@[j].name@,
        ) == Some(membership_value(g, vars[i].sets@[j].function, lookup(inputs, vars[i].name@)->0))
}

impl FuzzyInferenceEngine {
    /// Mamdani inference: the rule base is checked; the crisp inputs are
    /// evaluated in the sets of their variables (`eval`); each rule's
    /// antecedent degree is evaluated (`complement` is the fuzzy `not`) and
    /// its strength is `strength` of that degree and its weight, clamped; the
    /// strengths are max-aggregated per consequent, the rules of positive
    /// strength are reported in order, and the confidence is the greatest
    /// membership. Inference succeeds exactly when the rule base passes its
    /// checks.
    pub fn infer<C, S, G>(
        input: &FuzzyInferenceInput,
        complement: &C,
        strength: &S,
        eval: &G,
    ) -> (r: Result<FuzzyInferenceOutput, InputError>) where
        C: Fn(FloatBits) -> FloatBits,
        S: Fn(FloatBits, FloatBits) -> FloatBits,
        G: Fn(crate::fuzzy::types::MembershipFunction, FloatBits) -> FloatBits,

        requires
            is_complement(*complement),
            is_strength(*strength),
            is_membership_eval(*eval),
            input.rules@.len() < usize::MAX,
        ensures
            r is Ok <==> fuzzy_input_check(input.inputs@, input.variables@, input.rules@) is Ok,
            r matches Err(e) ==> fuzzy_input_check(input.inputs@, input.variables@, input.rules@) == Err::<
                (),
                InputError,
            >(e),
            r matches Ok(out) ==> {
                let m = out.input_memberships@;
                let rules = input.rules@;
                let n = rules.len();
                let a = antecedent_degrees(rules, m, *complement);
                let st = rule_strengths(rules, m, *complement, *strength);
                &&& is_input_table(m, input.inputs@, input.variables@, *eval)
                &&& forall|k: Seq<char>| #[trigger] lookup(out.memberships@, k) == aggregated(rules, st, k, n)
                &&& out.activated_rules.len() == fired(st, n).len()
                &&& forall|j: int|
                    0 <= j < out.activated_rules.len() ==> {
                        let i = #[trigger] fired(st, n)[j];
                        activated_record(out.activated_rules[j], rules[i], a[i], st[i], i as nat)
                    }
                &&& out.confidence@ == peak(out.memberships@, out.memberships@.len())
                &&& out.total_rules == n
            },
    {
        let checked = input.validate();
        if let Err(e) = checked {
            return Err(e);
        }
        let memberships = input_memberships(&input.inputs, &input.variables, eval);
        let ghost m = memberships@;
        let ghost rules = input.rules@;
        proof {
            assert(crate::fuzzy::types::base_check(input.inputs@, input.variables@, rules.len(), crate::error::RuleBase::Fuzzy) is Ok);
            lemma_table_covers(m, input.variables@, input.inputs@);
            lemma_fuzzy_rules_ok(rules, input.variables@, input.inputs@, 0);
            assert forall|i: int| 0 <= i < rules.len() implies (#[trigger] expression_degree(rules[i].when, m, *complement)) is Ok by {
                assert(fuzzy_rule_ok(rules[i], input.variables@, input.inputs@));
                lemma_checked_expression_evaluates(rules[i].when, input.variables@, input.inputs@, m, *complement);
            }
        }
        let antecedents = match rule_antecedents(&input.rules, &memberships, complement) {
            Ok(a) => a,
            Err(e) => {
                proof {
                    assert(false);
                }
                return Err(e);
            },
        };
        let n = input.rules.len();
        let mut strengths: Vec<MembershipDegree> = Vec::new();
        let mut i: usize = 0;
        while i < n
            invariant
                n == rules.len(),
                rules == input.rules@,
                m == memberships@,
                antecedents@.len() == n,
                is_strength(*strength),
                forall|j: int|
                    0 <= j < n ==> #[trigger] expression_degree(rules[j].when, m, *complement)
                        == Ok::<FloatBits, InputError>(antecedents@[j]@),
                i <= n,
                strengths@.len() == i,
                forall|j: int| 0 <= j < i ==> #[trigger] antecedents@[j] == antecedent_degrees(rules, m, *complement)[j],
                forall|j: int| 0 <= j < i ==> #[trigger] strengths@[j] == rule_strengths(rules, m, *complement, *strength)[j],
            decreases n - i,
        {
            let a = antecedents[i];
            let av = a.value();
            let w = input.rules[i].weight();
            let sv = strength(av, w.value());
            let d = MembershipDegree::new(sv);
            proof {
                lemma_degree_of(a, av);
                assert(clamp_unit(av) == av);
                lemma_degree_of(d, sv);
            }
            strengths.push(d);
            proof {
                assert forall|j: int| 0 <= j < i + 1 implies #[trigger] antecedents@[j] == antecedent_degrees(rules, m, *complement)[j] by {
                    if j == i {
                        assert(rule_degree(rules, m, *complement, j) == av);
                    }
                }
            }
            i = i + 1;
        }
        proof {
            assert(antecedents@ =~= antecedent_degrees(rules, m, *complement));
            assert(strengths@ =~= rule_strengths(rules, m, *complement, *strength));
        }
        Ok(Self::aggregate(&input.rules, &antecedents, &strengths, memberships))
    }
}

/// The antecedent degree of every rule, in rule order, or the refusal of the
/// first rule whose antecedent names a membership that was not evaluated.
pub fn rule_antecedents<F: Fn(FloatBits) -> FloatBits>(
    rules: &Vec<FuzzyRule>,
    memberships: &Vec<(String, NamedValues)>,
    complement: &F,
) -> (r: Result<Vec<MembershipDegree>, InputError>)
    requires
        is_complement(*complement),
    ensures
        r is Ok <==> forall|i: int|
            0 <= i < rules@.len() ==> (#[trigger] expression_degree(rules@[i].when, memberships@, *complement)) is Ok,
        r matches Ok(v) ==> v@.len() == rules@.len() && forall|i: int|
            0 <= i < rules@.len() ==> #[trigger] expression_degree(rules@[i].when, memberships@, *complement)
                == Ok::<FloatBits, InputError>(v@[i]@),
        r matches Err(err) ==> exists|k: int|
            0 <= k < rules@.len() && #[trigger] expression_degree(rules@[k].when, memberships@, *complement)
                == Err::<FloatBits, InputError>(err) && forall|i: int|
                0 <= i < k ==> (#[trigger] expression_degree(rules@[i].when, memberships@, *complement)) is Ok,
{
    let n = rules.len();
    let mut degrees: Vec<MembershipDegree> = Vec::new();
    let mut i: usize = 0;
    while i < n
        invariant
            n == rules@.len(),
            i <= n,
            is_complement(*complement),
            degrees@.len() == i,
            forall|j: int|
                0 <= j < i ==> #[trigger] expression_degree(rules@[j].when, memberships@, *complement)
                    == Ok::<FloatBits, InputError>(degrees@[j]@),
        decreases n - i,
    {
        match evaluate_expression(&rules[i].when, memberships, complement) {
            Ok(d) => degrees.push(d),
            Err(err) => {
                assert(forall|j: int|
                    0 <= j < i ==> (#[trigger] expression_degree(rules@[j].when, memberships@, *complement)) is Ok);
                return Err(err);
            },
        }
        i = i + 1;
    }
    Ok(degrees)
}

} // verus!

verus! {

/// The confidence of a Mamdani result is a number, at least every
/// membership that is a number, and either `0.0` or one of the memberships.
pub proof fn lemma_confidence_is_top_membership(entries: Seq<(String, FloatBits)>, n: nat)
    requires
        n <= entries.len(),
    ensures
        !peak(entries, n).spec_nan(),
        forall|j: int|
            0 <= j < n && !(#[trigger] entries[j]).1.spec_nan() ==> entries[j].1.spec_le(
                peak(entries, n),
            ),
        peak(entries, n) == zero_bits() || exists|j: int|
            0 <= j < n && peak(entries, n) == (#[trigger] entries[j]).1,
    decreases n,
{
    if n > 0 {
        lemma_confidence_is_top_membership(entries, (n - 1) as nat);
        let a = peak(entries, (n - 1) as nat);
        let b = entries[n - 1].1;
        if a.spec_lt(b) {
            assert(peak(entries, n) == entries[n - 1].1);
        }
    }
}

/// Whether rule `i` leaves its consequent, after `n` rules, with a membership
/// at least its own strength.
pub open spec fn dominated(
    rules: Seq<FuzzyRule>,
    strengths: Seq<MembershipDegree>,
    i: int,
    n: nat,
) -> bool {
    let m = aggregated(rules, strengths, consequent_key(rules[i].consequent), n);
    &&& m is Some
    &&& strengths[i]@.spec_le(m->0)
}

/// Under max-aggregation, each rule whose strength is a number leaves its
/// consequent with a membership at least that strength, and the membership
/// of a consequent is the strength of one of its rules.
pub proof fn lemma_membership_dominates_rules(
    rules: Seq<FuzzyRule>,
    strengths: Seq<MembershipDegree>,
    n: nat,
)
    requires
        n <= rules.len(),
        n <= strengths.len(),
        forall|i: int| 0 <= i < n ==> !(#[trigger] strengths[i])@.spec_nan(),
    ensures
        forall|i: int| 0 <= i < n ==> #[trigger] dominated(rules, strengths, i, n),
        forall|k: Seq<char>|
            (#[trigger] aggregated(rules, strengths, k, n)) is Some ==> exists|i: int|
                0 <= i < n && consequent_key(rules[i].consequent) == k && strengths[i]@
                    == aggregated(rules, strengths, k, n)->0,
    decreases n,
{
    if n > 0 {
        let p = (n - 1) as nat;
        lemma_membership_dominates_rules(rules, strengths, p);
        assert forall|i: int| 0 <= i < n implies #[trigger] dominated(rules, strengths, i, n) by {
            let k = consequent_key(rules[i].consequent);
            if i < p {
                assert(dominated(rules, strengths, i, p));
                assert(!strengths[p as int]@.spec_nan());
                if consequent_key(rules[p as int].consequent) == k {
                    let c = aggregated(rules, strengths, k, p)->0;
                    let s = strengths[p as int]@;
                    if c.spec_lt(s) {
                        assert(strengths[i]@.spec_le(s));
                    }
                }
            } else {
                assert(!strengths[i]@.spec_nan());
            }
        }
        assert forall|k: Seq<char>|
            (#[trigger] aggregated(rules, strengths, k, n)) is Some implies exists|i: int|
                0 <= i < n && consequent_key(rules[i].consequent) == k && strengths[i]@
                    == aggregated(rules, strengths, k, n)->0 by {
            let m = aggregated(rules, strengths, k, n)->0;
            if m == strengths[p as int]@ && consequent_key(rules[p as int].consequent) == k {
                assert(0 <= p < n);
            } else {
                assert(aggregated(rules, strengths, k, p) == Some(m));
                let i = choose|i: int|
                    0 <= i < p && consequent_key(rules[i].consequent) == k && strengths[i]@ == m;
                assert(0 <= i < n);
            }
        }
    }
}

/// The confidence of a Mamdani result is at least the strength of every
/// rule, when the strengths are numbers.
pub proof fn lemma_confidence_dominates_rules(
    rules: Seq<FuzzyRule>,
    strengths: Seq<MembershipDegree>,
    memberships: Seq<(String, FloatBits)>,
)
    requires
        names_sorted(memberships),
        rules.len() == strengths.len(),
        forall|i: int| 0 <= i < strengths.len() ==> !(#[trigger] strengths[i])@.spec_nan(),
        forall|k: Seq<char>|
            #[trigger] lookup(memberships, k) == aggregated(
                rules,
                strengths,
                k,
                rules.len() as nat,
            ),
    ensures
        forall|i: int|
            0 <= i < strengths.len() ==> (#[trigger] strengths[i])@.spec_le(
                peak(memberships, memberships.len()),
            ),
{
    let n = rules.len() as nat;
    lemma_membership_dominates_rules(rules, strengths, n);
    lemma_confidence_is_top_membership(memberships, memberships.len());
    assert forall|i: int| 0 <= i < strengths.len() implies (#[trigger] strengths[i])@.spec_le(
        peak(memberships, memberships.len()),
    ) by {
        let k = consequent_key(rules[i].consequent);
        assert(dominated(rules, strengths, i, n));
        assert(lookup(memberships, k) == aggregated(rules, strengths, k, n));
        let a = aggregated(rules, strengths, k, n);
        lemma_lookup_found(memberships, k);
        let j = choose|j: int|
            0 <= j < memberships.len() && #[trigger] memberships[j].0@ == k && memberships[j].1
                == lookup(memberships, k)->0;
        let m = memberships[j].1;
        assert(a is Some);
        let w = choose|w: int|
            0 <= w < n && consequent_key(rules[w].consequent) == k && strengths[w]@ == a->0;
        assert(!strengths[w]@.spec_nan());
        assert(!m.spec_nan());
        assert(m.spec_le(peak(memberships, memberships.len())));
    }
}

} // verus!
