use prism::error::InputError;
use prism::float_bits::FloatBits;
use prism::fuzzy::defuzz::{defuzz_consequents, Domain};
use prism::fuzzy::engine::{rule_antecedents, FuzzyInferenceEngine};
use prism::fuzzy::types::{
    evaluate_expression, FuzzyConsequent, FuzzyExpression, FuzzyInferenceInput, FuzzyInferenceOutput, FuzzyRule, FuzzySet,
    LinguisticVariable, MembershipDegree, MembershipFunction,
};
use prism::named::NamedValues;

fn b(x: f64) -> FloatBits {
    FloatBits::from_bits(x.to_bits())
}

// ── MembershipFunction::validate ─────────────────────────────────────────

#[test]
fn triangular_validate_ok() {
    assert!(MembershipFunction::Triangular { min: b(0.0), peak: b(0.5), max: b(1.0) }
        .validate()
        .is_ok());
}

#[test]
fn triangular_validate_rejects_min_eq_peak() {
    assert!(MembershipFunction::Triangular { min: b(0.5), peak: b(0.5), max: b(1.0) }
        .validate()
        .is_err());
}

#[test]
fn triangular_validate_rejects_peak_eq_max() {
    assert!(MembershipFunction::Triangular { min: b(0.0), peak: b(1.0), max: b(1.0) }
        .validate()
        .is_err());
}

#[test]
fn trapezoidal_validate_equal_peaks_ok() {
    assert!(MembershipFunction::Trapezoidal {
        min: b(0.0),
        lower_peak: b(0.5),
        upper_peak: b(0.5),
        max: b(1.0)
    }
    .validate()
    .is_ok());
}

#[test]
fn trapezoidal_validate_rejects_inverted_peaks() {
    assert!(MembershipFunction::Trapezoidal {
        min: b(0.0),
        lower_peak: b(0.7),
        upper_peak: b(0.3),
        max: b(1.0)
    }
    .validate()
    .is_err());
}

#[test]
fn shoulder_validate_rejects_start_ge_end() {
    assert!(MembershipFunction::LeftShoulder { start: b(0.7), end: b(0.3) }.validate().is_err());
    assert!(MembershipFunction::RightShoulder { start: b(0.5), end: b(0.5) }.validate().is_err());
}

#[test]
fn gaussian_validate_rejects_zero_sigma() {
    assert!(MembershipFunction::Gaussian { center: b(0.5), sigma: b(0.0) }.validate().is_err());
}

#[test]
fn gaussian_validate_rejects_negative_sigma() {
    assert!(MembershipFunction::Gaussian { center: b(0.5), sigma: b(-0.1) }.validate().is_err());
}

#[test]
fn validate_rejects_non_finite_bounds() {
    assert!(MembershipFunction::Triangular { min: b(f64::NAN), peak: b(0.5), max: b(1.0) }
        .validate()
        .is_err());
    assert!(MembershipFunction::Gaussian { center: b(0.0), sigma: b(f64::INFINITY) }
        .validate()
        .is_err());
}

// ── is_monotonic ──────────────────────────────────────────────────────────

#[test]
fn shoulder_mfs_are_monotonic() {
    assert!(MembershipFunction::LeftShoulder { start: b(0.0), end: b(1.0) }.is_monotonic());
    assert!(MembershipFunction::RightShoulder { start: b(0.0), end: b(1.0) }.is_monotonic());
}

#[test]
fn non_shoulder_mfs_are_not_monotonic() {
    assert!(!MembershipFunction::Triangular { min: b(0.0), peak: b(0.5), max: b(1.0) }
        .is_monotonic());
    assert!(!MembershipFunction::Trapezoidal {
        min: b(0.0),
        lower_peak: b(0.3),
        upper_peak: b(0.7),
        max: b(1.0)
    }
    .is_monotonic());
    assert!(!MembershipFunction::Gaussian { center: b(0.5), sigma: b(0.1) }.is_monotonic());
}

// ── inverse: when it is refused ───────────────────────────────────────────

#[test]
fn non_monotonic_inverse_returns_err() {
    assert!(MembershipFunction::Triangular { min: b(0.0), peak: b(0.5), max: b(1.0) }
        .check_inverse(b(0.5))
        .is_err());
    assert!(MembershipFunction::Trapezoidal {
        min: b(0.0),
        lower_peak: b(0.3),
        upper_peak: b(0.7),
        max: b(1.0)
    }
    .check_inverse(b(0.5))
    .is_err());
    assert!(MembershipFunction::Gaussian { center: b(0.5), sigma: b(0.1) }
        .check_inverse(b(0.5))
        .is_err());
}

#[test]
fn inverse_rejects_out_of_range_target() {
    let mf = MembershipFunction::LeftShoulder { start: b(0.0), end: b(1.0) };
    assert!(mf.check_inverse(b(2.0)).is_err());
    assert!(mf.check_inverse(b(-0.1)).is_err());
    assert!(mf.check_inverse(b(f64::NAN)).is_err());
}

#[test]
fn inverse_accepts_shoulders_on_unit_targets() {
    let left = MembershipFunction::LeftShoulder { start: b(0.3), end: b(0.7) };
    let right = MembershipFunction::RightShoulder { start: b(0.3), end: b(0.7) };
    for t in [0.0, 0.5, 1.0, -0.0] {
        assert_eq!(left.check_inverse(b(t)), Ok(()));
        assert_eq!(right.check_inverse(b(t)), Ok(()));
    }
    assert_eq!(left.check_inverse(b(f64::INFINITY)), Err(InputError::InverseTarget));
    assert_eq!(
        MembershipFunction::Gaussian { center: b(0.5), sigma: b(0.1) }.check_inverse(b(0.5)),
        Err(InputError::InverseNotMonotonic)
    );
}

// ── FuzzyConsequent::key ──────────────────────────────────────────────────

#[test]
fn consequent_key_format() {
    let c = FuzzyConsequent { variable: "foo".to_string(), set: "bar".to_string() };
    assert_eq!(c.key(), "foo.bar");
}

// ── defuzzification: when there is nothing to sample ──────────────────────

fn make_memberships(key: &str, strength: f64) -> NamedValues {
    let mut m = NamedValues::new();
    m.insert(key.to_string(), b(strength));
    m
}

fn sym_triangle_vars() -> Vec<LinguisticVariable> {
    vec![LinguisticVariable {
        name: "out".to_string(),
        sets: vec![FuzzySet {
            name: "mid".to_string(),
            function: MembershipFunction::Triangular { min: b(0.0), peak: b(50.0), max: b(100.0) },
        }],
    }]
}

#[test]
fn domain_invalid_min_ge_max_returns_none() {
    let d = Domain::new(b(100.0), b(0.0), 100);
    assert!(defuzz_consequents(&make_memberships("out.mid", 1.0), &sym_triangle_vars(), "out", &d)
        .is_none());
}

#[test]
fn domain_invalid_zero_steps_returns_none() {
    let d = Domain::new(b(0.0), b(100.0), 0);
    assert!(defuzz_consequents(&make_memberships("out.mid", 1.0), &sym_triangle_vars(), "out", &d)
        .is_none());
}

#[test]
fn domain_invalid_non_finite_returns_none() {
    let d = Domain::new(b(f64::NAN), b(100.0), 100);
    assert!(defuzz_consequents(&make_memberships("out.mid", 1.0), &sym_triangle_vars(), "out", &d)
        .is_none());
}

#[test]
fn unknown_output_variable_returns_none() {
    let result = defuzz_consequents(
        &make_memberships("out.mid", 0.8),
        &sym_triangle_vars(),
        "nonexistent",
        &Domain::new(b(0.0), b(100.0), 100),
    );
    assert!(result.is_none());
}

#[test]
fn zero_strength_consequent_returns_none() {
    let result = defuzz_consequents(
        &make_memberships("out.mid", 0.0),
        &sym_triangle_vars(),
        "out",
        &Domain::new(b(0.0), b(100.0), 100),
    );
    assert!(result.is_none());
}

#[test]
fn defuzz_consequents_picks_the_fired_sets_of_the_variable() {
    let vars = vec![
        LinguisticVariable {
            name: "in".to_string(),
            sets: vec![FuzzySet {
                name: "mid".to_string(),
                function: MembershipFunction::LeftShoulder { start: b(0.0), end: b(1.0) },
            }],
        },
        LinguisticVariable {
            name: "out".to_string(),
            sets: vec![
                FuzzySet {
                    name: "low".to_string(),
                    function: MembershipFunction::LeftShoulder { start: b(0.0), end: b(50.0) },
                },
                FuzzySet {
                    name: "high".to_string(),
                    function: MembershipFunction::RightShoulder { start: b(50.0), end: b(100.0) },
                },
            ],
        },
    ];
    let mut m = NamedValues::new();
    m.insert("out.high".to_string(), b(0.25));
    m.insert("out.low".to_string(), b(0.75));
    m.insert("out.none".to_string(), b(0.5));
    m.insert("in.mid".to_string(), b(1.0));
    m.insert("outer.low".to_string(), b(1.0));
    let (v, picked) =
        defuzz_consequents(&m, &vars, "out", &Domain::new(b(0.0), b(100.0), 10)).unwrap();
    assert_eq!(v, 1);
    // key order: "out.high" < "out.low"
    assert_eq!(picked, vec![(1, b(0.25)), (0, b(0.75))]);
}

// ── evaluate_expression ──────────────────────────────────────────────────

fn complement(x: FloatBits) -> FloatBits {
    b(1.0 - f64::from_bits(x.bits))
}

fn sample_memberships() -> Vec<(String, NamedValues)> {
    let mut sets = NamedValues::new();
    sets.insert("hot".to_string(), MembershipDegree::new(b(0.8)).value());
    sets.insert("cold".to_string(), MembershipDegree::new(b(0.2)).value());
    vec![("temperature".to_string(), sets)]
}

fn is(variable: &str, set: &str) -> FuzzyExpression {
    FuzzyExpression::Is { variable: variable.to_string(), set: set.to_string() }
}

fn degree(e: &FuzzyExpression) -> f64 {
    f64::from_bits(evaluate_expression(e, &sample_memberships(), &complement).unwrap().value().bits)
}

#[test]
fn is_expression_returns_membership() {
    assert!((degree(&is("temperature", "hot")) - 0.8).abs() < 1e-10);
}

#[test]
fn and_expression_returns_minimum() {
    let expr = FuzzyExpression::And { terms: vec![is("temperature", "hot"), is("temperature", "cold")] };
    assert!((degree(&expr) - 0.2).abs() < 1e-10);
}

#[test]
fn or_expression_returns_maximum() {
    let expr = FuzzyExpression::Or { terms: vec![is("temperature", "hot"), is("temperature", "cold")] };
    assert!((degree(&expr) - 0.8).abs() < 1e-10);
}

#[test]
fn not_expression_returns_complement() {
    let expr = FuzzyExpression::Not { term: Box::new(is("temperature", "hot")) };
    assert!((degree(&expr) - 0.2).abs() < 1e-10);
}

#[test]
fn is_expression_missing_variable_errors() {
    let expr = is("humidity", "high");
    assert!(evaluate_expression(&expr, &sample_memberships(), &complement).is_err());
}

#[test]
fn missing_membership_names_variable_and_set() {
    let r = evaluate_expression(&is("temperature", "mild"), &sample_memberships(), &complement);
    assert_eq!(
        r,
        Err(InputError::MembershipUnavailable { variable: "temperature".to_string(), set: "mild".to_string() })
    );
    let nested = FuzzyExpression::And {
        terms: vec![is("temperature", "hot"), FuzzyExpression::Not { term: Box::new(is("wind", "strong")) }],
    };
    assert_eq!(
        evaluate_expression(&nested, &sample_memberships(), &complement),
        Err(InputError::MembershipUnavailable { variable: "wind".to_string(), set: "strong".to_string() })
    );
}

#[test]
fn empty_and_or_fold_from_their_units() {
    let and = FuzzyExpression::And { terms: vec![] };
    let or = FuzzyExpression::Or { terms: vec![] };
    assert_eq!(degree(&and), 1.0);
    assert_eq!(degree(&or), 0.0);
}

#[test]
fn not_clamps_the_complement() {
    let clamp_high = |x: FloatBits| b(2.0 - f64::from_bits(x.bits));
    let expr = FuzzyExpression::Not { term: Box::new(is("temperature", "cold")) };
    let d = evaluate_expression(&expr, &sample_memberships(), &clamp_high).unwrap();
    assert_eq!(d.value(), b(1.0));
}

#[test]
fn rule_antecedents_in_rule_order_or_first_refusal() {
    let rule = |when: FuzzyExpression| FuzzyRule {
        id: None,
        when,
        consequent: FuzzyConsequent { variable: "comfort".to_string(), set: "high".to_string() },
        weight: None,
    };
    let rules = vec![rule(is("temperature", "cold")), rule(is("temperature", "hot"))];
    let degrees = rule_antecedents(&rules, &sample_memberships(), &complement).unwrap();
    assert_eq!(degrees.iter().map(|d| d.value()).collect::<Vec<_>>(), vec![b(0.2), b(0.8)]);
    let bad = vec![rule(is("temperature", "hot")), rule(is("a", "x")), rule(is("b", "y"))];
    assert_eq!(
        rule_antecedents(&bad, &sample_memberships(), &complement),
        Err(InputError::MembershipUnavailable { variable: "a".to_string(), set: "x".to_string() })
    );
}

fn output_with(memberships: &[(&str, f64)]) -> FuzzyInferenceOutput {
    let mut m = NamedValues::new();
    for (k, v) in memberships {
        m.insert(k.to_string(), b(*v));
    }
    FuzzyInferenceOutput {
        input_memberships: vec![],
        memberships: m,
        activated_rules: vec![],
        confidence: MembershipDegree::zero(),
        total_rules: 2,
    }
}

#[test]
fn top_membership_is_the_last_greatest() {
    let out = output_with(&[("a.x", 0.4), ("b.y", 0.9), ("c.z", 0.9), ("d.w", 0.1)]);
    let t = out.top_membership().unwrap();
    assert_eq!(out.memberships.name_at(t), "c.z");
    assert_eq!(output_with(&[]).top_membership(), None);
    let nan_last = output_with(&[("a.x", 0.4), ("b.y", f64::NAN)]);
    assert_eq!(nan_last.top_membership(), Some(1));
    let nan_first = output_with(&[("a.x", f64::NAN), ("b.y", 0.3)]);
    assert_eq!(nan_first.top_membership(), Some(1));
}

fn product(a: FloatBits, w: FloatBits) -> FloatBits {
    b(f64::from_bits(a.bits) * f64::from_bits(w.bits))
}

fn shoulder_degree(f: MembershipFunction, x: FloatBits) -> FloatBits {
    let x = f64::from_bits(x.bits);
    match f {
        MembershipFunction::RightShoulder { start, end } => {
            let (s, e) = (f64::from_bits(start.bits), f64::from_bits(end.bits));
            b(((x - s) / (e - s)).clamp(0.0, 1.0))
        }
        _ => b(0.0),
    }
}

#[test]
fn mamdani_infer_checks_evaluates_and_aggregates() {
    let hot = MembershipFunction::RightShoulder { start: b(0.0), end: b(10.0) };
    let var = |name: &str| LinguisticVariable {
        name: name.to_string(),
        sets: vec![FuzzySet { name: "hot".to_string(), function: hot }],
    };
    let mut inputs = NamedValues::new();
    inputs.insert("t".to_string(), b(8.0));
    let rule = |weight: Option<f64>| FuzzyRule {
        id: None,
        when: is("t", "hot"),
        consequent: FuzzyConsequent { variable: "fan".to_string(), set: "hot".to_string() },
        weight: weight.map(b),
    };
    let input = FuzzyInferenceInput {
        inputs,
        variables: vec![var("t"), var("fan")],
        rules: vec![rule(Some(0.5)), rule(None)],
    };
    let out = FuzzyInferenceEngine::infer(&input, &complement, &product, &shoulder_degree).unwrap();
    assert_eq!(out.total_rules, 2);
    assert_eq!(out.activated_rules.len(), 2);
    assert_eq!(out.activated_rules[0].strength.value(), b(0.4));
    assert_eq!(out.activated_rules[1].strength.value(), b(0.8));
    assert_eq!(out.memberships.get("fan.hot"), Some(b(0.8)));
    assert_eq!(out.confidence.value(), b(0.8));
    assert_eq!(out.input_memberships.len(), 1);
    assert_eq!(out.input_memberships[0].1.get("hot"), Some(b(0.8)));

    let mut bad = input;
    bad.rules[0].weight = Some(b(2.0));
    assert_eq!(
        FuzzyInferenceEngine::infer(&bad, &complement, &product, &shoulder_degree).unwrap_err(),
        InputError::RuleWeight { rule: 0 }
    );
}
