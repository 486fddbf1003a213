use prism::error::{InputError, RuleBase};
use prism::float_bits::FloatBits;
use prism::fuzzy::sugeno::{SugenoFunction, SugenoInferenceEngine, SugenoInferenceInput, SugenoRule};
use prism::fuzzy::tsukamoto::{
    TsukamotoConsequent, TsukamotoInferenceEngine, TsukamotoInferenceInput, TsukamotoRule,
};
use prism::fuzzy::types::{
    FuzzyConsequent, FuzzyExpression, FuzzyInferenceInput, FuzzyRule, FuzzySet,
    LinguisticVariable, MembershipFunction,
};
use prism::named::NamedValues;
use prism::packs::anomaly_detection::AnomalyDetectionInput;
use prism::packs::classification::ClassificationInput;
use prism::packs::descriptive_stats::DescriptiveStatsInput;
use prism::packs::forecasting::ForecastingInput;
use prism::packs::naive_bayes::{ClassDef, GaussianParams, NaiveBayesInput};
use prism::packs::ranking::{RankItem, RankingInput};
use prism::packs::regression::RegressionInput;
use prism::packs::segmentation::SegmentationInput;
use prism::packs::similarity::{DistanceMetric, SimilarityInput, SimilarityItem};
use prism::packs::trend_detection::TrendDetectionInput;
use prism::primitives::{UnitFraction, ZScoreThreshold};

fn b(x: f64) -> FloatBits {
    FloatBits::from_bits(x.to_bits())
}

fn bs(xs: &[f64]) -> Vec<FloatBits> {
    xs.iter().map(|x| b(*x)).collect()
}

fn named(pairs: &[(&str, f64)]) -> NamedValues {
    let mut m = NamedValues::new();
    for (k, v) in pairs {
        m.insert(k.to_string(), b(*v));
    }
    m
}

fn shoulder() -> MembershipFunction {
    MembershipFunction::RightShoulder { start: b(0.0), end: b(1.0) }
}

fn var(name: &str, sets: &[(&str, MembershipFunction)]) -> LinguisticVariable {
    LinguisticVariable {
        name: name.to_string(),
        sets: sets.iter().map(|(n, f)| FuzzySet { name: n.to_string(), function: *f }).collect(),
    }
}

fn is(variable: &str, set: &str) -> FuzzyExpression {
    FuzzyExpression::Is { variable: variable.to_string(), set: set.to_string() }
}

fn rule(when: FuzzyExpression, variable: &str, set: &str) -> FuzzyRule {
    FuzzyRule {
        id: None,
        when,
        consequent: FuzzyConsequent { variable: variable.to_string(), set: set.to_string() },
        weight: None,
    }
}

fn mamdani(inputs: NamedValues, variables: Vec<LinguisticVariable>, rules: Vec<FuzzyRule>) -> Result<(), InputError> {
    FuzzyInferenceInput { inputs, variables, rules }.validate()
}

fn xy() -> Vec<LinguisticVariable> {
    vec![var("x", &[("h", shoulder())]), var("y", &[("h", shoulder())])]
}

#[test]
fn pack_refusals_name_the_cause() {
    let t = ZScoreThreshold::new(b(2.0)).unwrap();
    assert_eq!(
        AnomalyDetectionInput { values: vec![], threshold: t, labels: None }.validate(),
        Err(InputError::NoValues)
    );
    assert_eq!(
        AnomalyDetectionInput { values: bs(&[1.0]), threshold: t, labels: Some(vec![]) }.validate(),
        Err(InputError::LabelsLengthMismatch)
    );
    let seg = |records: Vec<Vec<FloatBits>>, k: usize, max_iterations: usize| {
        SegmentationInput { records, k, max_iterations, seed: None }.validate()
    };
    assert_eq!(seg(vec![], 1, 10), Err(InputError::NoRecords));
    assert_eq!(seg(vec![bs(&[1.0])], 0, 10), Err(InputError::KZero));
    assert_eq!(seg(vec![bs(&[1.0])], 2, 10), Err(InputError::KExceedsRecords));
    assert_eq!(seg(vec![bs(&[1.0])], 1, 0), Err(InputError::ZeroMaxIterations));
    assert_eq!(seg(vec![vec![]], 1, 10), Err(InputError::RecordsWithoutFeatures));
    assert_eq!(
        seg(vec![bs(&[1.0, 2.0]), bs(&[1.0, 2.0]), bs(&[3.0])], 1, 10),
        Err(InputError::RecordDimension { index: 2, found: 1, expected: 2 })
    );
    assert_eq!(seg(vec![bs(&[1.0]), bs(&[2.0])], 2, 10), Ok(()));

    let u = UnitFraction::new(b(0.5)).unwrap();
    assert_eq!(
        ClassificationInput { records: vec![bs(&[1.0])], weights: vec![], bias: b(0.0), threshold: u, labels: None }
            .validate(),
        Err(InputError::NoWeights)
    );
    assert_eq!(
        RegressionInput { records: vec![bs(&[1.0]), bs(&[1.0, 2.0])], weights: bs(&[1.0]), bias: b(0.0) }
            .validate(),
        Err(InputError::RecordDimension { index: 1, found: 2, expected: 1 })
    );

    let item = |id: &str, scores: &[f64]| RankItem { id: id.to_string(), scores: bs(scores) };
    let rank = |items: Vec<RankItem>, weights: &[f64], dirs: Vec<bool>, top_k: Option<usize>| {
        RankingInput { items, weights: bs(weights), higher_is_better: dirs, top_k }.validate()
    };
    assert_eq!(rank(vec![item("a", &[1.0])], &[], vec![], None), Err(InputError::NoCriteria));
    assert_eq!(
        rank(vec![item("a", &[1.0])], &[1.0], vec![true, false], None),
        Err(InputError::DirectionCount { found: 2, expected: 1 })
    );
    assert_eq!(
        rank(vec![item("a", &[1.0]), item("b", &[1.0, 2.0])], &[1.0], vec![true], None),
        Err(InputError::ItemScoreCount { index: 1, found: 2, expected: 1 })
    );
    assert_eq!(rank(vec![item("a", &[1.0])], &[1.0], vec![true], Some(0)), Err(InputError::TopKZero));
    assert_eq!(rank(vec![item("a", &[1.0])], &[0.0], vec![false], Some(3)), Ok(()));

    let f = |values: &[f64], horizon: usize, alpha: f64| {
        ForecastingInput { values: bs(values), horizon, alpha: b(alpha) }.validate()
    };
    assert_eq!(f(&[1.0], 1, 0.3), Err(InputError::TooFewHistoricalValues));
    assert_eq!(f(&[1.0, 2.0], 0, 0.3), Err(InputError::ZeroHorizon));
    assert_eq!(f(&[1.0, 2.0], 1, -0.1), Err(InputError::AlphaOutOfRange));
    assert_eq!(f(&[1.0, 2.0], 1, f64::NAN), Err(InputError::AlphaOutOfRange));
    assert_eq!(f(&[1.0, 2.0], 1, 1.0), Ok(()));

    let sim = |items: Vec<SimilarityItem>, top_k: Option<usize>| {
        SimilarityInput { items, metric: DistanceMetric::Euclidean, top_k }.validate()
    };
    let si = |id: &str, features: &[f64]| SimilarityItem { id: id.to_string(), features: bs(features) };
    assert_eq!(sim(vec![si("a", &[1.0])], None), Err(InputError::TooFewSimilarityItems));
    assert_eq!(sim(vec![si("a", &[]), si("b", &[])], None), Err(InputError::ItemsWithoutFeatures));
    assert_eq!(
        sim(vec![si("a", &[1.0]), si("b", &[1.0, 2.0])], None),
        Err(InputError::ItemFeatureCount { index: 1, found: 2, expected: 1 })
    );

    let tr = |values: &[f64], window: usize, sensitivity: f64| {
        TrendDetectionInput { values: bs(values), window, sensitivity: b(sensitivity) }.validate()
    };
    assert_eq!(tr(&[1.0, 2.0], 2, 1.0), Err(InputError::TooFewTrendValues));
    assert_eq!(tr(&[1.0, 2.0, 3.0], 1, 1.0), Err(InputError::WindowTooSmall));
    assert_eq!(tr(&[1.0, 2.0, 3.0], 4, 1.0), Err(InputError::WindowExceedsValues));
    assert_eq!(tr(&[1.0, 2.0, 3.0], 3, 0.0), Err(InputError::NonPositiveSensitivity));
    assert_eq!(tr(&[1.0, 2.0, 3.0], 3, 0.5), Ok(()));

    assert_eq!(
        DescriptiveStatsInput { values: bs(&[1.0]), percentiles: bs(&[50.0, 100.0, -1.0]) }.validate(),
        Err(InputError::PercentileOutOfRange { index: 2, percentile: b(-1.0) })
    );

    let gp = |mean: f64, std_dev: f64| GaussianParams { mean: b(mean), std_dev: b(std_dev) };
    let class = |name: &str, prior: f64, params: Vec<GaussianParams>| ClassDef {
        name: name.to_string(),
        prior: b(prior),
        feature_params: params,
    };
    let nb = |classes: Vec<ClassDef>, features: &[f64]| {
        NaiveBayesInput { classes, features: bs(features) }.validate()
    };
    assert_eq!(nb(vec![class("a", 0.5, vec![])], &[1.0]), Err(InputError::TooFewClasses));
    assert_eq!(
        nb(vec![class("a", 0.5, vec![]), class("b", 0.5, vec![])], &[]),
        Err(InputError::NoFeatures)
    );
    assert_eq!(
        nb(vec![class("a", 0.5, vec![gp(0.0, 1.0)]), class("b", -1.0, vec![gp(0.0, 1.0)])], &[1.0]),
        Err(InputError::NonPositivePrior { class: "b".to_string() })
    );
    assert_eq!(
        nb(vec![class("a", 0.5, vec![]), class("b", 0.5, vec![gp(0.0, 1.0)])], &[1.0]),
        Err(InputError::FeatureParamCount { class: "a".to_string(), found: 0, expected: 1 })
    );
    assert_eq!(
        nb(vec![class("a", 0.5, vec![gp(0.0, 1.0), gp(1.0, 0.0)]), class("b", 0.5, vec![])], &[1.0, 2.0]),
        Err(InputError::NonPositiveStdDev { class: "a".to_string(), feature: 1 })
    );
    assert_eq!(
        nb(vec![class("a", 0.5, vec![gp(f64::INFINITY, 1.0)]), class("b", 0.5, vec![gp(0.0, 1.0)])], &[1.0]),
        Err(InputError::NonFiniteParams { class: "a".to_string(), feature: 0 })
    );
}

#[test]
fn membership_refusals_name_the_shape() {
    assert_eq!(
        MembershipFunction::Triangular { min: b(0.0), peak: b(0.0), max: b(1.0) }.validate(),
        Err(InputError::TriangularOrder)
    );
    assert_eq!(
        MembershipFunction::Trapezoidal { min: b(0.0), lower_peak: b(0.6), upper_peak: b(0.5), max: b(1.0) }
            .validate(),
        Err(InputError::TrapezoidalOrder)
    );
    assert_eq!(
        MembershipFunction::LeftShoulder { start: b(1.0), end: b(1.0) }.validate(),
        Err(InputError::ShoulderOrder)
    );
    assert_eq!(
        MembershipFunction::Gaussian { center: b(0.0), sigma: b(-1.0) }.validate(),
        Err(InputError::NonPositiveSigma)
    );
    assert_eq!(
        MembershipFunction::RightShoulder { start: b(f64::NEG_INFINITY), end: b(1.0) }.validate(),
        Err(InputError::NonFiniteBounds)
    );
}

#[test]
fn rule_base_refusals_name_the_cause() {
    let ok_rule = || rule(is("x", "h"), "y", "h");
    assert_eq!(mamdani(named(&[("x", 0.5)]), xy(), vec![ok_rule()]), Ok(()));
    assert_eq!(mamdani(NamedValues::new(), xy(), vec![ok_rule()]), Err(InputError::NoCrispInputs));
    assert_eq!(mamdani(named(&[("x", 0.5)]), vec![], vec![ok_rule()]), Err(InputError::NoVariables));
    assert_eq!(
        mamdani(named(&[("x", f64::NAN)]), xy(), vec![ok_rule()]),
        Err(InputError::InvalidCrispInput)
    );
    assert_eq!(
        mamdani(named(&[(" ", 0.5)]), xy(), vec![ok_rule()]),
        Err(InputError::InvalidCrispInput)
    );
    assert_eq!(
        mamdani(named(&[("x", 0.5)]), vec![var("", &[("h", shoulder())])], vec![ok_rule()]),
        Err(InputError::BlankVariableName)
    );
    assert_eq!(
        mamdani(named(&[("x", 0.5)]), vec![var("x", &[("h", shoulder())]), var("x", &[("h", shoulder())])], vec![ok_rule()]),
        Err(InputError::DuplicateVariable { name: "x".to_string() })
    );
    assert_eq!(
        mamdani(named(&[("x", 0.5)]), vec![var("x", &[])], vec![ok_rule()]),
        Err(InputError::VariableWithoutSets { name: "x".to_string() })
    );
    assert_eq!(
        mamdani(named(&[("x", 0.5)]), vec![var("x", &[("\t", shoulder())])], vec![ok_rule()]),
        Err(InputError::BlankSetName { variable: "x".to_string() })
    );
    assert_eq!(
        mamdani(named(&[("x", 0.5)]), vec![var("x", &[("h", shoulder()), ("h", shoulder())])], vec![ok_rule()]),
        Err(InputError::DuplicateSet { set: "h".to_string(), variable: "x".to_string() })
    );
    assert_eq!(
        mamdani(named(&[("z", 0.5)]), xy(), vec![ok_rule()]),
        Err(InputError::UndefinedInputVariable { name: "z".to_string() })
    );
    let mut weighted = ok_rule();
    weighted.weight = Some(b(f64::INFINITY));
    assert_eq!(
        mamdani(named(&[("x", 0.5)]), xy(), vec![ok_rule(), weighted]),
        Err(InputError::RuleWeight { rule: 1 })
    );
    assert_eq!(
        mamdani(named(&[("x", 0.5)]), xy(), vec![rule(is("w", "h"), "y", "h")]),
        Err(InputError::UnknownVariable { name: "w".to_string() })
    );
    assert_eq!(
        mamdani(named(&[("x", 0.5)]), xy(), vec![rule(is("y", "h"), "y", "h")]),
        Err(InputError::MissingCrispInput { variable: "y".to_string() })
    );
    assert_eq!(
        mamdani(
            named(&[("x", 0.5)]),
            xy(),
            vec![rule(FuzzyExpression::Not { term: Box::new(FuzzyExpression::Or { terms: vec![] }) }, "y", "h")]
        ),
        Err(InputError::EmptyTerms)
    );
    assert_eq!(
        mamdani(named(&[("x", 0.5)]), xy(), vec![rule(is("x", "h"), "y", "low")]),
        Err(InputError::UnknownSet { set: "low".to_string(), variable: "y".to_string() })
    );

    // Sugeno
    let sugeno = |rules: Vec<SugenoRule>| {
        SugenoInferenceInput { inputs: named(&[("x", 0.5)]), variables: xy(), rules }.validate()
    };
    let srule = |consequent: SugenoFunction| SugenoRule { id: None, when: is("x", "h"), consequent, weight: None };
    assert_eq!(sugeno(vec![]), Err(InputError::NoRules { base: RuleBase::Sugeno }));
    assert_eq!(
        sugeno(vec![srule(SugenoFunction::Constant { value: b(f64::NAN) })]),
        Err(InputError::NonFiniteConstant)
    );
    assert_eq!(
        sugeno(vec![srule(SugenoFunction::Linear { intercept: b(f64::INFINITY), coefficients: named(&[]) })]),
        Err(InputError::NonFiniteIntercept)
    );
    assert_eq!(
        sugeno(vec![srule(SugenoFunction::Linear { intercept: b(0.0), coefficients: named(&[("", 1.0)]) })]),
        Err(InputError::BlankCoefficientName)
    );
    assert_eq!(
        sugeno(vec![srule(SugenoFunction::Linear { intercept: b(0.0), coefficients: named(&[("x", f64::NAN)]) })]),
        Err(InputError::NonFiniteCoefficient { name: "x".to_string() })
    );
    assert_eq!(
        sugeno(vec![srule(SugenoFunction::Linear { intercept: b(0.0), coefficients: named(&[("x", 2.0)]) })]),
        Ok(())
    );
    let mut heavy = srule(SugenoFunction::Constant { value: b(1.0) });
    heavy.weight = Some(b(1.5));
    assert_eq!(sugeno(vec![heavy]), Err(InputError::RuleWeight { rule: 0 }));

    // Tsukamoto
    let tsukamoto = |variable: &str, set: &str, vars: Vec<LinguisticVariable>| {
        TsukamotoInferenceInput {
            inputs: named(&[("x", 0.5)]),
            variables: vars,
            rules: vec![TsukamotoRule {
                id: None,
                when: is("x", "h"),
                consequent: TsukamotoConsequent { variable: variable.to_string(), set: set.to_string() },
                weight: None,
            }],
        }
        .validate()
    };
    assert_eq!(tsukamoto("y", "h", xy()), Ok(()));
    assert_eq!(
        tsukamoto("z", "h", xy()),
        Err(InputError::ConsequentUnknownVariable { rule: 0, variable: "z".to_string() })
    );
    assert_eq!(
        tsukamoto("y", "q", xy()),
        Err(InputError::ConsequentUnknownSet { rule: 0, set: "q".to_string(), variable: "y".to_string() })
    );
    let bell = MembershipFunction::Gaussian { center: b(0.5), sigma: b(0.1) };
    assert_eq!(
        tsukamoto("y", "g", vec![var("x", &[("h", shoulder())]), var("y", &[("g", bell)])]),
        Err(InputError::NonMonotonicConsequent { rule: 0, variable: "y".to_string(), set: "g".to_string() })
    );
    assert_eq!(
        TsukamotoInferenceInput { inputs: named(&[("x", 0.5)]), variables: xy(), rules: vec![] }.validate(),
        Err(InputError::NoRules { base: RuleBase::Tsukamoto })
    );
}

#[test]
fn mamdani_weight_must_lie_in_the_unit_interval() {
    let ok = || rule(is("x", "h"), "y", "h");
    for bad in [1.5, -0.1, f64::NAN, f64::NEG_INFINITY] {
        let mut weighted = ok();
        weighted.weight = Some(b(bad));
        assert_eq!(
            mamdani(named(&[("x", 0.5)]), xy(), vec![ok(), weighted]),
            Err(InputError::RuleWeight { rule: 1 }),
            "weight {bad}"
        );
    }
    for good in [0.0, 0.25, 1.0] {
        let mut weighted = ok();
        weighted.weight = Some(b(good));
        assert_eq!(mamdani(named(&[("x", 0.5)]), xy(), vec![weighted]), Ok(()), "weight {good}");
    }
}

fn memberships_of(pairs: &[(&str, &str, f64)]) -> Vec<(String, NamedValues)> {
    let mut out: Vec<(String, NamedValues)> = Vec::new();
    for (variable, set, v) in pairs {
        match out.iter_mut().find(|(n, _)| n == variable) {
            Some((_, sets)) => {
                sets.insert(set.to_string(), b(*v));
            }
            None => out.push((variable.to_string(), named(&[(set, *v)]))),
        }
    }
    out
}

fn complement(x: FloatBits) -> FloatBits {
    b(1.0 - f64::from_bits(x.bits))
}

fn product(a: FloatBits, w: FloatBits) -> FloatBits {
    b((f64::from_bits(a.bits) * f64::from_bits(w.bits)).clamp(0.0, 1.0))
}

#[test]
fn sugeno_activation_fires_rules_with_positive_strength() {
    let srule = |when: FuzzyExpression, value: f64, weight: Option<f64>| SugenoRule {
        id: None,
        when,
        consequent: SugenoFunction::Constant { value: b(value) },
        weight: weight.map(b),
    };
    let input = SugenoInferenceInput {
        inputs: named(&[("x", 0.5)]),
        variables: xy(),
        rules: vec![
            srule(is("x", "h"), 10.0, None),
            srule(is("x", "l"), 20.0, None),
            srule(is("x", "h"), 30.0, Some(0.5)),
        ],
    };
    let m = memberships_of(&[("x", "h", 0.8), ("x", "l", 0.0)]);
    let values = [10.0, 20.0, 30.0];
    let value = |i: usize, _f: FloatBits| -> Result<FloatBits, InputError> { Ok(b(values[i])) };
    let act = SugenoInferenceEngine.activate(&input, &m, &complement, &product, &value).unwrap();
    assert_eq!(act.activated_rules.len(), 2);
    assert_eq!(act.activated_rules[0].id, "rule-1");
    assert_eq!(act.activated_rules[0].firing_strength, b(0.8));
    assert_eq!(act.activated_rules[1].id, "rule-3");
    assert_eq!(act.activated_rules[1].weight, b(0.5));
    assert_eq!(act.activated_rules[1].firing_strength, b(0.4));
    assert_eq!(act.activated_rules[1].consequent_value, b(30.0));
    assert_eq!(act.max_firing_strength, b(0.8));
    assert_eq!(act.confidence(true), b(0.8));
    assert_eq!(act.confidence(false), b(0.0));

    let infinite = |_i: usize, _f: FloatBits| -> Result<FloatBits, InputError> { Ok(b(f64::INFINITY)) };
    assert_eq!(
        SugenoInferenceEngine.activate(&input, &m, &complement, &product, &infinite).unwrap_err(),
        InputError::NonFiniteConsequent { rule: 0 }
    );
}

#[test]
fn tsukamoto_activation_inverts_the_consequent_set() {
    let input = TsukamotoInferenceInput {
        inputs: named(&[("x", 0.5)]),
        variables: xy(),
        rules: vec![
            TsukamotoRule {
                id: Some("r".to_string()),
                when: is("x", "h"),
                consequent: TsukamotoConsequent { variable: "y".to_string(), set: "h".to_string() },
                weight: None,
            },
            TsukamotoRule {
                id: None,
                when: is("x", "h"),
                consequent: TsukamotoConsequent { variable: "z".to_string(), set: "h".to_string() },
                weight: Some(b(0.0)),
            },
        ],
    };
    let m = memberships_of(&[("x", "h", 0.25)]);
    let inverse = |_f: MembershipFunction, d: FloatBits| -> Result<FloatBits, InputError> {
        Ok(b(f64::from_bits(d.bits) * 100.0))
    };
    let act = TsukamotoInferenceEngine.activate(&input, &m, &complement, &product, &inverse).unwrap();
    assert_eq!(act.activated_rules.len(), 1);
    assert_eq!(act.activated_rules[0].id, "r");
    assert_eq!(act.activated_rules[0].consequent, "y.h");
    assert_eq!(act.activated_rules[0].consequent_value, b(25.0));
    assert_eq!(act.max_firing_strength, b(0.25));

    let mut unknown = input;
    unknown.rules[1].weight = None;
    assert_eq!(
        TsukamotoInferenceEngine.activate(&unknown, &m, &complement, &product, &inverse).unwrap_err(),
        InputError::ConsequentUnknownVariable { rule: 1, variable: "z".to_string() }
    );
}
