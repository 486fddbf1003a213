use prism::float_bits::FloatBits;
use prism::fuzzy::sugeno::{SugenoFunction, SugenoInferenceInput, SugenoRule};
use prism::fuzzy::tsukamoto::{TsukamotoConsequent, TsukamotoInferenceInput, TsukamotoRule};
use prism::fuzzy::types::{
    FuzzyConsequent, FuzzyExpression, FuzzyInferenceInput, FuzzyRule, FuzzySet,
    LinguisticVariable, MembershipFunction,
};
use prism::named::NamedValues;
use prism::packs::anomaly_detection::{default_threshold, AnomalyDetectionInput};
use prism::packs::classification::ClassificationInput;
use prism::packs::descriptive_stats::DescriptiveStatsInput;
use prism::packs::forecasting::{default_alpha, ForecastingInput};
use prism::packs::naive_bayes::{ClassDef, GaussianParams, NaiveBayesInput};
use prism::packs::ranking::{RankItem, RankingInput};
use prism::packs::regression::RegressionInput;
use prism::packs::segmentation::{default_max_iterations, SegmentationInput};
use prism::packs::similarity::{DistanceMetric, SimilarityInput, SimilarityItem};
use prism::packs::trend_detection::{default_sensitivity, TrendDetectionInput};
use prism::primitives::{UnitFraction, ZScoreThreshold};

fn b(x: f64) -> FloatBits {
    FloatBits::from_bits(x.to_bits())
}

fn bs(xs: &[f64]) -> Vec<FloatBits> {
    xs.iter().map(|x| b(*x)).collect()
}

fn named(pairs: &[(&str, f64)]) -> NamedValues {
    let mut m = NamedValues::new();
    for (k, v) in pairs {
        m.insert(k.to_string(), b(*v));
    }
    m
}

fn set(name: &str, function: MembershipFunction) -> FuzzySet {
    FuzzySet { name: name.to_string(), function }
}

fn var(name: &str, sets: Vec<FuzzySet>) -> LinguisticVariable {
    LinguisticVariable { name: name.to_string(), sets }
}

fn is(variable: &str, set: &str) -> FuzzyExpression {
    FuzzyExpression::Is { variable: variable.to_string(), set: set.to_string() }
}

// ── Validation rejects invalid inputs ──

#[test]
fn anomaly_detection_rejects_empty_values() {
    let input = AnomalyDetectionInput {
        values: vec![],
        threshold: ZScoreThreshold::new(b(2.0)).unwrap(),
        labels: None,
    };
    assert!(input.validate().is_err());
}

#[test]
fn anomaly_detection_rejects_negative_threshold() {
    assert!(ZScoreThreshold::new(b(-1.0)).is_err());
}

#[test]
fn anomaly_detection_rejects_mismatched_labels() {
    let input = AnomalyDetectionInput {
        values: bs(&[1.0, 2.0, 3.0]),
        threshold: ZScoreThreshold::new(b(2.0)).unwrap(),
        labels: Some(vec!["a".to_string(), "b".to_string()]),
    };
    assert!(input.validate().is_err());
}

#[test]
fn segmentation_rejects_empty_records() {
    let input = SegmentationInput {
        records: vec![],
        k: 2,
        max_iterations: default_max_iterations(),
        seed: None,
    };
    assert!(input.validate().is_err());
}

#[test]
fn segmentation_rejects_k_zero() {
    let input = SegmentationInput {
        records: vec![bs(&[1.0, 2.0])],
        k: 0,
        max_iterations: default_max_iterations(),
        seed: None,
    };
    assert!(input.validate().is_err());
}

#[test]
fn segmentation_rejects_k_exceeds_records() {
    let input = SegmentationInput {
        records: vec![bs(&[1.0]), bs(&[2.0])],
        k: 5,
        max_iterations: default_max_iterations(),
        seed: None,
    };
    assert!(input.validate().is_err());
}

#[test]
fn segmentation_rejects_inconsistent_dimensions() {
    let input = SegmentationInput {
        records: vec![bs(&[1.0, 2.0]), bs(&[3.0])],
        k: 2,
        max_iterations: default_max_iterations(),
        seed: None,
    };
    assert!(input.validate().is_err());
}

#[test]
fn ranking_rejects_empty_items() {
    let input = RankingInput {
        items: vec![],
        weights: bs(&[0.5]),
        higher_is_better: vec![true],
        top_k: None,
    };
    assert!(input.validate().is_err());
}

#[test]
fn ranking_rejects_negative_weight() {
    let input = RankingInput {
        items: vec![RankItem { id: "a".to_string(), scores: bs(&[1.0]) }],
        weights: bs(&[-1.0]),
        higher_is_better: vec![true],
        top_k: None,
    };
    assert!(input.validate().is_err());
}

#[test]
fn ranking_rejects_dimension_mismatch() {
    let input = RankingInput {
        items: vec![RankItem { id: "a".to_string(), scores: bs(&[1.0, 2.0]) }],
        weights: bs(&[0.5]),
        higher_is_better: vec![true],
        top_k: None,
    };
    assert!(input.validate().is_err());
}

#[test]
fn forecasting_rejects_single_value() {
    let input = ForecastingInput { values: bs(&[1.0]), horizon: 3, alpha: b(0.3) };
    assert!(input.validate().is_err());
}

#[test]
fn forecasting_rejects_zero_horizon() {
    let input = ForecastingInput { values: bs(&[1.0, 2.0, 3.0]), horizon: 0, alpha: b(0.3) };
    assert!(input.validate().is_err());
}

#[test]
fn forecasting_rejects_alpha_out_of_range() {
    let input = ForecastingInput { values: bs(&[1.0, 2.0, 3.0]), horizon: 1, alpha: b(1.5) };
    assert!(input.validate().is_err());
}

#[test]
fn classification_rejects_empty_records() {
    let input = ClassificationInput {
        records: vec![],
        weights: bs(&[1.0]),
        bias: b(0.0),
        threshold: UnitFraction::new(b(0.5)).unwrap(),
        labels: None,
    };
    assert!(input.validate().is_err());
}

#[test]
fn classification_rejects_threshold_out_of_range() {
    assert!(UnitFraction::new(b(2.0)).is_err());
}

#[test]
fn regression_rejects_dimension_mismatch() {
    let input = RegressionInput {
        records: vec![bs(&[1.0, 2.0]), bs(&[3.0])],
        weights: bs(&[1.0, 2.0]),
        bias: b(0.0),
    };
    assert!(input.validate().is_err());
}

#[test]
fn similarity_rejects_single_item() {
    let input = SimilarityInput {
        items: vec![SimilarityItem { id: "a".to_string(), features: bs(&[1.0]) }],
        metric: DistanceMetric::Cosine,
        top_k: None,
    };
    assert!(input.validate().is_err());
}

#[test]
fn similarity_rejects_zero_top_k() {
    let input = SimilarityInput {
        items: vec![
            SimilarityItem { id: "a".to_string(), features: bs(&[1.0]) },
            SimilarityItem { id: "b".to_string(), features: bs(&[2.0]) },
        ],
        metric: DistanceMetric::Cosine,
        top_k: Some(0),
    };
    assert!(input.validate().is_err());
}

#[test]
fn trend_detection_rejects_too_few_values() {
    let input =
        TrendDetectionInput { values: bs(&[1.0, 2.0]), window: 3, sensitivity: default_sensitivity() };
    assert!(input.validate().is_err());
}

#[test]
fn trend_detection_rejects_window_exceeds_values() {
    let input = TrendDetectionInput {
        values: bs(&[1.0, 2.0, 3.0]),
        window: 5,
        sensitivity: default_sensitivity(),
    };
    assert!(input.validate().is_err());
}

#[test]
fn descriptive_stats_rejects_empty_values() {
    let input = DescriptiveStatsInput { values: vec![], percentiles: vec![] };
    assert!(input.validate().is_err());
}

#[test]
fn descriptive_stats_rejects_invalid_percentile() {
    let input = DescriptiveStatsInput { values: bs(&[1.0, 2.0]), percentiles: bs(&[150.0]) };
    assert!(input.validate().is_err());
}

fn comfort_high() -> LinguisticVariable {
    var(
        "comfort",
        vec![set("high", MembershipFunction::RightShoulder { start: b(0.5), end: b(1.0) })],
    )
}

#[test]
fn fuzzy_rejects_invalid_membership_bounds() {
    let input = FuzzyInferenceInput {
        inputs: named(&[("temperature", 55.0)]),
        variables: vec![
            var(
                "temperature",
                vec![set(
                    "warm",
                    MembershipFunction::Triangular { min: b(40.0), peak: b(40.0), max: b(80.0) },
                )],
            ),
            comfort_high(),
        ],
        rules: vec![FuzzyRule {
            id: None,
            when: is("temperature", "warm"),
            consequent: FuzzyConsequent { variable: "comfort".to_string(), set: "high".to_string() },
            weight: None,
        }],
    };
    assert!(input.validate().is_err());
}

#[test]
fn fuzzy_rejects_unknown_rule_set() {
    let input = FuzzyInferenceInput {
        inputs: named(&[("temperature", 55.0)]),
        variables: vec![
            var(
                "temperature",
                vec![set(
                    "warm",
                    MembershipFunction::Triangular { min: b(40.0), peak: b(60.0), max: b(80.0) },
                )],
            ),
            comfort_high(),
        ],
        rules: vec![FuzzyRule {
            id: None,
            when: is("temperature", "hot"),
            consequent: FuzzyConsequent { variable: "comfort".to_string(), set: "high".to_string() },
            weight: None,
        }],
    };
    assert!(input.validate().is_err());
}

fn x_high() -> LinguisticVariable {
    var("x", vec![set("h", MembershipFunction::RightShoulder { start: b(0.0), end: b(1.0) })])
}

#[test]
fn sugeno_rejects_empty_inputs() {
    let input = SugenoInferenceInput {
        inputs: NamedValues::new(),
        variables: vec![x_high()],
        rules: vec![SugenoRule {
            id: None,
            when: is("x", "h"),
            consequent: SugenoFunction::Constant { value: b(1.0) },
            weight: None,
        }],
    };
    assert!(input.validate().is_err());
}

#[test]
fn sugeno_rejects_empty_rules() {
    let input =
        SugenoInferenceInput { inputs: named(&[("x", 0.5)]), variables: vec![x_high()], rules: vec![] };
    assert!(input.validate().is_err());
}

#[test]
fn sugeno_rejects_linear_consequent_referencing_unknown_input() {
    let input = SugenoInferenceInput {
        inputs: named(&[("x", 0.5)]),
        variables: vec![x_high()],
        rules: vec![SugenoRule {
            id: None,
            when: is("x", "h"),
            consequent: SugenoFunction::Linear { intercept: b(0.0), coefficients: named(&[("z", 1.0)]) },
            weight: None,
        }],
    };
    assert!(input.validate().is_err());
}

#[test]
fn tsukamoto_rejects_non_monotonic_consequent() {
    let input = TsukamotoInferenceInput {
        inputs: named(&[("x", 0.5)]),
        variables: vec![
            x_high(),
            var(
                "y",
                vec![set(
                    "peak",
                    MembershipFunction::Triangular { min: b(0.0), peak: b(0.5), max: b(1.0) },
                )],
            ),
        ],
        rules: vec![TsukamotoRule {
            id: None,
            when: is("x", "h"),
            consequent: TsukamotoConsequent { variable: "y".to_string(), set: "peak".to_string() },
            weight: None,
        }],
    };
    assert!(input.validate().is_err());
}

fn two_classes(
    prior_a: f64,
    params_a: Vec<GaussianParams>,
    prior_b: f64,
    params_b: Vec<GaussianParams>,
) -> Vec<ClassDef> {
    vec![
        ClassDef { name: "a".to_string(), prior: b(prior_a), feature_params: params_a },
        ClassDef { name: "b".to_string(), prior: b(prior_b), feature_params: params_b },
    ]
}

fn gp(mean: f64, std_dev: f64) -> GaussianParams {
    GaussianParams { mean: b(mean), std_dev: b(std_dev) }
}

#[test]
fn naive_bayes_rejects_single_class() {
    let input = NaiveBayesInput {
        classes: vec![ClassDef {
            name: "only".to_string(),
            prior: b(1.0),
            feature_params: vec![gp(0.0, 1.0)],
        }],
        features: bs(&[0.5]),
    };
    assert!(input.validate().is_err());
}

#[test]
fn naive_bayes_rejects_zero_prior() {
    let input = NaiveBayesInput {
        classes: two_classes(0.0, vec![gp(0.0, 1.0)], 1.0, vec![gp(1.0, 1.0)]),
        features: bs(&[0.5]),
    };
    assert!(input.validate().is_err());
}

#[test]
fn naive_bayes_rejects_zero_std_dev() {
    let input = NaiveBayesInput {
        classes: two_classes(0.5, vec![gp(0.0, 0.0)], 0.5, vec![gp(1.0, 1.0)]),
        features: bs(&[0.5]),
    };
    assert!(input.validate().is_err());
}

#[test]
fn naive_bayes_rejects_feature_count_mismatch() {
    let input = NaiveBayesInput {
        classes: two_classes(0.5, vec![gp(0.0, 1.0)], 0.5, vec![gp(1.0, 1.0), gp(2.0, 1.0)]),
        features: bs(&[0.5]),
    };
    assert!(input.validate().is_err());
}

#[test]
fn naive_bayes_rejects_empty_features() {
    let input = NaiveBayesInput { classes: two_classes(0.5, vec![], 0.5, vec![]), features: vec![] };
    assert!(input.validate().is_err());
}

#[test]
fn defaults_match_the_documented_values() {
    assert_eq!(default_threshold().value(), b(2.0));
    assert_eq!(default_alpha(), b(0.3));
    assert_eq!(default_max_iterations(), 100);
}
