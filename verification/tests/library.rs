use prism::packs::similarity::{DistanceMetric, SimilarityInput, SimilarityItem};
use prism::error::{InputError, RuleBase};
use prism::float_bits::{last_maximum, FloatBits};
use prism::fuzzy::defuzz::Domain;
use prism::fuzzy::engine::{default_rule_id, rule_id, FuzzyInferenceEngine};
use prism::fuzzy::types::{
    FuzzyConsequent, FuzzyExpression, FuzzyInferenceInput, FuzzyRule, FuzzySet, LinguisticVariable,
    MembershipDegree, MembershipFunction,
};
use prism::named::NamedValues;
use prism::packs::anomaly_detection::{AnomalyDetectionInput, ZScoreSolver};
use prism::packs::classification::{ClassificationInput, LogisticClassifier};
use prism::packs::descriptive_stats::DescriptiveStatsSolver;
use prism::packs::naive_bayes::{ClassDef, GaussianNaiveBayes, GaussianParams, NaiveBayesInput};
use prism::packs::ranking::{RankItem, RankingInput, WeightedScoringSolver};
use prism::packs::segmentation::{KMeansProgress, KMeansSolver, SegmentationOutput};
use prism::packs::similarity::PairwiseSimilaritySolver;
use prism::packs::trend_detection::{MovingAverageTrendSolver, SegmentRun, TrendDirection};
use prism::packs::trend_detection::TrendDirection::{Falling, Rising, Stable};
use prism::primitives::{UnitFraction, ZScoreThreshold};
use prism::text::{decimal_string, dotted, is_blank, strip_prefix, text_eq, text_lt, to_ascii_lowercase};
use prism::SegmentationPack;

fn b(x: f64) -> FloatBits {
    FloatBits::from_bits(x.to_bits())
}

fn samples() -> Vec<f64> {
    vec![
        0.0,
        -0.0,
        1.0,
        -1.0,
        0.5,
        2.5,
        -2.5,
        1e-310,
        -1e-310,
        f64::MIN_POSITIVE,
        f64::MAX,
        f64::MIN,
        f64::INFINITY,
        f64::NEG_INFINITY,
        f64::NAN,
        -f64::NAN,
        f64::from_bits(0x7ff0_0000_0000_0001),
        f64::from_bits(0xfff8_0000_0000_1234),
    ]
}

// ── binary64 comparisons agree with the hardware ──

#[test]
fn float_bits_comparisons_match_f64() {
    for &x in &samples() {
        for &y in &samples() {
            let (a, c) = (b(x), b(y));
            assert_eq!(a.lt(&c), x < y, "{x} < {y}");
            assert_eq!(a.le(&c), x <= y, "{x} <= {y}");
            assert_eq!(a.gt(&c), x > y, "{x} > {y}");
            assert_eq!(a.ge(&c), x >= y, "{x} >= {y}");
            assert_eq!(a.num_eq(&c), x == y, "{x} == {y}");
        }
        assert_eq!(b(x).is_nan(), x.is_nan());
        assert_eq!(b(x).is_finite(), x.is_finite());
        assert_eq!(b(x).abs().bits, x.abs().to_bits());
    }
}

#[test]
fn float_bits_clamp_and_within_match_f64() {
    for &x in &samples() {
        let c = b(x).clamp(&b(0.0), &b(1.0));
        assert_eq!(c.bits, x.clamp(0.0, 1.0).to_bits(), "clamp {x}");
        assert_eq!(b(x).within(&b(0.0), &b(1.0)), (0.0..=1.0).contains(&x), "within {x}");
        let degree = if x.is_nan() { 0.0 } else { x.clamp(0.0, 1.0) };
        assert_eq!(MembershipDegree::new(b(x)).value().bits, degree.to_bits(), "degree {x}");
    }
}

#[test]
fn bounded_numbers_check_their_range() {
    assert!(UnitFraction::new(b(0.0)).is_ok());
    assert!(UnitFraction::new(b(1.0)).is_ok());
    assert_eq!(UnitFraction::new(b(1.5)), Err(InputError::OutsideUnitInterval { value: b(1.5) }));
    assert!(UnitFraction::new(b(f64::NAN)).is_err());
    assert_eq!(UnitFraction::new(b(0.25)).unwrap().value(), b(0.25));
    assert!(ZScoreThreshold::new(b(0.0)).is_err());
    assert_eq!(ZScoreThreshold::new(b(-0.0)), Err(InputError::NotPositive { value: b(-0.0) }));
    assert_eq!(ZScoreThreshold::new(b(3.0)).unwrap().value(), b(3.0));
}

// ── text ──

#[test]
fn blank_text_is_what_trim_empties() {
    for s in ["", " ", "\t\n", "\u{a0}\u{2003}", "x", " x ", "\u{200b}", "\u{3000}a"] {
        assert_eq!(is_blank(s), s.trim().is_empty(), "{s:?}");
    }
}

#[test]
fn text_helpers_match_std() {
    assert_eq!(to_ascii_lowercase("AbC-Ä"), "abc-Ä");
    assert_eq!(decimal_string(0), "0");
    assert_eq!(decimal_string(1207), "1207");
    assert_eq!(decimal_string(usize::MAX), usize::MAX.to_string());
    assert_eq!(dotted("temperature", "warm"), "temperature.warm");
    assert!(text_eq("a.b", "a.b"));
    assert!(!text_eq("a.b", "a.c"));
    for (x, y) in [("a", "b"), ("ab", "a"), ("", "a"), ("é", "z"), ("z", "é"), ("same", "same")] {
        assert_eq!(text_lt(x, y), x < y, "{x} < {y}");
    }
    assert_eq!(strip_prefix("out.mid", "out."), Some("mid".to_string()));
    assert_eq!(strip_prefix("out.", "out."), Some(String::new()));
    assert_eq!(strip_prefix("outer.mid", "out."), None);
    assert_eq!(strip_prefix("ou", "out."), None);
}

// ── the ordered name map ──

#[test]
fn named_values_behave_like_an_ordered_map() {
    let mut m = NamedValues::new();
    assert!(m.is_empty());
    assert_eq!(m.insert("b".to_string(), b(2.0)), None);
    assert_eq!(m.insert("a".to_string(), b(1.0)), None);
    assert_eq!(m.insert("c".to_string(), b(3.0)), None);
    assert_eq!(m.insert("b".to_string(), b(4.0)), Some(b(2.0)));
    assert_eq!(m.len(), 3);
    assert_eq!(m.name_at(0), "a");
    assert_eq!(m.name_at(1), "b");
    assert_eq!(m.name_at(2), "c");
    assert_eq!(m.value_at(1), b(4.0));
    assert_eq!(m.get("c"), Some(b(3.0)));
    assert_eq!(m.get("d"), None);
    assert_eq!(m.position("b"), Some(1));
    assert!(m.contains_key("a"));
    assert!(!m.contains_key("A"));
}

// ── rule ids ──

#[test]
fn rules_without_id_are_numbered_from_one() {
    assert_eq!(default_rule_id(0), "rule-1");
    assert_eq!(default_rule_id(41), "rule-42");
    assert_eq!(rule_id(&Some("mine".to_string()), 3), "mine");
    assert_eq!(rule_id(&None, 3), "rule-4");
}

// ── Mamdani max-aggregation ──

fn rule(id: Option<&str>, variable: &str, set: &str, weight: Option<f64>) -> FuzzyRule {
    FuzzyRule {
        id: id.map(|s| s.to_string()),
        when: FuzzyExpression::Is { variable: "x".to_string(), set: "any".to_string() },
        consequent: FuzzyConsequent { variable: variable.to_string(), set: set.to_string() },
        weight: weight.map(b),
    }
}

#[test]
fn mamdani_aggregation_keeps_the_strongest_rule_per_consequent() {
    let rules = vec![
        rule(None, "y", "low", None),
        rule(Some("r2"), "y", "high", Some(0.5)),
        rule(None, "y", "low", None),
        rule(None, "y", "mid", None),
    ];
    let antecedents: Vec<MembershipDegree> =
        [0.3, 0.8, 0.6, 0.0].iter().map(|v| MembershipDegree::new(b(*v))).collect();
    let strengths: Vec<MembershipDegree> =
        [0.3, 0.4, 0.6, 0.0].iter().map(|v| MembershipDegree::new(b(*v))).collect();
    let out = FuzzyInferenceEngine::aggregate(&rules, &antecedents, &strengths, vec![]);
    assert_eq!(out.total_rules, 4);
    assert_eq!(out.memberships.len(), 3);
    assert_eq!(out.memberships.get("y.low"), Some(b(0.6)));
    assert_eq!(out.memberships.get("y.high"), Some(b(0.4)));
    assert_eq!(out.memberships.get("y.mid"), Some(b(0.0)));
    assert_eq!(out.confidence.value(), b(0.6));
    let ids: Vec<&str> = out.activated_rules.iter().map(|r| r.id.as_str()).collect();
    assert_eq!(ids, vec!["rule-1", "r2", "rule-3"]);
    assert_eq!(out.activated_rules[1].weight.value(), b(0.5));
    assert_eq!(out.activated_rules[1].antecedent_strength.value(), b(0.8));
    assert_eq!(out.activated_rules[1].consequent, "y.high");
}

#[test]
fn mamdani_aggregation_with_nothing_fired_has_zero_confidence() {
    let rules = vec![rule(None, "y", "low", None)];
    let zero = vec![MembershipDegree::zero()];
    let out = FuzzyInferenceEngine::aggregate(&rules, &zero, &zero, vec![]);
    assert!(out.activated_rules.is_empty());
    assert_eq!(out.confidence.value(), b(0.0));
    assert_eq!(out.memberships.get("y.low"), Some(b(0.0)));
}

// ── fuzzy input checks name the refusal ──

fn temperature_input(rules: Vec<FuzzyRule>) -> FuzzyInferenceInput {
    let mut inputs = NamedValues::new();
    inputs.insert("temperature".to_string(), b(55.0));
    FuzzyInferenceInput {
        inputs,
        variables: vec![
            LinguisticVariable {
                name: "temperature".to_string(),
                sets: vec![FuzzySet {
                    name: "warm".to_string(),
                    function: MembershipFunction::Triangular { min: b(40.0), peak: b(60.0), max: b(80.0) },
                }],
            },
            LinguisticVariable {
                name: "comfort".to_string(),
                sets: vec![FuzzySet {
                    name: "high".to_string(),
                    function: MembershipFunction::RightShoulder { start: b(0.5), end: b(1.0) },
                }],
            },
        ],
        rules,
    }
}

fn warm_rule(set: &str) -> FuzzyRule {
    FuzzyRule {
        id: None,
        when: FuzzyExpression::Is { variable: "temperature".to_string(), set: set.to_string() },
        consequent: FuzzyConsequent { variable: "comfort".to_string(), set: "high".to_string() },
        weight: None,
    }
}

#[test]
fn fuzzy_validation_names_each_refusal() {
    assert_eq!(temperature_input(vec![warm_rule("warm")]).validate(), Ok(()));
    assert_eq!(
        temperature_input(vec![]).validate(),
        Err(InputError::NoRules { base: RuleBase::Fuzzy })
    );
    assert_eq!(
        temperature_input(vec![warm_rule("hot")]).validate(),
        Err(InputError::UnknownSet { set: "hot".to_string(), variable: "temperature".to_string() })
    );
    let mut blank_id = warm_rule("warm");
    blank_id.id = Some("  ".to_string());
    assert_eq!(temperature_input(vec![blank_id]).validate(), Err(InputError::BlankRuleId { rule: 0 }));
    let mut and_empty = warm_rule("warm");
    and_empty.when = FuzzyExpression::And { terms: vec![] };
    assert_eq!(temperature_input(vec![and_empty]).validate(), Err(InputError::EmptyTerms));
}

// ── defuzzification domain ──

#[test]
fn domain_validity() {
    assert!(Domain::new(b(0.0), b(100.0), 10).is_valid());
    assert!(!Domain::new(b(0.0), b(0.0), 10).is_valid());
    assert!(!Domain::new(b(0.0), b(f64::INFINITY), 10).is_valid());
}

// ── k-means seeding and cluster counts ──

#[test]
fn kmeans_initial_indices() {
    assert_eq!(KMeansSolver.initial_indices(10, 3, None), vec![0, 3, 6]);
    assert_eq!(KMeansSolver.initial_indices(4, 4, None), vec![0, 1, 2, 3]);
    let seeded = KMeansSolver.initial_indices(4, 2, Some(7));
    let expected: Vec<usize> = (0..2u64)
        .map(|i| (7u64.wrapping_mul(6364136223846793005).wrapping_add(i) % 4) as usize)
        .collect();
    assert_eq!(seeded, expected);
}

#[test]
fn cluster_counts_ignore_out_of_range_assignments() {
    let out = SegmentationOutput {
        assignments: vec![0, 2, 2, 7, 0, 2],
        centroids: vec![vec![b(0.0)], vec![b(1.0)], vec![b(2.0)]],
        iterations_used: 1,
        inertia: b(0.0),
    };
    let counts = SegmentationPack.cluster_counts(&out);
    assert_eq!(counts, vec![2, 0, 3]);
    assert_eq!(SegmentationPack.empty_clusters(&counts), vec![1]);
}

// ── pairwise comparisons ──

#[test]
fn pair_indices_enumerate_each_pair_once() {
    assert_eq!(PairwiseSimilaritySolver.total_pairs(4), 6);
    assert_eq!(
        PairwiseSimilaritySolver.pair_indices(4),
        vec![(0, 1), (0, 2), (0, 3), (1, 2), (1, 3), (2, 3)]
    );
    assert!(PairwiseSimilaritySolver.pair_indices(1).is_empty());
}

// ── trend runs ──

#[test]
fn trend_runs_split_at_direction_changes() {
    // 10 values, window 4: 6 windows
    let dirs = vec![Rising, Rising, Falling, Falling, Falling, Stable];
    let plan = MovingAverageTrendSolver.segment_runs(&dirs, 10, 4, Stable);
    assert_eq!(
        plan.segments,
        vec![
            SegmentRun { start: 0, end: 4, direction: Rising, first_slope: 0, end_slope: 2 },
            SegmentRun { start: 4, end: 7, direction: Falling, first_slope: 2, end_slope: 5 },
            SegmentRun { start: 7, end: 9, direction: Stable, first_slope: 5, end_slope: 6 },
        ]
    );
    assert_eq!(plan.changepoints, vec![4, 7]);
    let whole = MovingAverageTrendSolver.segment_runs(&vec![], 3, 3, Falling);
    assert_eq!(
        whole.segments,
        vec![SegmentRun { start: 0, end: 2, direction: Falling, first_slope: 0, end_slope: 0 }]
    );
    assert!(whole.changepoints.is_empty());
}

#[test]
fn nearest_centroid_takes_the_first_smallest_distance() {
    let d = |xs: &[f64]| xs.iter().map(|x| b(*x)).collect::<Vec<_>>();
    assert_eq!(KMeansSolver.nearest_centroid(&d(&[3.0, 1.0, 2.0])), 1);
    assert_eq!(KMeansSolver.nearest_centroid(&d(&[1.0, 1.0, 0.5, 0.5])), 2);
    assert_eq!(KMeansSolver.nearest_centroid(&d(&[])), 0);
    // a NaN distance is never chosen over the current best, nor replaced by a later one
    assert_eq!(KMeansSolver.nearest_centroid(&d(&[f64::NAN, 0.0])), 0);
    assert_eq!(KMeansSolver.nearest_centroid(&d(&[2.0, f64::NAN, 1.0])), 2);
}

#[test]
fn slope_classification_against_the_threshold() {
    let s = MovingAverageTrendSolver;
    assert_eq!(s.classify_slope(b(0.5), b(0.1)), Rising);
    assert_eq!(s.classify_slope(b(-0.5), b(0.1)), Falling);
    assert_eq!(s.classify_slope(b(0.1), b(0.1)), Stable);
    assert_eq!(s.classify_slope(b(-0.1), b(0.1)), Stable);
    assert_eq!(s.classify_slope(b(f64::NAN), b(0.1)), Stable);
    assert_eq!(s.classify_slope(b(-0.0), b(0.0)), Stable);
    assert_eq!(b(2.5).neg(), b(-2.5));
    assert_eq!(b(-0.0).neg(), b(0.0));
}

#[test]
fn zscore_detect_keeps_outliers_in_order_with_labels() {
    let input = AnomalyDetectionInput {
        values: vec![b(1.0), b(2.0), b(50.0), b(3.0), b(-40.0)],
        threshold: ZScoreThreshold::new(b(1.5)).unwrap(),
        labels: Some(vec!["a".to_string(), "b".to_string(), "c".to_string(), "d".to_string(), "e".to_string()]),
    };
    let z = vec![b(0.1), b(1.5), b(2.0), b(f64::NAN), b(1.6)];
    let out = ZScoreSolver.detect(&input, b(3.2), b(20.0), &z);
    assert_eq!(out.total_points, 5);
    assert_eq!(out.anomaly_count, 2);
    assert_eq!(out.anomalies.len(), 2);
    assert_eq!(out.anomalies[0].index, 2);
    assert_eq!(out.anomalies[0].value, b(50.0));
    assert_eq!(out.anomalies[0].z_score, b(2.0));
    assert_eq!(out.anomalies[0].label.as_deref(), Some("c"));
    assert_eq!(out.anomalies[1].index, 4);
    assert_eq!(out.anomalies[1].label.as_deref(), Some("e"));
    assert_eq!(out.mean, b(3.2));
    assert_eq!(out.std_dev, b(20.0));
}

#[test]
fn zscore_detect_flags_nothing_on_constant_data() {
    let input = AnomalyDetectionInput {
        values: vec![b(7.0), b(7.0), b(7.0)],
        threshold: ZScoreThreshold::new(b(0.5)).unwrap(),
        labels: None,
    };
    let z = vec![b(f64::NAN), b(f64::INFINITY), b(9.0)];
    let out = ZScoreSolver.detect(&input, b(7.0), b(0.0), &z);
    assert_eq!(out.anomaly_count, 0);
    assert!(out.anomalies.is_empty());
    assert_eq!(out.total_points, 3);
}

#[test]
fn logistic_classify_labels_by_threshold() {
    let input = ClassificationInput {
        records: vec![vec![b(1.0)], vec![b(2.0)], vec![b(3.0)], vec![b(4.0)]],
        weights: vec![b(1.0)],
        bias: b(0.0),
        threshold: UnitFraction::new(b(0.5)).unwrap(),
        labels: None,
    };
    let p = vec![b(0.5), b(0.49), b(0.9), b(f64::NAN)];
    let out = LogisticClassifier.classify(&input, &p);
    assert_eq!(out.total, 4);
    assert_eq!(out.positive_count, 2);
    assert_eq!(out.negative_count, 2);
    let labels: Vec<&str> = out.predictions.iter().map(|r| r.label.as_str()).collect();
    assert_eq!(labels, vec!["positive", "negative", "positive", "negative"]);
    assert_eq!(out.predictions[2].index, 2);
    assert_eq!(out.predictions[2].probability, b(0.9));
}

#[test]
fn logistic_classify_uses_given_labels() {
    let input = ClassificationInput {
        records: vec![vec![b(1.0)], vec![b(2.0)]],
        weights: vec![b(1.0)],
        bias: b(0.0),
        threshold: UnitFraction::new(b(0.7)).unwrap(),
        labels: Some(("spam".to_string(), "ham".to_string())),
    };
    let out = LogisticClassifier.classify(&input, &vec![b(0.2), b(0.8)]);
    assert_eq!(out.predictions[0].label, "ham");
    assert_eq!(out.predictions[1].label, "spam");
    assert_eq!(out.positive_count, 1);
}

#[test]
fn rank_order_is_a_stable_descending_sort() {
    let scores = vec![b(0.2), b(0.9), b(0.5), b(0.9), b(-0.0), b(0.0), b(0.5)];
    let order = WeightedScoringSolver.rank_order(&scores);
    assert_eq!(order, vec![1, 3, 2, 6, 0, 4, 5]);
    assert!(WeightedScoringSolver.rank_order(&vec![]).is_empty());
}

#[test]
fn rank_order_with_nan_is_a_permutation() {
    let scores = vec![b(0.1), b(f64::NAN), b(0.7)];
    let mut order = WeightedScoringSolver.rank_order(&scores);
    order.sort();
    assert_eq!(order, vec![0, 1, 2]);
}

#[test]
fn ranked_items_assigns_ranks_and_truncates() {
    let input = RankingInput {
        items: vec![
            RankItem { id: "a".to_string(), scores: vec![b(1.0)] },
            RankItem { id: "b".to_string(), scores: vec![b(3.0)] },
            RankItem { id: "c".to_string(), scores: vec![b(2.0)] },
        ],
        weights: vec![b(1.0)],
        higher_is_better: vec![true],
        top_k: Some(2),
    };
    let composites = vec![b(0.0), b(1.0), b(0.5)];
    let normalized = vec![vec![b(0.0)], vec![b(1.0)], vec![b(0.5)]];
    let order = WeightedScoringSolver.rank_order(&composites);
    let out = WeightedScoringSolver.ranked_items(&input, &composites, &normalized, &order);
    assert_eq!(out.total_items, 3);
    assert_eq!(out.ranked.len(), 2);
    assert_eq!(out.ranked[0].id, "b");
    assert_eq!(out.ranked[0].rank, 1);
    assert_eq!(out.ranked[0].composite_score, b(1.0));
    assert_eq!(out.ranked[0].normalized_scores, vec![b(1.0)]);
    assert_eq!(out.ranked[1].id, "c");
    assert_eq!(out.ranked[1].rank, 2);
    let all = RankingInput { top_k: None, ..input };
    let out = WeightedScoringSolver.ranked_items(&all, &composites, &normalized, &order);
    assert_eq!(out.ranked.len(), 3);
    assert_eq!(out.ranked[2].id, "a");
    assert_eq!(out.ranked[2].rank, 3);
}

#[test]
fn naive_bayes_posteriors_follow_descending_probability() {
    let class = |name: &str| ClassDef {
        name: name.to_string(),
        prior: b(0.5),
        feature_params: vec![GaussianParams { mean: b(0.0), std_dev: b(1.0) }],
    };
    let input = NaiveBayesInput { classes: vec![class("x"), class("y"), class("z")], features: vec![b(0.3)] };
    let probabilities = vec![b(0.2), b(0.5), b(0.3)];
    let log_scores = vec![b(-3.0), b(-1.0), b(-2.0)];
    let order = GaussianNaiveBayes.class_order(&probabilities);
    assert_eq!(order, vec![1, 2, 0]);
    let out = GaussianNaiveBayes.posteriors(&input, &probabilities, &log_scores, &order);
    assert_eq!(out.predicted, "y");
    assert_eq!(out.confidence, b(0.5));
    let names: Vec<&str> = out.probabilities.iter().map(|p| p.class.as_str()).collect();
    assert_eq!(names, vec!["y", "z", "x"]);
    assert_eq!(out.probabilities[1].log_score, b(-2.0));
    assert_eq!(out.probabilities[2].probability, b(0.2));
}

#[test]
fn sorted_values_is_a_stable_ascending_sort() {
    let values = vec![b(3.0), b(-1.0), b(0.0), b(-0.0), b(2.5), b(-1.0)];
    let sorted = DescriptiveStatsSolver.sorted_values(&values);
    let bits: Vec<u64> = sorted.iter().map(|v| v.bits).collect();
    let want: Vec<u64> = [-1.0f64, -1.0, 0.0, -0.0, 2.5, 3.0].iter().map(|v| v.to_bits()).collect();
    assert_eq!(bits, want);
    assert!(DescriptiveStatsSolver.sorted_values(&vec![]).is_empty());
}

#[test]
fn last_maximum_picks_the_last_of_equal_maxima() {
    assert_eq!(last_maximum(&vec![b(0.1), b(0.7), b(0.3), b(0.7), b(0.2)]), Some(3));
    assert_eq!(last_maximum(&vec![]), None);
    assert_eq!(last_maximum(&vec![b(-0.0), b(0.0)]), Some(1));
    assert_eq!(last_maximum(&vec![b(0.9), b(f64::NAN)]), Some(1));
    assert_eq!(last_maximum(&vec![b(f64::NAN), b(0.2), b(0.1)]), Some(1));
}

#[test]
fn kmeans_assign_moves_records_to_nearest_and_reports_change() {
    let mut assignments = vec![0usize, 1, 1];
    let distances = vec![vec![b(1.0), b(4.0)], vec![b(9.0), b(2.0)], vec![b(3.0), b(3.0)]];
    assert!(KMeansSolver.assign(&mut assignments, &distances));
    assert_eq!(assignments, vec![0, 1, 0]);
    assert!(!KMeansSolver.assign(&mut assignments, &distances));
    assert_eq!(assignments, vec![0, 1, 0]);
    assert_eq!(KMeansSolver.cluster_sizes(&assignments, 3), vec![2, 1, 0]);
    assert_eq!(KMeansSolver.cluster_sizes(&vec![0, 5, 1], 2), vec![1, 1]);
}

#[test]
fn kmeans_progress_stops_at_first_quiet_pass_or_allowance() {
    let distances = vec![vec![b(1.0), b(4.0)], vec![b(9.0), b(2.0)]];
    let mut p = KMeansProgress::start(2, 5);
    assert_eq!(p.assignments, vec![0, 0]);
    assert!(!p.finished);
    assert!(p.step(&distances));
    assert_eq!(p.assignments, vec![0, 1]);
    assert!(!p.finished);
    assert!(!p.step(&distances));
    assert!(p.finished);
    assert_eq!(p.iterations_used, 2);

    let mut once = KMeansProgress::start(2, 1);
    assert!(once.step(&distances));
    assert!(once.finished);
    assert_eq!(once.iterations_used, 1);
    assert!(KMeansProgress::start(3, 0).finished);
}

#[test]
fn similarity_pairs_kept_most_similar_first() {
    let item = |id: &str| SimilarityItem { id: id.to_string(), features: vec![b(1.0)] };
    let input = SimilarityInput {
        items: vec![item("a"), item("b"), item("c")],
        metric: DistanceMetric::Cosine,
        top_k: Some(2),
    };
    let pairs = PairwiseSimilaritySolver.pair_indices(3);
    let scores = vec![b(0.2), b(0.9), b(0.5)];
    let order = PairwiseSimilaritySolver.pair_order(&scores);
    assert_eq!(order, vec![1, 2, 0]);
    let kept = PairwiseSimilaritySolver.kept_pairs(&input, &pairs, &scores, &order);
    assert_eq!(kept.len(), 2);
    assert_eq!((kept[0].id_a.as_str(), kept[0].id_b.as_str()), ("a", "c"));
    assert_eq!(kept[0].score, b(0.9));
    assert_eq!((kept[1].id_a.as_str(), kept[1].id_b.as_str()), ("b", "c"));
}
