//! Gaussian naive Bayes: input checks, the order of the posteriors and the
//! prediction, and the probability invariants.
use crate::error::InputError;
use crate::float_bits::FloatBits;
use crate::fuzzy::types::{one_bits, zero_bits};
use crate::packs::common::{
    descending_order, invariant_spec, is_permutation, no_nan, ranks_descending, InvariantSpec, Severity,
};
use vstd::prelude::*;

verus! {

/// The normal distribution of one feature within a class.
#[derive(Debug, Clone, Copy)]
pub struct GaussianParams {
    pub mean: FloatBits,
    pub std_dev: FloatBits,
}

/// A class with its prior and per-feature distributions.
#[derive(Debug, Clone)]
pub struct ClassDef {
    pub name: String,
    pub prior: FloatBits,
    pub feature_params: Vec<GaussianParams>,
}

/// Classes and the feature vector to classify.
#[derive(Debug, Clone)]
pub struct NaiveBayesInput {
    pub classes: Vec<ClassDef>,
    pub features: Vec<FloatBits>,
}

/// The first refusal among the feature distributions of `class`, from
/// position `i` on: a deviation `<= 0`, then a non-finite mean or deviation.
pub open spec fn params_check_from(class: String, params: Seq<GaussianParams>, i: int) -> Result<
    (),
    InputError,
>
    decreases params.len() - i,
{
    if i < 0 || i >= params.len() {
        Ok(())
    } else if params[i].std_dev.spec_le(zero_bits()) {
        Err(InputError::NonPositiveStdDev { class, feature: i as usize })
    } else if !params[i].mean.spec_finite() || !params[i].std_dev.spec_finite() {
        Err(InputError::NonFiniteParams { class, feature: i as usize })
    } else {
        params_check_from(class, params, i + 1)
    }
}

/// The first refusal among the classes, from position `i` on: a prior
/// `<= 0`, a distribution count other than `n`, a bad distribution.
pub open spec fn classes_check_from(classes: Seq<ClassDef>, n: nat, i: int) -> Result<(), InputError>
    decreases classes.len() - i,
{
    if i < 0 || i >= classes.len() {
        Ok(())
    } else {
        let c = classes[i];
        if c.prior.spec_le(zero_bits()) {
            Err(InputError::NonPositivePrior { class: c.name })
        } else if c.feature_params@.len() != n {
            Err(
                InputError::FeatureParamCount {
                    class: c.name,
                    found: c.feature_params@.len() as usize,
                    expected: n as usize,
                },
            )
        } else if params_check_from(c.name, c.feature_params@, 0) is Err {
            params_check_from(c.name, c.feature_params@, 0)
        } else {
            classes_check_from(classes, n, i + 1)
        }
    }
}

/// The refusal, if any, of a naive-Bayes input.
pub open spec fn naive_bayes_check(classes: Seq<ClassDef>, features: nat) -> Result<(), InputError> {
    if classes.len() < 2 {
        Err(InputError::TooFewClasses)
    } else if features == 0 {
        Err(InputError::NoFeatures)
    } else {
        classes_check_from(classes, features, 0)
    }
}

impl NaiveBayesInput {
    /// Checks: two classes or more, a feature, and for each class a positive
    /// prior and one positive, finite distribution per feature.
    #[verifier::loop_isolation(false)]
    pub fn validate(&self) -> (r: Result<(), InputError>)
        ensures
            r == naive_bayes_check(self.classes@, self.features@.len()),
    {
        if self.classes.len() < 2 {
            return Err(InputError::TooFewClasses);
        }
        if self.features.len() == 0 {
            return Err(InputError::NoFeatures);
        }
        let n = self.features.len();
        let zero = FloatBits::zero();
        let k = self.classes.len();
        let mut i: usize = 0;
        while i < k
            invariant
                k == self.classes@.len(),
                i <= k,
                zero == zero_bits(),
                classes_check_from(self.classes@, n as nat, 0) == classes_check_from(
                    self.classes@,
                    n as nat,
                    i as int,
                ),
            decreases k - i,
        {
            let c = &self.classes[i];
            if c.prior.le(&zero) {
                return Err(InputError::NonPositivePrior { class: c.name.clone() });
            }
            if c.feature_params.len() != n {
                return Err(
                    InputError::FeatureParamCount {
                        class: c.name.clone(),
                        found: c.feature_params.len(),
                        expected: n,
                    },
                );
            }
            let m = c.feature_params.len();
            let mut j: usize = 0;
            while j < m
                invariant
                    c == self.classes@[i as int],
                    m == c.feature_params@.len(),
                    j <= m,
                    params_check_from(c.name, c.feature_params@, 0) == params_check_from(
                        c.name,
                        c.feature_params@,
                        j as int,
                    ),
                decreases m - j,
            {
                let p = c.feature_params[j];
                if p.std_dev.le(&zero) {
                    return Err(InputError::NonPositiveStdDev { class: c.name.clone(), feature: j });
                }
                if !p.mean.is_finite() || !p.std_dev.is_finite() {
                    return Err(InputError::NonFiniteParams { class: c.name.clone(), feature: j });
                }
                j = j + 1;
            }
            i = i + 1;
        }
        Ok(())
    }
}

/// The posterior of one class.
#[derive(Debug, Clone)]
pub struct ClassProbability {
    pub class: String,
    pub probability: FloatBits,
    pub log_score: FloatBits,
}

/// The result of classification.
#[derive(Debug, Clone)]
pub struct NaiveBayesOutput {
    pub predicted: String,
    pub confidence: FloatBits,
    pub probabilities: Vec<ClassProbability>,
}

/// `0.99` as a binary64 pattern.
pub open spec fn dominance_bits() -> FloatBits {
    FloatBits { bits: 0x3fef_ae14_7ae1_47aeu64 }
}

/// Whether `entry` is the posterior of the class at position `pos` of `order`.
pub open spec fn is_class_entry(
    input: NaiveBayesInput,
    probabilities: Seq<FloatBits>,
    log_scores: Seq<FloatBits>,
    order: Seq<usize>,
    pos: int,
    entry: ClassProbability,
) -> bool {
    let idx = order[pos] as int;
    &&& entry.class == input.classes@[idx].name
    &&& entry.probability == probabilities[idx]
    &&& entry.log_score == log_scores[idx]
}

/// The Gaussian naive-Bayes classifier.
pub struct GaussianNaiveBayes;

impl GaussianNaiveBayes {
    /// The classes from the most probable to the least, equal probabilities
    /// in their original order (a stable sort). Where a probability is NaN, the
    /// order is a permutation and nothing more is promised.
    pub fn class_order(&self, probabilities: &Vec<FloatBits>) -> (r: Vec<usize>)
        ensures
            is_permutation(r@, probabilities@.len()),
            no_nan(probabilities@) ==> ranks_descending(probabilities@, r@),
    {
        descending_order(probabilities)
    }

    /// The classification's output for the classes in the given order: the
    /// posteriors in that order, and the first of them as the prediction and
    /// its probability as the confidence.
    pub fn posteriors(
        &self,
        input: &NaiveBayesInput,
        probabilities: &Vec<FloatBits>,
        log_scores: &Vec<FloatBits>,
        order: &Vec<usize>,
    ) -> (r: NaiveBayesOutput)
        requires
            probabilities@.len() == input.classes@.len(),
            log_scores@.len() == input.classes@.len(),
            order@.len() > 0,
            forall|i: int| 0 <= i < order@.len() ==> (#[trigger] order@[i]) < input.classes@.len(),
        ensures
            r.probabilities@.len() == order@.len(),
            forall|pos: int|
                0 <= pos < order@.len() ==> is_class_entry(
                    *input,
                    probabilities@,
                    log_scores@,
                    order@,
                    pos,
                    #[trigger] r.probabilities@[pos],
                ),
            r.predicted == input.classes@[order@[0] as int].name,
            r.confidence == probabilities@[order@[0] as int],
    {
        let n = order.len();
        let mut entries: Vec<ClassProbability> = Vec::new();
        let mut pos: usize = 0;
        while pos < n
            invariant
                n == order@.len(),
                probabilities@.len() == input.classes@.len(),
                log_scores@.len() == input.classes@.len(),
                forall|i: int| 0 <= i < order@.len() ==> (#[trigger] order@[i]) < input.classes@.len(),
                pos <= n,
                entries@.len() == pos,
                forall|q: int|
                    0 <= q < pos ==> is_class_entry(
                        *input,
                        probabilities@,
                        log_scores@,
                        order@,
                        q,
                        #[trigger] entries@[q],
                    ),
            decreases n - pos,
        {
            let idx = order[pos];
            entries.push(
                ClassProbability {
                    class: input.classes[idx].name.clone(),
                    probability: probabilities[idx],
                    log_score: log_scores[idx],
                },
            );
            pos = pos + 1;
        }
        let first = order[0];
        let predicted = input.classes[first].name.clone();
        let confidence = probabilities[first];
        NaiveBayesOutput { predicted, confidence, probabilities: entries }
    }
}

/// The naive-bayes pack.
pub struct NaiveBayesPack;

impl NaiveBayesPack {
    /// `"naive-bayes"`.
    pub fn name(&self) -> (r: &'static str)
        ensures
            r@ == "naive-bayes"@,
    {
        "naive-bayes"
    }

    /// `"1.0.0"`.
    pub fn version(&self) -> (r: &'static str)
        ensures
            r@ == "1.0.0"@,
    {
        "1.0.0"
    }

    /// The invariants: `valid-probabilities` (critical) and `dominant-class` (advisory).
    pub fn invariants(&self) -> (r: Vec<InvariantSpec>)
        ensures
            r@.len() == 2,
            r@[0].name@ == "valid-probabilities"@,
            r@[0].severity == Severity::Critical,
            r@[1].name@ == "dominant-class"@,
            r@[1].severity == Severity::Advisory,
    {
        let mut r = Vec::new();
        r.push(
            invariant_spec(
                "valid-probabilities",
                "All class probabilities must be in [0, 1] and sum to 1",
                Severity::Critical,
            ),
        );
        r.push(
            invariant_spec(
                "dominant-class",
                "Top class has > 99% probability — consider whether priors are balanced",
                Severity::Advisory,
            ),
        );
        r
    }

    /// The range part of `valid-probabilities`: every probability lies in
    /// `[0, 1]`.
    pub fn probabilities_in_range(&self, output: &NaiveBayesOutput) -> (r: bool)
        ensures
            r == forall|i: int|
                0 <= i < output.probabilities@.len() ==> (#[trigger] output.probabilities@[i]).probability.spec_within(
                    zero_bits(),
                    one_bits(),
                ),
    {
        let zero = FloatBits::zero();
        let one = FloatBits::one();
        let n = output.probabilities.len();
        let mut i: usize = 0;
        while i < n
            invariant
                n == output.probabilities@.len(),
                i <= n,
                zero == zero_bits(),
                one == one_bits(),
                forall|j: int|
                    0 <= j < i ==> (#[trigger] output.probabilities@[j]).probability.spec_within(zero_bits(), one_bits()),
            decreases n - i,
        {
            if !output.probabilities[i].probability.within(&zero, &one) {
                return false;
            }
            i = i + 1;
        }
        true
    }

    /// `dominant-class` fires: the top probability exceeds `0.99`.
    pub fn dominant_class(&self, output: &NaiveBayesOutput) -> (r: bool)
        ensures
            r == dominance_bits().spec_lt(output.confidence),
    {
        let limit = FloatBits::from_bits(0x3fef_ae14_7ae1_47aeu64);
        output.confidence.gt(&limit)
    }
}

/// Whether a feature distribution passes its checks: a deviation above `0`,
/// a finite mean and a finite deviation.
pub open spec fn params_ok(p: GaussianParams) -> bool {
    &&& zero_bits().spec_lt(p.std_dev) || p.std_dev.spec_nan()
    &&& p.mean.spec_finite()
    &&& p.std_dev.spec_finite()
}

/// The distributions from position `i` on are accepted exactly when each
/// passes its own checks.
pub proof fn lemma_params_ok(class: String, params: Seq<GaussianParams>, i: int)
    requires
        0 <= i <= params.len(),
    ensures
        params_check_from(class, params, i) is Ok <==> forall|j: int| i <= j < params.len() ==> #[trigger] params_ok(params[j]),
    decreases params.len() - i,
{
    if i < params.len() {
        lemma_params_ok(class, params, i + 1);
        assert((forall|j: int| i <= j < params.len() ==> #[trigger] params_ok(params[j])) <==> (params_ok(params[i]) && forall|j: int|
            i + 1 <= j < params.len() ==> #[trigger] params_ok(params[j]))) by {
            if params_ok(params[i]) && (forall|j: int| i + 1 <= j < params.len() ==> #[trigger] params_ok(params[j])) {
                assert forall|j: int| i <= j < params.len() implies #[trigger] params_ok(params[j]) by {
                    if j == i {
                    }
                }
            }
        }
    }
}

/// Whether a class passes its checks: a prior above `0` (or NaN), `n`
/// feature distributions, each passing its own checks.
pub open spec fn class_ok(c: ClassDef, n: nat) -> bool {
    &&& !c.prior.spec_le(zero_bits())
    &&& c.feature_params@.len() == n
    &&& forall|j: int| 0 <= j < n ==> #[trigger] params_ok(c.feature_params@[j])
}

/// The classes from position `i` on are accepted exactly when each passes its
/// own checks.
pub proof fn lemma_classes_ok(classes: Seq<ClassDef>, n: nat, i: int)
    requires
        0 <= i <= classes.len(),
    ensures
        classes_check_from(classes, n, i) is Ok <==> forall|j: int| i <= j < classes.len() ==> #[trigger] class_ok(classes[j], n),
    decreases classes.len() - i,
{
    if i < classes.len() {
        lemma_classes_ok(classes, n, i + 1);
        lemma_params_ok(classes[i].name, classes[i].feature_params@, 0);
        assert((forall|j: int| i <= j < classes.len() ==> #[trigger] class_ok(classes[j], n)) <==> (class_ok(classes[i], n) && forall|j: int|
            i + 1 <= j < classes.len() ==> #[trigger] class_ok(classes[j], n))) by {
            if class_ok(classes[i], n) && (forall|j: int| i + 1 <= j < classes.len() ==> #[trigger] class_ok(classes[j], n)) {
                assert forall|j: int| i <= j < classes.len() implies #[trigger] class_ok(classes[j], n) by {
                    if j == i {
                    }
                }
            }
        }
    }
}

} // verus!
