//! Logistic classification: input checks, the labelling of records by
//! threshold, and the probability invariant.
use crate::error::InputError;
use crate::float_bits::FloatBits;
use crate::fuzzy::types::{one_bits, zero_bits};
use crate::packs::common::{
    first_other_length, first_row_of_other_length, invariant_spec, row_lengths, InvariantSpec, Severity,
};
use crate::text::{decimal, decimal_string};
use vstd::prelude::*;
use vstd::string::StringExecFns;

use crate::primitives::UnitFraction;

verus! {

/// Records scored by a logistic model.
#[derive(Debug, Clone)]
pub struct ClassificationInput {
    pub records: Vec<Vec<FloatBits>>,
    pub weights: Vec<FloatBits>,
    pub bias: FloatBits,
    pub threshold: UnitFraction,
    pub labels: Option<(String, String)>,
}

/// The refusal, if any, of records scored by a weight vector: no records,
/// no weights, a record whose length is not the number of weights.
pub open spec fn classification_check(records: Seq<Vec<FloatBits>>, dim: nat) -> Result<(), InputError> {
    if records.len() == 0 {
        Err(InputError::NoRecords)
    } else if dim == 0 {
        Err(InputError::NoWeights)
    } else {
        match first_other_length(row_lengths(records), dim, 0) {
            Some(i) => Err(
                InputError::RecordDimension {
                    index: i as usize,
                    found: records[i]@.len() as usize,
                    expected: dim as usize,
                },
            ),
            None => Ok(()),
        }
    }
}

impl ClassificationInput {
    /// Checks: records present, weights present, every record as long as the
    /// weights (the threshold is in range by construction).
    pub fn validate(&self) -> (r: Result<(), InputError>)
        ensures
            r == classification_check(self.records@, self.weights@.len()),
    {
        if self.records.len() == 0 {
            return Err(InputError::NoRecords);
        }
        let dim = self.weights.len();
        if dim == 0 {
            return Err(InputError::NoWeights);
        }
        match first_row_of_other_length(&self.records, dim) {
            Some(i) => {
                assert(row_lengths(self.records@)[i as int] == self.records@[i as int]@.len());
                Err(InputError::RecordDimension { index: i, found: self.records[i].len(), expected: dim })
            },
            None => Ok(()),
        }
    }
}

/// One classified record.
#[derive(Debug, Clone)]
pub struct ClassifiedRecord {
    pub index: usize,
    pub probability: FloatBits,
    pub label: String,
}

/// The result of classification.
#[derive(Debug, Clone)]
pub struct ClassificationOutput {
    pub predictions: Vec<ClassifiedRecord>,
    pub positive_count: usize,
    pub negative_count: usize,
    pub total: usize,
}

impl ClassificationOutput {
    /// `"Classified {total} records: {positive_count} positive, {negative_count} negative"`.
    pub fn summary(&self) -> (r: String)
        ensures
            r@ == "Classified "@ + decimal(self.total as nat) + " records: "@ + decimal(
                self.positive_count as nat,
            ) + " positive, "@ + decimal(self.negative_count as nat) + " negative"@,
    {
        let mut s = String::from_str("Classified ");
        s.append(decimal_string(self.total).as_str());
        s.append(" records: ");
        s.append(decimal_string(self.positive_count).as_str());
        s.append(" positive, ");
        s.append(decimal_string(self.negative_count).as_str());
        s.append(" negative");
        s
    }
}

/// The label of the positive class: the first given label, else `"positive"`.
pub open spec fn positive_label(input: ClassificationInput) -> Seq<char> {
    match input.labels {
        Some(pair) => pair.0@,
        None => "positive"@,
    }
}

/// The label of the negative class: the second given label, else `"negative"`.
pub open spec fn negative_label(input: ClassificationInput) -> Seq<char> {
    match input.labels {
        Some(pair) => pair.1@,
        None => "negative"@,
    }
}

/// Whether a probability puts a record in the positive class: it is at least
/// the threshold.
pub open spec fn is_positive(input: ClassificationInput, probability: FloatBits) -> bool {
    input.threshold@.spec_le(probability)
}

/// The number of positive records among the first `n` probabilities.
pub open spec fn positives_upto(input: ClassificationInput, probabilities: Seq<FloatBits>, n: int) -> nat
    decreases n,
{
    if n <= 0 {
        0
    } else {
        positives_upto(input, probabilities, n - 1) + if is_positive(input, probabilities[n - 1]) {
            1nat
        } else {
            0nat
        }
    }
}

/// The number of positive records among the first `n` is the number of
/// probabilities among them at least the threshold.
pub proof fn lemma_positive_count(
    input: ClassificationInput,
    probabilities: Seq<FloatBits>,
    n: int,
    at_least: spec_fn(FloatBits) -> bool,
)
    requires
        0 <= n <= probabilities.len(),
        forall|p: FloatBits| #[trigger] at_least(p) == input.threshold@.spec_le(p),
    ensures
        positives_upto(input, probabilities, n) == probabilities.take(n).filter(at_least).len(),
    decreases n,
{
    reveal(Seq::filter);
    if n > 0 {
        lemma_positive_count(input, probabilities, n - 1, at_least);
        assert(probabilities.take(n).drop_last() =~= probabilities.take(n - 1));
        assert(probabilities.take(n).last() == probabilities[n - 1]);
    }
}

/// The logistic classifier.
pub struct LogisticClassifier;

impl LogisticClassifier {
    /// The classification's output from each record's probability: record `i`
    /// keeps its index and probability and takes the positive label when the
    /// probability is at least the threshold, the negative one otherwise; the
    /// counts are those of each class.
    pub fn classify(&self, input: &ClassificationInput, probabilities: &Vec<FloatBits>) -> (r:
        ClassificationOutput)
        requires
            probabilities@.len() == input.records@.len(),
        ensures
            r.predictions@.len() == probabilities@.len(),
            forall|i: int|
                0 <= i < probabilities@.len() ==> {
                    let rec = #[trigger] r.predictions@[i];
                    &&& rec.index == i
                    &&& rec.probability == probabilities@[i]
                    &&& rec.label@ == if is_positive(*input, probabilities@[i]) {
                        positive_label(*input)
                    } else {
                        negative_label(*input)
                    }
                },
            r.positive_count == positives_upto(*input, probabilities@, probabilities@.len() as int),
            r.positive_count + r.negative_count == probabilities@.len(),
            r.total == probabilities@.len(),
            forall|i: int|
                0 <= i < probabilities@.len() && input.threshold@.spec_le(probabilities@[i]) ==> (#[trigger] r.predictions@[
                    i
                ]).label@ == (match input.labels {
                    Some(pair) => pair.0@,
                    None => "positive"@,
                }),
            forall|i: int|
                0 <= i < probabilities@.len() && !input.threshold@.spec_le(probabilities@[i]) ==> (#[trigger] r.predictions@[
                    i
                ]).label@ == (match input.labels {
                    Some(pair) => pair.1@,
                    None => "negative"@,
                }),
            r.positive_count == probabilities@.filter(|p: FloatBits| input.threshold@.spec_le(p)).len(),
    {
        let (pos, neg) = match &input.labels {
            Some(pair) => (pair.0.clone(), pair.1.clone()),
            None => (String::from_str("positive"), String::from_str("negative")),
        };
        let threshold = input.threshold.value();
        let n = probabilities.len();
        let mut predictions: Vec<ClassifiedRecord> = Vec::new();
        let mut positive_count: usize = 0;
        let mut negative_count: usize = 0;
        let mut i: usize = 0;
        while i < n
            invariant
                n == probabilities@.len(),
                i <= n,
                threshold == input.threshold@,
                pos@ == positive_label(*input),
                neg@ == negative_label(*input),
                predictions@.len() == i,
                positive_count == positives_upto(*input, probabilities@, i as int),
                positive_count + negative_count == i,
                forall|j: int|
                    0 <= j < i ==> {
                        let rec = #[trigger] predictions@[j];
                        &&& rec.index == j
                        &&& rec.probability == probabilities@[j]
                        &&& rec.label@ == if is_positive(*input, probabilities@[j]) {
                            positive_label(*input)
                        } else {
                            negative_label(*input)
                        }
                    },
            decreases n - i,
        {
            let p = probabilities[i];
            let label = if threshold.le(&p) {
                positive_count = positive_count + 1;
                pos.clone()
            } else {
                negative_count = negative_count + 1;
                neg.clone()
            };
            predictions.push(ClassifiedRecord { index: i, probability: p, label });
            i = i + 1;
        }
        proof {
            lemma_positive_count(*input, probabilities@, n as int, |p: FloatBits| input.threshold@.spec_le(p));
            assert(probabilities@.take(n as int) =~= probabilities@);
        }
        ClassificationOutput { predictions, positive_count, negative_count, total: n }
    }
}

/// The classification pack.
pub struct ClassificationPack;

impl ClassificationPack {
    /// `"classification"`.
    pub fn name(&self) -> (r: &'static str)
        ensures
            r@ == "classification"@,
    {
        "classification"
    }

    /// `"1.0.0"`.
    pub fn version(&self) -> (r: &'static str)
        ensures
            r@ == "1.0.0"@,
    {
        "1.0.0"
    }

    /// The invariants: `valid-probabilities` (critical) and `class-imbalance` (advisory).
    pub fn invariants(&self) -> (r: Vec<InvariantSpec>)
        ensures
            r@.len() == 2,
            r@[0].name@ == "valid-probabilities"@,
            r@[0].severity == Severity::Critical,
            r@[1].name@ == "class-imbalance"@,
            r@[1].severity == Severity::Advisory,
    {
        let mut r = Vec::new();
        r.push(
            invariant_spec(
                "valid-probabilities",
                "All probabilities must be in [0, 1]",
                Severity::Critical,
            ),
        );
        r.push(
            invariant_spec(
                "class-imbalance",
                "One class has > 90% of predictions — model may be degenerate",
                Severity::Advisory,
            ),
        );
        r
    }

    /// `valid-probabilities`: every probability lies in `[0, 1]`.
    pub fn valid_probabilities(&self, output: &ClassificationOutput) -> (r: bool)
        ensures
            r == forall|i: int|
                0 <= i < output.predictions@.len() ==> (#[trigger] output.predictions@[i]).probability.spec_within(
                    zero_bits(),
                    one_bits(),
                ),
    {
        let zero = FloatBits::zero();
        let one = FloatBits::one();
        let n = output.predictions.len();
        let mut i: usize = 0;
        while i < n
            invariant
                n == output.predictions@.len(),
                i <= n,
                zero == zero_bits(),
                one == one_bits(),
                forall|j: int|
                    0 <= j < i ==> (#[trigger] output.predictions@[j]).probability.spec_within(zero_bits(), one_bits()),
            decreases n - i,
        {
            if !output.predictions[i].probability.within(&zero, &one) {
                return false;
            }
            i = i + 1;
        }
        true
    }
}

} // verus!
