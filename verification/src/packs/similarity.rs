//! Pairwise similarity: input checks, the enumeration of pairs, and the
//! finiteness invariant.
use crate::error::InputError;
use crate::float_bits::FloatBits;
use crate::packs::common::{
    descending_order, invariant_spec, is_permutation, no_nan, ranks_descending, InvariantSpec, Severity,
};
use crate::packs::ranking::kept_count;
use crate::text::{decimal, decimal_string};
use vstd::prelude::*;
use vstd::string::StringExecFns;

verus! {

/// How two feature vectors are compared.
#[derive(Debug, Clone, Copy, PartialEq, Eq, Structural)]
pub enum DistanceMetric {
    Euclidean,
    Cosine,
    Manhattan,
}

/// The metric when none is given: cosine.
pub fn default_metric() -> (r: DistanceMetric)
    ensures
        r == DistanceMetric::Cosine,
{
    DistanceMetric::Cosine
}

/// An item and its features.
#[derive(Debug, Clone)]
pub struct SimilarityItem {
    pub id: String,
    pub features: Vec<FloatBits>,
}

/// Items to compare pairwise, and how many of the closest pairs to keep.
#[derive(Debug, Clone)]
pub struct SimilarityInput {
    pub items: Vec<SimilarityItem>,
    pub metric: DistanceMetric,
    pub top_k: Option<usize>,
}

/// The first item, from position `i` on, with other than `dim` features.
pub open spec fn first_item_of_other_dim(items: Seq<SimilarityItem>, dim: nat, i: int) -> Option<int>
    decreases items.len() - i,
{
    if i < 0 || i >= items.len() {
        None
    } else if items[i].features@.len() != dim {
        Some(i)
    } else {
        first_item_of_other_dim(items, dim, i + 1)
    }
}

/// The refusal, if any, of a similarity input.
pub open spec fn similarity_check(items: Seq<SimilarityItem>, top_k: Option<usize>) -> Result<(), InputError> {
    if items.len() < 2 {
        Err(InputError::TooFewSimilarityItems)
    } else if items[0].features@.len() == 0 {
        Err(InputError::ItemsWithoutFeatures)
    } else if first_item_of_other_dim(items, items[0].features@.len(), 0) is Some {
        Err(
            InputError::ItemFeatureCount {
                index: first_item_of_other_dim(items, items[0].features@.len(), 0)->0 as usize,
                found: items[first_item_of_other_dim(items, items[0].features@.len(), 0)->0].features@.len() as usize,
                expected: items[0].features@.len() as usize,
            },
        )
    } else if top_k == Some(0usize) {
        Err(InputError::TopKZero)
    } else {
        Ok(())
    }
}

impl SimilarityInput {
    /// Checks: two items or more, at least one feature, every item as long
    /// as the first, `top_k >= 1`.
    #[verifier::loop_isolation(false)]
    pub fn validate(&self) -> (r: Result<(), InputError>)
        ensures
            r == similarity_check(self.items@, self.top_k),
    {
        if self.items.len() < 2 {
            return Err(InputError::TooFewSimilarityItems);
        }
        let dim = self.items[0].features.len();
        if dim == 0 {
            return Err(InputError::ItemsWithoutFeatures);
        }
        let n = self.items.len();
        let mut i: usize = 0;
        while i < n
            invariant
                n == self.items@.len(),
                i <= n,
                first_item_of_other_dim(self.items@, dim as nat, 0) == first_item_of_other_dim(
                    self.items@,
                    dim as nat,
                    i as int,
                ),
            decreases n - i,
        {
            if self.items[i].features.len() != dim {
                return Err(
                    InputError::ItemFeatureCount {
                        index: i,
                        found: self.items[i].features.len(),
                        expected: dim,
                    },
                );
            }
            i = i + 1;
        }
        if let Some(top_k) = self.top_k {
            if top_k == 0 {
                return Err(InputError::TopKZero);
            }
        }
        Ok(())
    }
}

/// A compared pair and its similarity.
#[derive(Debug, Clone)]
pub struct SimilarityPair {
    pub id_a: String,
    pub id_b: String,
    pub score: FloatBits,
}

/// The similarity result: the kept pairs and how many there were.
#[derive(Debug, Clone)]
pub struct SimilarityOutput {
    pub pairs: Vec<SimilarityPair>,
    pub total_pairs: usize,
}

impl SimilarityOutput {
    /// `"Computed {total_pairs} similarity pairs (showing {kept})"`.
    pub fn summary(&self) -> (r: String)
        ensures
            r@ == "Computed "@ + decimal(self.total_pairs as nat) + " similarity pairs (showing "@
                + decimal(self.pairs@.len()) + ")"@,
    {
        let mut s = String::from_str("Computed ");
        s.append(decimal_string(self.total_pairs).as_str());
        s.append(" similarity pairs (showing ");
        s.append(decimal_string(self.pairs.len()).as_str());
        s.append(")");
        s
    }
}

/// The number of pairs whose first member is below `i`, among `n` items.
pub open spec fn pairs_before(i: int, n: int) -> int {
    i * n - i * (i + 1) / 2
}

/// The position of the pair `(a, b)` among the pairs of `n` items listed by
/// first index, then by second.
pub open spec fn pair_position(a: int, b: int, n: int) -> int {
    pairs_before(a, n) + (b - a - 1)
}

/// Lexicographic order on index pairs.
pub open spec fn pair_lt(a: (usize, usize), b: (usize, usize)) -> bool {
    a.0 < b.0 || (a.0 == b.0 && a.1 < b.1)
}

proof fn lemma_consecutive_even(i: int)
    requires
        i >= 0,
    ensures
        (i * (i + 1)) % 2 == 0,
    decreases i,
{
    if i > 0 {
        lemma_consecutive_even(i - 1);
        assert(i * (i + 1) == (i - 1) * i + 2 * i) by (nonlinear_arith);
        let k = (i - 1) * i / 2;
        assert((i - 1) * i == 2 * k);
        assert(i * (i + 1) == 2 * (k + i));
        assert((2 * (k + i)) % 2 == 0) by (nonlinear_arith);
        assert((i * (i + 1)) % 2 == (2 * (k + i)) % 2);
    } else {
        assert(i * (i + 1) == 0) by (nonlinear_arith)
            requires
                i == 0,
        ;
    }
}

proof fn lemma_pairs_step(i: int, n: int)
    requires
        0 <= i < n,
    ensures
        pairs_before(i + 1, n) == pairs_before(i, n) + (n - 1 - i),
        0 <= pairs_before(i, n),
{
    assert((i + 1) * (i + 2) == i * (i + 1) + 2 * (i + 1)) by (nonlinear_arith);
    assert((i + 1) * n == i * n + n) by (nonlinear_arith);
    assert(i * (i + 1) / 2 <= i * n) by (nonlinear_arith)
        requires
            0 <= i < n,
    {
        assert(i * (i + 1) <= 2 * (i * n)) by (nonlinear_arith)
            requires
                0 <= i < n,
        ;
    }
    assert((i * (i + 1) + 2 * (i + 1)) / 2 == i * (i + 1) / 2 + (i + 1)) by {
        lemma_consecutive_even(i);
    }
}

proof fn lemma_pairs_total(n: int)
    requires
        n >= 0,
    ensures
        pairs_before(n, n) == n * (n - 1) / 2,
{
    assert(n * n - n * (n + 1) / 2 == n * (n - 1) / 2) by (nonlinear_arith)
        requires
            n >= 0,
    {
        assert(n * (n + 1) == n * (n - 1) + 2 * n) by (nonlinear_arith);
        if n > 0 {
            lemma_consecutive_even(n - 1);
        }
    }
}

/// The pairwise similarity solver.
pub struct PairwiseSimilaritySolver;

impl PairwiseSimilaritySolver {
    /// The pairs from the highest score to the lowest, equal scores in their
    /// original order (a stable sort). Where a score is NaN, the order is a
    /// permutation and nothing more is promised.
    pub fn pair_order(&self, scores: &Vec<FloatBits>) -> (r: Vec<usize>)
        ensures
            is_permutation(r@, scores@.len()),
            no_nan(scores@) ==> ranks_descending(scores@, r@),
    {
        descending_order(scores)
    }

    /// The pairs kept, in the given order: the pair at position `pos` of
    /// `order` names its two items by id and carries its score; at most
    /// `top_k` pairs are kept.
    pub fn kept_pairs(
        &self,
        input: &SimilarityInput,
        pairs: &Vec<(usize, usize)>,
        scores: &Vec<FloatBits>,
        order: &Vec<usize>,
    ) -> (r: Vec<SimilarityPair>)
        requires
            scores@.len() == pairs@.len(),
            forall|p: int| 0 <= p < pairs@.len() ==> (#[trigger] pairs@[p]).0 < input.items@.len() && pairs@[p].1 < input.items@.len(),
            forall|i: int| 0 <= i < order@.len() ==> (#[trigger] order@[i]) < pairs@.len(),
        ensures
            r@.len() == kept_count(input.top_k, order@.len()),
            forall|pos: int|
                0 <= pos < r@.len() ==> {
                    let p = order@[pos] as int;
                    &&& (#[trigger] r@[pos]).id_a == input.items@[pairs@[p].0 as int].id
                    &&& r@[pos].id_b == input.items@[pairs@[p].1 as int].id
                    &&& r@[pos].score == scores@[p]
                },
    {
        let n = order.len();
        let kept = match input.top_k {
            Some(k) => if k < n { k } else { n },
            None => n,
        };
        let mut r: Vec<SimilarityPair> = Vec::new();
        let mut pos: usize = 0;
        while pos < kept
            invariant
                kept <= n,
                n == order@.len(),
                kept == kept_count(input.top_k, n as nat),
                scores@.len() == pairs@.len(),
                forall|p: int| 0 <= p < pairs@.len() ==> (#[trigger] pairs@[p]).0 < input.items@.len() && pairs@[p].1 < input.items@.len(),
                forall|i: int| 0 <= i < order@.len() ==> (#[trigger] order@[i]) < pairs@.len(),
                pos <= kept,
                r@.len() == pos,
                forall|q: int|
                    0 <= q < pos ==> {
                        let p = order@[q] as int;
                        &&& (#[trigger] r@[q]).id_a == input.items@[pairs@[p].0 as int].id
                        &&& r@[q].id_b == input.items@[pairs@[p].1 as int].id
                        &&& r@[q].score == scores@[p]
                    },
            decreases kept - pos,
        {
            let p = order[pos];
            let (a, b) = pairs[p];
            r.push(
                SimilarityPair {
                    id_a: input.items[a].id.clone(),
                    id_b: input.items[b].id.clone(),
                    score: scores[p],
                },
            );
            pos = pos + 1;
        }
        r
    }

    /// The number of pairs among `n` items: `n * (n - 1) / 2`.
    pub fn total_pairs(&self, n: usize) -> (r: usize)
        requires
            n >= 1,
            n * (n - 1) <= usize::MAX,
        ensures
            r == n * (n - 1) / 2,
    {
        n * (n - 1) / 2
    }

    /// Every pair `(i, j)` with `i < j < n`, in the order the items are
    /// compared: by `i`, then by `j`.
    pub fn pair_indices(&self, n: usize) -> (r: Vec<(usize, usize)>)
        requires
            n * (n - 1) <= usize::MAX,
        ensures
            r@.len() == n * (n - 1) / 2,
            forall|p: int| 0 <= p < r@.len() ==> #[trigger] r@[p].0 < r@[p].1 && r@[p].1 < n,
            forall|p: int, q: int| 0 <= p < q < r@.len() ==> pair_lt(#[trigger] r@[p], #[trigger] r@[q]),
            forall|a: int, b: int|
                0 <= a < b < n ==> r@[#[trigger] pair_position(a, b, n as int)] == (a as usize, b as usize),
    {
        let mut r: Vec<(usize, usize)> = Vec::new();
        let mut i: usize = 0;
        while i < n
            invariant
                i <= n,
                n * (n - 1) <= usize::MAX,
                r@.len() == pairs_before(i as int, n as int),
                forall|p: int| 0 <= p < r@.len() ==> #[trigger] r@[p].0 < r@[p].1 && r@[p].1 < n && r@[p].0 < i,
                forall|p: int, q: int| 0 <= p < q < r@.len() ==> pair_lt(#[trigger] r@[p], #[trigger] r@[q]),
                forall|a: int, b: int|
                    0 <= a < i && a < b < n ==> 0 <= pair_position(a, b, n as int) < r@.len() && r@[#[trigger] pair_position(
                        a,
                        b,
                        n as int,
                    )] == (a as usize, b as usize),
            decreases n - i,
        {
            proof {
                lemma_pairs_step(i as int, n as int);
            }
            let ghost start = r@.len();
            let mut j: usize = i + 1;
            while j < n
                invariant
                    i < n,
                    i + 1 <= j <= n,
                    n * (n - 1) <= usize::MAX,
                    r@.len() == start + (j - i - 1),
                    start == pairs_before(i as int, n as int),
                    pairs_before(i + 1, n as int) == pairs_before(i as int, n as int) + (n - 1 - i),
                    forall|p: int| 0 <= p < start ==> #[trigger] r@[p].0 < i,
                    forall|p: int| #![trigger r@[p]] start <= p < r@.len() ==> r@[p].0 == i && r@[p].1 < j,
                    forall|p: int| #![trigger r@[p]] 0 <= p < r@.len() ==> r@[p].0 < r@[p].1 && r@[p].1 < n && r@[p].0 <= i,
                    forall|p: int, q: int| 0 <= p < q < r@.len() ==> pair_lt(#[trigger] r@[p], #[trigger] r@[q]),
                    forall|a: int, b: int|
                        0 <= a < i && a < b < n ==> 0 <= pair_position(a, b, n as int) < start && r@[#[trigger] pair_position(
                            a,
                            b,
                            n as int,
                        )] == (a as usize, b as usize),
                    forall|b: int| i < b < j ==> r@[#[trigger] pair_position(i as int, b, n as int)] == (i, b as usize),
                    start == pair_position(i as int, i as int + 1, n as int),
                decreases n - j,
            {
                let ghost before = r@;
                r.push((i, j));
                assert(r@ == before.push((i, j)));
                assert forall|p: int| #![trigger r@[p]] 0 <= p < r@.len() implies (start <= p ==> r@[p].0 == i && r@[p].1 < j + 1)
                    && r@[p].0 < r@[p].1 && r@[p].1 < n && r@[p].0 <= i by {
                    if p < before.len() {
                        assert(r@[p] == before[p]);
                    } else {
                        assert(r@[p] == (i, j));
                    }
                }
                assert forall|a: int, b: int|
                    0 <= a < i && a < b < n implies r@[#[trigger] pair_position(a, b, n as int)] == (
                        a as usize,
                        b as usize,
                    ) by {
                    assert(r@[pair_position(a, b, n as int)] == before[pair_position(a, b, n as int)]);
                }
                assert forall|b: int| i < b < j + 1 implies r@[#[trigger] pair_position(i as int, b, n as int)] == (
                    i,
                    b as usize,
                ) by {
                    if b < j {
                        assert(r@[pair_position(i as int, b, n as int)] == before[pair_position(
                            i as int,
                            b,
                            n as int,
                        )]);
                    } else {
                        assert(pair_position(i as int, b, n as int) == before.len());
                    }
                }
                j = j + 1;
            }
            i = i + 1;
        }
        proof {
            lemma_pairs_total(n as int);
        }
        r
    }
}

/// The similarity pack.
pub struct SimilarityPack;

impl SimilarityPack {
    /// `"similarity"`.
    pub fn name(&self) -> (r: &'static str)
        ensures
            r@ == "similarity"@,
    {
        "similarity"
    }

    /// `"1.0.0"`.
    pub fn version(&self) -> (r: &'static str)
        ensures
            r@ == "1.0.0"@,
    {
        "1.0.0"
    }

    /// The invariants: `valid-scores` (critical) and `low-discrimination` (advisory).
    pub fn invariants(&self) -> (r: Vec<InvariantSpec>)
        ensures
            r@.len() == 2,
            r@[0].name@ == "valid-scores"@,
            r@[0].severity == Severity::Critical,
            r@[1].name@ == "low-discrimination"@,
            r@[1].severity == Severity::Advisory,
    {
        let mut r = Vec::new();
        r.push(
            invariant_spec(
                "valid-scores",
                "All similarity scores must be finite",
                Severity::Critical,
            ),
        );
        r.push(
            invariant_spec(
                "low-discrimination",
                "All pairs have near-identical scores — features may not differentiate items",
                Severity::Advisory,
            ),
        );
        r
    }

    /// `valid-scores`: every pair score is finite.
    pub fn valid_scores(&self, output: &SimilarityOutput) -> (r: bool)
        ensures
            r == forall|i: int| 0 <= i < output.pairs@.len() ==> (#[trigger] output.pairs@[i]).score.spec_finite(),
    {
        let n = output.pairs.len();
        let mut i: usize = 0;
        while i < n
            invariant
                n == output.pairs@.len(),
                i <= n,
                forall|j: int| 0 <= j < i ==> (#[trigger] output.pairs@[j]).score.spec_finite(),
            decreases n - i,
        {
            if !output.pairs[i].score.is_finite() {
                return false;
            }
            i = i + 1;
        }
        true
    }
}

} // verus!
