//! Weighted multi-criteria ranking: input checks, the order of the items by
//! composite score, and the ranked list.
use crate::error::InputError;
use crate::float_bits::FloatBits;
use crate::fuzzy::types::zero_bits;
use crate::packs::common::{
    descending_order, invariant_spec, is_permutation, no_nan, ranks_descending, InvariantSpec, Severity,
};
use crate::text::{decimal, decimal_string};
use vstd::prelude::*;
use vstd::string::StringExecFns;

verus! {

/// An item and its score on each criterion.
#[derive(Debug, Clone)]
pub struct RankItem {
    pub id: String,
    pub scores: Vec<FloatBits>,
}

/// Items to rank with one weight and one direction per criterion.
#[derive(Debug, Clone)]
pub struct RankingInput {
    pub items: Vec<RankItem>,
    pub weights: Vec<FloatBits>,
    pub higher_is_better: Vec<bool>,
    pub top_k: Option<usize>,
}

/// The first item, from position `i` on, whose score count is not `dim`.
pub open spec fn first_item_of_other_length(items: Seq<RankItem>, dim: nat, i: int) -> Option<int>
    decreases items.len() - i,
{
    if i < 0 || i >= items.len() {
        None
    } else if items[i].scores@.len() != dim {
        Some(i)
    } else {
        first_item_of_other_length(items, dim, i + 1)
    }
}

/// No item from position `i` on has another score count than `dim` exactly
/// when every one of them has `dim` scores; the item found is the first that
/// does not.
pub proof fn lemma_first_item_of_other_length(items: Seq<RankItem>, dim: nat, i: int)
    requires
        0 <= i,
    ensures
        first_item_of_other_length(items, dim, i) is None <==> (forall|j: int|
            i <= j < items.len() ==> (#[trigger] items[j]).scores@.len() == dim),
        first_item_of_other_length(items, dim, i) matches Some(k) ==> i <= k < items.len()
            && items[k].scores@.len() != dim && forall|j: int|
            i <= j < k ==> (#[trigger] items[j]).scores@.len() == dim,
    decreases items.len() - i,
{
    if i < items.len() {
        lemma_first_item_of_other_length(items, dim, i + 1);
    }
}

/// The refusal, if any, of a ranking input, in the order the checks run.
pub open spec fn ranking_check(
    items: Seq<RankItem>,
    weights: Seq<FloatBits>,
    directions: nat,
    top_k: Option<usize>,
) -> Result<(), InputError> {
    if items.len() == 0 {
        Err(InputError::NoItems)
    } else if weights.len() == 0 {
        Err(InputError::NoCriteria)
    } else if directions != weights.len() {
        Err(InputError::DirectionCount { found: directions as usize, expected: weights.len() as usize })
    } else if exists|j: int| 0 <= j < weights.len() && (#[trigger] weights[j]).spec_lt(zero_bits()) {
        Err(InputError::NegativeWeight)
    } else if first_item_of_other_length(items, weights.len(), 0) is Some {
        Err(
            InputError::ItemScoreCount {
                index: first_item_of_other_length(items, weights.len(), 0)->0 as usize,
                found: items[first_item_of_other_length(items, weights.len(), 0)->0].scores@.len() as usize,
                expected: weights.len() as usize,
            },
        )
    } else if top_k == Some(0usize) {
        Err(InputError::TopKZero)
    } else {
        Ok(())
    }
}

impl RankingInput {
    /// Checks: items present, criteria present, one direction per weight, no
    /// negative weight, one score per criterion on every item, `top_k >= 1`.
    #[verifier::loop_isolation(false)]
    pub fn validate(&self) -> (r: Result<(), InputError>)
        ensures
            r == ranking_check(self.items@, self.weights@, self.higher_is_better@.len(), self.top_k),
    {
        if self.items.len() == 0 {
            return Err(InputError::NoItems);
        }
        let dim = self.weights.len();
        if dim == 0 {
            return Err(InputError::NoCriteria);
        }
        if self.higher_is_better.len() != dim {
            return Err(InputError::DirectionCount { found: self.higher_is_better.len(), expected: dim });
        }
        let zero = FloatBits::zero();
        let mut j: usize = 0;
        while j < dim
            invariant
                dim == self.weights@.len(),
                j <= dim,
                zero == zero_bits(),
                forall|k: int| 0 <= k < j ==> !(#[trigger] self.weights@[k]).spec_lt(zero_bits()),
            decreases dim - j,
        {
            if self.weights[j].lt(&zero) {
                return Err(InputError::NegativeWeight);
            }
            j = j + 1;
        }
        let n = self.items.len();
        let mut i: usize = 0;
        while i < n
            invariant
                n == self.items@.len(),
                i <= n,
                first_item_of_other_length(self.items@, dim as nat, 0) == first_item_of_other_length(
                    self.items@,
                    dim as nat,
                    i as int,
                ),
            decreases n - i,
        {
            if self.items[i].scores.len() != dim {
                return Err(
                    InputError::ItemScoreCount { index: i, found: self.items[i].scores.len(), expected: dim },
                );
            }
            i = i + 1;
        }
        if let Some(top_k) = self.top_k {
            if top_k == 0 {
                return Err(InputError::TopKZero);
            }
        }
        Ok(())
    }
}

/// A ranked item.
#[derive(Debug, Clone)]
pub struct RankedItem {
    pub id: String,
    pub rank: usize,
    pub composite_score: FloatBits,
    pub normalized_scores: Vec<FloatBits>,
}

/// The ranking result.
#[derive(Debug, Clone)]
pub struct RankingOutput {
    pub ranked: Vec<RankedItem>,
    pub total_items: usize,
}

impl RankingOutput {
    /// `"Ranked {total_items} items, top: {id}"`, with the id of the first
    /// ranked item, or `none` when there is none.
    pub fn summary(&self) -> (r: String)
        ensures
            r@ == "Ranked "@ + decimal(self.total_items as nat) + " items, top: "@ + (if self.ranked@.len()
                > 0 {
                self.ranked@[0].id@
            } else {
                "none"@
            }),
    {
        let mut s = String::from_str("Ranked ");
        s.append(decimal_string(self.total_items).as_str());
        s.append(" items, top: ");
        if self.ranked.len() > 0 {
            s.append(self.ranked[0].id.as_str());
        } else {
            s.append("none");
        }
        s
    }
}

/// The weighted-scoring ranker.
pub struct WeightedScoringSolver;

impl WeightedScoringSolver {
    /// The ranking's output for the items in the given order: the item at
    /// position `pos` of `order` gets rank `pos + 1`, its id, its composite and
    /// its normalised scores; at most `top_k` items are kept.
    pub fn ranked_items(
        &self,
        input: &RankingInput,
        composites: &Vec<FloatBits>,
        normalized: &Vec<Vec<FloatBits>>,
        order: &Vec<usize>,
    ) -> (r: RankingOutput)
        requires
            composites@.len() == input.items@.len(),
            normalized@.len() == input.items@.len(),
            forall|i: int| 0 <= i < order@.len() ==> (#[trigger] order@[i]) < input.items@.len(),
        ensures
            r.total_items == input.items@.len(),
            r.ranked@.len() == kept_count(input.top_k, order@.len()),
            forall|pos: int|
                0 <= pos < r.ranked@.len() ==> is_ranked_item(
                    *input,
                    composites@,
                    normalized@,
                    order@,
                    pos,
                    #[trigger] r.ranked@[pos],
                ),
    {
        let n = order.len();
        let kept = match input.top_k {
            Some(k) => if k < n { k } else { n },
            None => n,
        };
        let mut ranked: Vec<RankedItem> = Vec::new();
        let mut pos: usize = 0;
        while pos < kept
            invariant
                kept <= n,
                n == order@.len(),
                kept == kept_count(input.top_k, n as nat),
                composites@.len() == input.items@.len(),
                normalized@.len() == input.items@.len(),
                forall|i: int| 0 <= i < order@.len() ==> (#[trigger] order@[i]) < input.items@.len(),
                pos <= kept,
                ranked@.len() == pos,
                forall|q: int|
                    0 <= q < pos ==> is_ranked_item(
                        *input,
                        composites@,
                        normalized@,
                        order@,
                        q,
                        #[trigger] ranked@[q],
                    ),
            decreases kept - pos,
        {
            let idx = order[pos];
            ranked.push(
                RankedItem {
                    id: input.items[idx].id.clone(),
                    rank: pos + 1,
                    composite_score: composites[idx],
                    normalized_scores: copy_scores(&normalized[idx]),
                },
            );
            pos = pos + 1;
        }
        RankingOutput { ranked, total_items: input.items.len() }
    }

    /// The positions of the items from the highest composite score to the
    /// lowest, equal scores in their original order (a stable sort). Where a
    /// score is NaN, the order is a permutation and nothing more is promised.
    pub fn rank_order(&self, composites: &Vec<FloatBits>) -> (r: Vec<usize>)
        ensures
            is_permutation(r@, composites@.len()),
            no_nan(composites@) ==> ranks_descending(composites@, r@),
    {
        descending_order(composites)
    }
}

/// How many ranked items are kept: at most `top_k`, when it is given.
pub open spec fn kept_count(top_k: Option<usize>, n: nat) -> nat {
    match top_k {
        Some(k) => if k < n { k as nat } else { n },
        None => n,
    }
}

/// Whether `item` is the item at rank `pos + 1` of `order`: its id, rank,
/// composite score and normalised scores.
pub open spec fn is_ranked_item(
    input: RankingInput,
    composites: Seq<FloatBits>,
    normalized: Seq<Vec<FloatBits>>,
    order: Seq<usize>,
    pos: int,
    item: RankedItem,
) -> bool {
    let idx = order[pos] as int;
    &&& item.id == input.items@[idx].id
    &&& item.rank == pos + 1
    &&& item.composite_score == composites[idx]
    &&& item.normalized_scores@ == normalized[idx]@
}

/// A copy of a score vector.
fn copy_scores(v: &Vec<FloatBits>) -> (r: Vec<FloatBits>)
    ensures
        r@ == v@,
{
    let mut r: Vec<FloatBits> = Vec::new();
    let mut i: usize = 0;
    while i < v.len()
        invariant
            i <= v@.len(),
            r@ == v@.subrange(0, i as int),
        decreases v@.len() - i,
    {
        r.push(v[i]);
        i = i + 1;
    }
    r
}

/// The ranking pack.
pub struct RankingPack;

impl RankingPack {
    /// `"ranking"`.
    pub fn name(&self) -> (r: &'static str)
        ensures
            r@ == "ranking"@,
    {
        "ranking"
    }

    /// `"1.0.0"`.
    pub fn version(&self) -> (r: &'static str)
        ensures
            r@ == "1.0.0"@,
    {
        "1.0.0"
    }

    /// The invariants: `valid-dimensions` (critical) and `score-separation` (advisory).
    pub fn invariants(&self) -> (r: Vec<InvariantSpec>)
        ensures
            r@.len() == 2,
            r@[0].name@ == "valid-dimensions"@,
            r@[0].severity == Severity::Critical,
            r@[1].name@ == "score-separation"@,
            r@[1].severity == Severity::Advisory,
    {
        let mut r = Vec::new();
        r.push(
            invariant_spec(
                "valid-dimensions",
                "All items must have matching score dimensions",
                Severity::Critical,
            ),
        );
        r.push(
            invariant_spec(
                "score-separation",
                "Top and bottom scores differ by < 0.01 — items are indistinguishable",
                Severity::Advisory,
            ),
        );
        r
    }
}

} // verus!
