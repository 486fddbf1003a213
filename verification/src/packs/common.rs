//! What every pack shares: invariant definitions, row-length checks and the
//! order of positions by descending score.
use crate::float_bits::FloatBits;
use vstd::prelude::*;
use vstd::set_lib::{lemma_int_range, lemma_subset_equality, set_int_range};
use vstd::string::StringExecFns;

verus! {

/// How a failed invariant weighs on promotion.
#[derive(Debug, Clone, Copy, PartialEq, Eq, Structural)]
pub enum Severity {
    /// A failure blocks promotion.
    Critical,
    /// A failure is reported without blocking.
    Advisory,
}

/// A named invariant that a pack checks on its plans.
#[derive(Debug, Clone)]
pub struct InvariantSpec {
    pub name: String,
    pub description: String,
    pub severity: Severity,
}

/// An invariant definition from its name, description and severity.
pub fn invariant_spec(name: &str, description: &str, severity: Severity) -> (r: InvariantSpec)
    ensures
        r.name@ == name@,
        r.description@ == description@,
        r.severity == severity,
{
    InvariantSpec {
        name: String::from_str(name),
        description: String::from_str(description),
        severity,
    }
}

/// The lengths of a list of rows.
pub open spec fn row_lengths(rows: Seq<Vec<FloatBits>>) -> Seq<nat> {
    rows.map_values(|r: Vec<FloatBits>| r@.len())
}

/// The first position, from `i` on, whose length is not `dim`.
pub open spec fn first_other_length(lens: Seq<nat>, dim: nat, i: int) -> Option<int>
    decreases lens.len() - i,
{
    if i < 0 || i >= lens.len() {
        None
    } else if lens[i] != dim {
        Some(i)
    } else {
        first_other_length(lens, dim, i + 1)
    }
}

/// `first_other_length` finds nothing exactly when every length from `i` on
/// is `dim`, and what it finds is a position with another length.
pub proof fn lemma_first_other_length(lens: Seq<nat>, dim: nat, i: int)
    requires
        0 <= i,
    ensures
        first_other_length(lens, dim, i) is None <==> (forall|j: int|
            i <= j < lens.len() ==> #[trigger] lens[j] == dim),
        first_other_length(lens, dim, i) matches Some(k) ==> i <= k < lens.len() && lens[k] != dim
            && forall|j: int| i <= j < k ==> #[trigger] lens[j] == dim,
    decreases lens.len() - i,
{
    if i < lens.len() {
        lemma_first_other_length(lens, dim, i + 1);
    }
}

/// The position of the first row whose length is not `dim`.
pub fn first_row_of_other_length(rows: &Vec<Vec<FloatBits>>, dim: usize) -> (r: Option<usize>)
    ensures
        r matches Some(i) ==> first_other_length(row_lengths(rows@), dim as nat, 0) == Some(i as int)
            && i < rows@.len() && rows@[i as int]@.len() != dim,
        r is None ==> first_other_length(row_lengths(rows@), dim as nat, 0) is None,
{
    let n = rows.len();
    let mut i: usize = 0;
    while i < n
        invariant
            n == rows@.len(),
            i <= n,
            first_other_length(row_lengths(rows@), dim as nat, 0) == first_other_length(
                row_lengths(rows@),
                dim as nat,
                i as int,
            ),
        decreases n - i,
    {
        assert(row_lengths(rows@)[i as int] == rows@[i as int]@.len());
        if rows[i].len() != dim {
            return Some(i);
        }
        i = i + 1;
    }
    None
}

/// Whether `order` lists each of `0..n` exactly once.
pub open spec fn is_permutation(order: Seq<usize>, n: nat) -> bool {
    &&& order.len() == n
    &&& forall|i: int| 0 <= i < n ==> (#[trigger] order[i]) < n
    &&& forall|i: int, j: int| 0 <= i < j < n ==> order[i] != order[j]
}

/// Whether no score is NaN.
pub open spec fn no_nan(scores: Seq<FloatBits>) -> bool {
    forall|i: int| 0 <= i < scores.len() ==> !(#[trigger] scores[i]).spec_nan()
}

/// Whether `order` lists positions from the highest score to the lowest, equal
/// scores in their original order.
pub open spec fn ranks_descending(scores: Seq<FloatBits>, order: Seq<usize>) -> bool {
    forall|i: int, j: int|
        0 <= i < j < order.len() ==> {
            ||| scores[order[j] as int].spec_lt(scores[order[i] as int])
            ||| (scores[order[j] as int].spec_num_eq(scores[order[i] as int]) && order[i] < order[j])
        }
}

/// Inserting position `k`, whose score is not above those before `p` and is
/// above the one at `p`, keeps a descending order descending.
proof fn lemma_insert_keeps_order(scores: Seq<FloatBits>, order: Seq<usize>, p: int, k: usize)
    requires
        no_nan(scores),
        k < scores.len(),
        ranks_descending(scores, order),
        forall|q: int| 0 <= q < order.len() ==> (#[trigger] order[q]) < k,
        0 <= p <= order.len(),
        forall|q: int| 0 <= q < p ==> !(#[trigger] scores[order[q] as int]).spec_lt(scores[k as int]),
        p < order.len() ==> scores[order[p] as int].spec_lt(scores[k as int]),
    ensures
        ranks_descending(scores, order.insert(p, k)),
{
    let s = order.insert(p, k);
    order.insert_ensures(p, k);
    assert forall|i: int, j: int| 0 <= i < j < s.len() implies {
        ||| scores[s[j] as int].spec_lt(scores[s[i] as int])
        ||| (scores[s[j] as int].spec_num_eq(scores[s[i] as int]) && s[i] < s[j])
    } by {
        let sk = scores[k as int];
        assert(!sk.spec_nan());
        if j < p {
            assert(s[i] == order[i] && s[j] == order[j]);
        } else if j == p {
            assert(s[i] == order[i]);
            assert(s[j] == k);
            let a = scores[order[i] as int];
            assert(!a.spec_lt(sk));
            assert(!a.spec_nan());
            assert(order[i] < k);
        } else if i > p {
            assert(s[i] == order[i - 1] && s[j] == order[j - 1]);
        } else if i == p {
            assert(s[i] == k);
            assert(s[j] == order[j - 1]);
            let b = scores[order[j - 1] as int];
            let c = scores[order[p] as int];
            assert(!b.spec_nan());
            assert(!c.spec_nan());
            assert(c.spec_lt(sk));
            if j - 1 > p {
                assert(b.spec_lt(c) || b.spec_num_eq(c));
            }
            assert(b.spec_lt(sk));
        } else {
            assert(s[i] == order[i] && s[j] == order[j - 1]);
            assert(i < j - 1);
        }
    }
}

/// A permutation of `0..n` lists every position below `n`.
pub proof fn lemma_permutation_covers(order: Seq<usize>, n: nat, y: int)
    requires
        is_permutation(order, n),
        0 <= y < n,
    ensures
        exists|q: int| 0 <= q < n && order[q] == y,
{
    let ints = order.map_values(|v: usize| v as int);
    assert forall|i: int, j: int| 0 <= i < ints.len() && 0 <= j < ints.len() && i != j implies ints[i]
        != ints[j] by {
        if i < j {
            assert(order[i] != order[j]);
        } else {
            assert(order[j] != order[i]);
        }
    }
    assert(ints.no_duplicates());
    ints.unique_seq_to_set();
    lemma_int_range(0, n as int);
    assert forall|v: int| ints.to_set().contains(v) implies set_int_range(0, n as int).contains(v) by {
        let i = choose|i: int| 0 <= i < ints.len() && ints[i] == v;
        assert(order[i] < n);
    }
    lemma_subset_equality(ints.to_set(), set_int_range(0, n as int));
    assert(set_int_range(0, n as int).contains(y));
    assert(ints.to_set().contains(y));
    let q = choose|q: int| 0 <= q < ints.len() && ints[q] == y;
    assert(order[q] == y);
}

/// `a` goes before `b` in a descending order with ties kept in position order.
spec fn goes_before(scores: Seq<FloatBits>, a: int, b: int) -> bool {
    ||| scores[b].spec_lt(scores[a])
    ||| (scores[b].spec_num_eq(scores[a]) && a < b)
}

proof fn lemma_descending_prefix_equal(scores: Seq<FloatBits>, o1: Seq<usize>, o2: Seq<usize>, k: int)
    requires
        no_nan(scores),
        is_permutation(o1, scores.len()),
        is_permutation(o2, scores.len()),
        ranks_descending(scores, o1),
        ranks_descending(scores, o2),
        0 <= k <= scores.len(),
    ensures
        forall|q: int| 0 <= q < k ==> o1[q] == o2[q],
    decreases k,
{
    if k > 0 {
        let p = k - 1;
        lemma_descending_prefix_equal(scores, o1, o2, p);
        let x = o1[p] as int;
        let y = o2[p] as int;
        if x != y {
            let n = scores.len();
            lemma_permutation_covers(o1, n, y);
            let q = choose|q: int| 0 <= q < n && o1[q] == y;
            if q < p {
                assert(o2[q] == o2[p]);
            }
            assert(q > p);
            lemma_permutation_covers(o2, n, x);
            let r = choose|r: int| 0 <= r < n && o2[r] == x;
            if r < p {
                assert(o1[r] == o1[p]);
            }
            assert(r > p);
            assert(!scores[x].spec_nan() && !scores[y].spec_nan());
            assert(goes_before(scores, x, y)) by {
                assert(o1[p] as int == x && o1[q] as int == y);
            }
            assert(goes_before(scores, y, x)) by {
                assert(o2[p] as int == y && o2[r] as int == x);
            }
        }
    }
}

/// Without NaN scores, there is one order of the positions from the highest
/// score to the lowest with equal scores in position order: two such orders
/// are the same.
pub proof fn lemma_descending_order_unique(scores: Seq<FloatBits>, o1: Seq<usize>, o2: Seq<usize>)
    requires
        no_nan(scores),
        is_permutation(o1, scores.len()),
        is_permutation(o2, scores.len()),
        ranks_descending(scores, o1),
        ranks_descending(scores, o2),
    ensures
        o1 == o2,
{
    lemma_descending_prefix_equal(scores, o1, o2, scores.len() as int);
    assert(o1 =~= o2);
}

/// The positions of `scores` from the highest score to the lowest, equal
/// scores in their original order: what a stable sort by descending score,
/// with incomparable scores taken as equal, gives. Where a score is NaN, the
/// order is a permutation and nothing more is promised.
pub fn descending_order(scores: &Vec<FloatBits>) -> (r: Vec<usize>)
    ensures
        is_permutation(r@, scores@.len()),
        no_nan(scores@) ==> ranks_descending(scores@, r@),
{
    let n = scores.len();
    let mut order: Vec<usize> = Vec::new();
    let mut k: usize = 0;
    while k < n
        invariant
            n == scores@.len(),
            k <= n,
            is_permutation(order@, k as nat),
            no_nan(scores@) ==> ranks_descending(scores@, order@),
        decreases n - k,
    {
        let len = order.len();
        let mut p: usize = 0;
        while p < len && !scores[order[p]].lt(&scores[k])
            invariant
                n == scores@.len(),
                k < n,
                len == order@.len(),
                p <= len,
                is_permutation(order@, k as nat),
                forall|q: int|
                    0 <= q < p ==> !(#[trigger] scores@[order@[q] as int]).spec_lt(scores@[k as int]),
            decreases len - p,
        {
            p = p + 1;
        }
        proof {
            if no_nan(scores@) {
                lemma_insert_keeps_order(scores@, order@, p as int, k);
            }
            order@.insert_ensures(p as int, k);
        }
        let ghost before = order@;
        order.insert(p, k);
        proof {
            assert forall|i: int, j: int| 0 <= i < j < k + 1 implies order@[i] != order@[j] by {
                if j < p {
                    assert(order@[i] == before[i] && order@[j] == before[j]);
                } else if j == p {
                    assert(order@[i] == before[i]);
                } else if i > p {
                    assert(order@[i] == before[i - 1] && order@[j] == before[j - 1]);
                } else if i < p {
                    assert(order@[i] == before[i] && order@[j] == before[j - 1]);
                } else {
                    assert(order@[j] == before[j - 1]);
                }
            }
            assert forall|i: int| 0 <= i < k + 1 implies (#[trigger] order@[i]) < k + 1 by {
                if i < p {
                    assert(order@[i] == before[i]);
                } else if i > p {
                    assert(order@[i] == before[i - 1]);
                }
            }
        }
        k = k + 1;
    }
    order
}

/// Whether `order` lists positions from the lowest score to the highest, equal
/// scores in their original order.
pub open spec fn ranks_ascending(scores: Seq<FloatBits>, order: Seq<usize>) -> bool {
    forall|i: int, j: int|
        0 <= i < j < order.len() ==> {
            ||| scores[order[i] as int].spec_lt(scores[order[j] as int])
            ||| (scores[order[j] as int].spec_num_eq(scores[order[i] as int]) && order[i] < order[j])
        }
}

/// The positions of `scores` from the lowest score to the highest, equal
/// scores in their original order: what a stable sort by ascending score, with
/// incomparable scores taken as equal, gives. Where a score is NaN, the order
/// is a permutation and nothing more is promised.
pub fn ascending_order(scores: &Vec<FloatBits>) -> (r: Vec<usize>)
    ensures
        is_permutation(r@, scores@.len()),
        no_nan(scores@) ==> ranks_ascending(scores@, r@),
{
    let n = scores.len();
    let mut negated: Vec<FloatBits> = Vec::new();
    let mut i: usize = 0;
    while i < n
        invariant
            n == scores@.len(),
            i <= n,
            negated@.len() == i,
            forall|j: int| 0 <= j < i ==> (#[trigger] negated@[j]).spec_nan() == scores@[j].spec_nan(),
            forall|j: int|
                0 <= j < i && !scores@[j].spec_nan() ==> (#[trigger] negated@[j]).order_key()
                    == -scores@[j].order_key(),
        decreases n - i,
    {
        negated.push(scores[i].neg());
        i = i + 1;
    }
    let r = descending_order(&negated);
    proof {
        if no_nan(scores@) {
            assert forall|j: int| 0 <= j < negated@.len() implies !(#[trigger] negated@[j]).spec_nan() by {
                assert(!scores@[j].spec_nan());
            }
            assert forall|a: int, b: int| 0 <= a < b < r@.len() implies {
                ||| scores@[r@[a] as int].spec_lt(scores@[r@[b] as int])
                ||| (scores@[r@[b] as int].spec_num_eq(scores@[r@[a] as int]) && r@[a] < r@[b])
            } by {
                let x = r@[a] as int;
                let y = r@[b] as int;
                assert(x < n && y < n);
                assert(negated@[y].spec_lt(negated@[x]) || (negated@[y].spec_num_eq(negated@[x]) && r@[a]
                    < r@[b]));
                assert(negated@[x].order_key() == -scores@[x].order_key());
                assert(negated@[y].order_key() == -scores@[y].order_key());
                assert(!scores@[x].spec_nan() && !scores@[y].spec_nan());
            }
        }
    }
    r
}

} // verus!
