//! K-means segmentation: input checks, seeding, and cluster bookkeeping.
use crate::error::InputError;
use crate::float_bits::FloatBits;
use crate::packs::common::{
    first_other_length, first_row_of_other_length, invariant_spec, lemma_first_other_length,
    row_lengths, InvariantSpec, Severity,
};
use vstd::prelude::*;

verus! {

/// Records to cluster into `k` groups.
#[derive(Debug, Clone)]
pub struct SegmentationInput {
    pub records: Vec<Vec<FloatBits>>,
    pub k: usize,
    pub max_iterations: usize,
    pub seed: Option<u64>,
}

/// The iteration cap when none is given: 100.
pub fn default_max_iterations() -> (r: usize)
    ensures
        r == 100,
{
    100
}

/// The refusal, if any, of a segmentation input, in the order the checks run.
pub open spec fn segmentation_check(records: Seq<Vec<FloatBits>>, k: usize, max_iterations: usize) -> Result<
    (),
    InputError,
> {
    if records.len() == 0 {
        Err(InputError::NoRecords)
    } else if k == 0 {
        Err(InputError::KZero)
    } else if k > records.len() {
        Err(InputError::KExceedsRecords)
    } else if max_iterations == 0 {
        Err(InputError::ZeroMaxIterations)
    } else if records[0]@.len() == 0 {
        Err(InputError::RecordsWithoutFeatures)
    } else {
        match first_other_length(row_lengths(records), records[0]@.len(), 0) {
            Some(i) => Err(
                InputError::RecordDimension {
                    index: i as usize,
                    found: records[i]@.len() as usize,
                    expected: records[0]@.len() as usize,
                },
            ),
            None => Ok(()),
        }
    }
}

impl SegmentationInput {
    /// Checks: records present, `1 <= k <= records`, at least one iteration,
    /// at least one feature, every record as long as the first.
    pub fn validate(&self) -> (r: Result<(), InputError>)
        ensures
            r == segmentation_check(self.records@, self.k, self.max_iterations),
    {
        if self.records.len() == 0 {
            return Err(InputError::NoRecords);
        }
        if self.k == 0 {
            return Err(InputError::KZero);
        }
        if self.k > self.records.len() {
            return Err(InputError::KExceedsRecords);
        }
        if self.max_iterations == 0 {
            return Err(InputError::ZeroMaxIterations);
        }
        let dim = self.records[0].len();
        if dim == 0 {
            return Err(InputError::RecordsWithoutFeatures);
        }
        match first_row_of_other_length(&self.records, dim) {
            Some(i) => {
                assert(row_lengths(self.records@)[i as int] == self.records@[i as int]@.len());
                Err(InputError::RecordDimension { index: i, found: self.records[i].len(), expected: dim })
            },
            None => Ok(()),
        }
    }
}

/// A segmentation input that passed its checks has `1 <= k <= n` records, all
/// of one positive dimension: what seeding `k` centroids among the records
/// and comparing each record with each centroid need.
pub proof fn lemma_validated_segmentation(records: Seq<Vec<FloatBits>>, k: usize, max_iterations: usize)
    requires
        segmentation_check(records, k, max_iterations) is Ok,
    ensures
        0 < k <= records.len(),
        max_iterations > 0,
        records[0]@.len() > 0,
        forall|i: int| 0 <= i < records.len() ==> (#[trigger] records[i])@.len() == records[0]@.len(),
{
    lemma_first_other_length(row_lengths(records), records[0]@.len(), 0);
    assert forall|i: int| 0 <= i < records.len() implies (#[trigger] records[i])@.len()
        == records[0]@.len() by {
        assert(row_lengths(records)[i] == records[i]@.len());
    }
}

/// A clustering result.
#[derive(Debug, Clone)]
pub struct SegmentationOutput {
    pub assignments: Vec<usize>,
    pub centroids: Vec<Vec<FloatBits>>,
    pub iterations_used: usize,
    pub inertia: FloatBits,
}

/// The multiplier of the seeded centroid choice.
pub const SEED_MULTIPLIER: u64 = 6364136223846793005u64;

/// The record that seeds centroid `i` of `k` among `n` records: with a seed,
/// `(seed * 6364136223846793005 + i) mod 2^64 mod n`; without one, the evenly
/// spaced `i * n / k`.
pub open spec fn initial_index(seed: Option<u64>, i: int, n: int, k: int) -> int {
    match seed {
        Some(s) => (((s as int * SEED_MULTIPLIER as int) % 0x1_0000_0000_0000_0000int + i)
            % 0x1_0000_0000_0000_0000int) % n,
        None => (i * n) / k,
    }
}

/// The number of positions of `assignments` below `upto` that hold `c`.
pub open spec fn assigned_count(assignments: Seq<usize>, c: usize, upto: int) -> nat
    decreases upto,
{
    if upto <= 0 {
        0
    } else {
        assigned_count(assignments, c, upto - 1) + if assignments[upto - 1] == c {
            1nat
        } else {
            0nat
        }
    }
}

/// The clusters, below `upto`, that hold no record.
pub open spec fn empty_positions(counts: Seq<usize>, upto: int) -> Seq<usize>
    decreases upto,
{
    if upto <= 0 {
        Seq::empty()
    } else if counts[upto - 1] == 0 {
        empty_positions(counts, upto - 1).push((upto - 1) as usize)
    } else {
        empty_positions(counts, upto - 1)
    }
}

proof fn lemma_assigned_count_bound(assignments: Seq<usize>, c: usize, upto: int)
    requires
        0 <= upto <= assignments.len(),
    ensures
        assigned_count(assignments, c, upto) <= upto,
    decreases upto,
{
    if upto > 0 {
        lemma_assigned_count_bound(assignments, c, upto - 1);
    }
}

/// The empty clusters are exactly the clusters of count zero, in increasing
/// order.
pub proof fn lemma_empty_positions(counts: Seq<usize>, upto: int)
    requires
        0 <= upto <= counts.len(),
        counts.len() <= usize::MAX,
    ensures
        forall|j: int|
            0 <= j < empty_positions(counts, upto).len() ==> (#[trigger] empty_positions(counts, upto)[j]
                as int) < upto && counts[empty_positions(counts, upto)[j] as int] == 0,
        forall|c: int|
            0 <= c < upto && counts[c] == 0 ==> exists|j: int|
                0 <= j < empty_positions(counts, upto).len() && #[trigger] empty_positions(counts, upto)[j]
                    == c,
        empty_positions(counts, upto).len() == 0 <==> forall|c: int|
            0 <= c < upto ==> #[trigger] counts[c] != 0,
    decreases upto,
{
    if upto > 0 {
        lemma_empty_positions(counts, upto - 1);
        let prev = empty_positions(counts, upto - 1);
        let cur = empty_positions(counts, upto);
        if counts[upto - 1] == 0 {
            assert(cur == prev.push((upto - 1) as usize));
            assert(cur[prev.len() as int] == (upto - 1) as usize);
            assert forall|j: int| 0 <= j < cur.len() implies (#[trigger] cur[j] as int) < upto && counts[cur[j] as int] == 0 by {
                if j < prev.len() {
                    assert(cur[j] == prev[j]);
                }
            }
            assert forall|c: int| 0 <= c < upto && counts[c] == 0 implies exists|j: int|
                0 <= j < cur.len() && #[trigger] cur[j] == c by {
                if c < upto - 1 {
                    let j = choose|j: int| 0 <= j < prev.len() && #[trigger] prev[j] == c;
                    assert(cur[j] == prev[j]);
                } else {
                    assert(cur[prev.len() as int] == c);
                }
            }
        } else {
            assert(cur == prev);
            assert forall|c: int| 0 <= c < upto && counts[c] == 0 implies exists|j: int|
                0 <= j < cur.len() && #[trigger] cur[j] == c by {
                assert(c < upto - 1);
            }
        }
    }
}

/// The centroid a record joins, among the first `n` distances: the first
/// position, replaced by each later one whose distance is strictly smaller.
pub open spec fn nearest(distances: Seq<FloatBits>, n: nat) -> int
    decreases n,
{
    if n <= 1 {
        0
    } else {
        let best = nearest(distances, (n - 1) as nat);
        if distances[n - 1].spec_lt(distances[best]) {
            n - 1
        } else {
            best
        }
    }
}

/// When no distance is NaN, the nearest centroid is the first one at the
/// smallest distance: no distance is below its, and every earlier one is
/// above it.
pub proof fn lemma_nearest_is_first_minimum(distances: Seq<FloatBits>, n: nat)
    requires
        1 <= n <= distances.len(),
        forall|i: int| 0 <= i < n ==> !(#[trigger] distances[i]).spec_nan(),
    ensures
        0 <= nearest(distances, n) < n,
        forall|i: int| 0 <= i < n ==> distances[nearest(distances, n)].spec_le(#[trigger] distances[i]),
        forall|i: int| 0 <= i < nearest(distances, n) ==> distances[nearest(distances, n)].spec_lt(
            #[trigger] distances[i],
        ),
    decreases n,
{
    if n > 1 {
        lemma_nearest_is_first_minimum(distances, (n - 1) as nat);
    }
}

/// The nearest centroid for a record's distances, `0` when there are none.
pub open spec fn nearest_or_first(distances: Seq<FloatBits>) -> int {
    if distances.len() > 0 {
        nearest(distances, distances.len())
    } else {
        0
    }
}

/// The progress of Lloyd iterations: the current assignment of each record,
/// the passes made, the most passes allowed, and whether the iterations are
/// over.
#[derive(Debug, Clone)]
pub struct KMeansProgress {
    pub assignments: Vec<usize>,
    pub iterations_used: usize,
    pub max_iterations: usize,
    pub finished: bool,
}

impl KMeansProgress {
    /// The start of the iterations over `n` records: every record in cluster
    /// `0`, no pass made, over at once when no pass is allowed.
    pub fn start(n: usize, max_iterations: usize) -> (r: KMeansProgress)
        ensures
            r.assignments@ == Seq::new(n as nat, |i: int| 0usize),
            r.iterations_used == 0,
            r.max_iterations == max_iterations,
            r.finished == (max_iterations == 0),
    {
        let mut assignments: Vec<usize> = Vec::new();
        let mut i: usize = 0;
        while i < n
            invariant
                i <= n,
                assignments@ == Seq::new(i as nat, |j: int| 0usize),
            decreases n - i,
        {
            assignments.push(0);
            i = i + 1;
            assert(assignments@ =~= Seq::new(i as nat, |j: int| 0usize));
        }
        KMeansProgress { assignments, iterations_used: 0, max_iterations, finished: max_iterations == 0 }
    }

    /// One pass: every record moves to its nearest centroid, from its
    /// distance to each centroid. The result tells whether any record moved,
    /// in which case the centroids are to be recomputed. The iterations are
    /// over after a pass in which nothing moved, or after the last pass
    /// allowed; the passes never exceed the allowance.
    pub fn step(&mut self, distances: &Vec<Vec<FloatBits>>) -> (moved: bool)
        requires
            !old(self).finished,
            old(self).iterations_used < old(self).max_iterations,
            old(self).assignments@.len() == distances@.len(),
        ensures
            final(self).iterations_used == old(self).iterations_used + 1,
            final(self).iterations_used <= final(self).max_iterations,
            final(self).max_iterations == old(self).max_iterations,
            final(self).assignments@.len() == distances@.len(),
            forall|i: int|
                0 <= i < distances@.len() ==> final(self).assignments@[i] as int == nearest_or_first(
                    #[trigger] distances@[i]@,
                ),
            moved <==> exists|i: int|
                0 <= i < distances@.len() && #[trigger] old(self).assignments@[i] != final(self).assignments@[i],
            final(self).finished == (!moved || final(self).iterations_used == final(self).max_iterations),
    {
        self.iterations_used = self.iterations_used + 1;
        let moved = KMeansSolver.assign(&mut self.assignments, distances);
        self.finished = !moved || self.iterations_used == self.max_iterations;
        moved
    }
}

/// The k-means solver (Lloyd iterations from seeded centroids).
pub struct KMeansSolver;

impl KMeansSolver {
    /// The centroid nearest to a record, from the record's distance to each
    /// centroid: the first smallest distance, comparing as `<` does; `0`
    /// when there is no centroid.
    pub fn nearest_centroid(&self, distances: &Vec<FloatBits>) -> (r: usize)
        ensures
            distances@.len() > 0 ==> r as int == nearest(distances@, distances@.len()),
            distances@.len() == 0 ==> r == 0,
    {
        let n = distances.len();
        if n == 0 {
            return 0;
        }
        let mut best: usize = 0;
        let mut i: usize = 1;
        while i < n
            invariant
                n == distances@.len(),
                1 <= i <= n,
                best as int == nearest(distances@, i as nat),
                best < i,
            decreases n - i,
        {
            if distances[i].lt(&distances[best]) {
                best = i;
            }
            i = i + 1;
        }
        best
    }

    /// The number of records in each of the `k` clusters (assignments
    /// outside the clusters are not counted).
    pub fn cluster_sizes(&self, assignments: &Vec<usize>, k: usize) -> (r: Vec<usize>)
        ensures
            r@.len() == k,
            forall|c: int|
                0 <= c < r@.len() ==> #[trigger] r@[c] == assigned_count(
                    assignments@,
                    c as usize,
                    assignments@.len() as int,
                ),
    {
        let n = assignments.len();
        let mut counts: Vec<usize> = Vec::new();
        let mut c: usize = 0;
        while c < k
            invariant
                c <= k,
                counts@.len() == c,
                forall|j: int| 0 <= j < c ==> #[trigger] counts@[j] == 0,
            decreases k - c,
        {
            counts.push(0);
            c = c + 1;
        }
        let mut i: usize = 0;
        while i < n
            invariant
                n == assignments@.len(),
                i <= n,
                counts@.len() == k,
                forall|j: int|
                    0 <= j < k ==> #[trigger] counts@[j] == assigned_count(
                        assignments@,
                        j as usize,
                        i as int,
                    ),
            decreases n - i,
        {
            let a = assignments[i];
            if a < k {
                proof {
                    lemma_assigned_count_bound(assignments@, a, i as int);
                }
                let v = counts[a] + 1;
                counts.set(a, v);
            }
            i = i + 1;
        }
        counts
    }

    /// One assignment step: every record moves to its nearest centroid, from
    /// its distance to each centroid; the result tells whether any record
    /// moved.
    pub fn assign(&self, assignments: &mut Vec<usize>, distances: &Vec<Vec<FloatBits>>) -> (changed: bool)
        requires
            old(assignments)@.len() == distances@.len(),
        ensures
            final(assignments)@.len() == distances@.len(),
            forall|i: int|
                0 <= i < distances@.len() ==> final(assignments)@[i] as int == nearest_or_first(
                    #[trigger] distances@[i]@,
                ),
            changed <==> exists|i: int|
                0 <= i < distances@.len() && #[trigger] old(assignments)@[i] != final(assignments)@[i],
    {
        let n = distances.len();
        let mut changed = false;
        let mut i: usize = 0;
        while i < n
            invariant
                n == distances@.len(),
                assignments@.len() == n,
                i <= n,
                forall|j: int| 0 <= j < i ==> assignments@[j] as int == nearest_or_first(#[trigger] distances@[j]@),
                forall|j: int| i <= j < n ==> #[trigger] assignments@[j] == old(assignments)@[j],
                changed <==> exists|j: int| 0 <= j < i && #[trigger] old(assignments)@[j] != assignments@[j],
            decreases n - i,
        {
            let nearest = self.nearest_centroid(&distances[i]);
            if assignments[i] != nearest {
                assignments.set(i, nearest);
                changed = true;
            }
            proof {
                assert(old(assignments)@[i as int] != assignments@[i as int] ==> exists|j: int|
                    0 <= j < i + 1 && #[trigger] old(assignments)@[j] != assignments@[j]);
            }
            i = i + 1;
        }
        changed
    }

    /// The records that seed the `k` centroids.
    pub fn initial_indices(&self, n: usize, k: usize, seed: Option<u64>) -> (r: Vec<usize>)
        requires
            0 < n,
            seed is None ==> (k - 1) * n <= usize::MAX,
        ensures
            r@.len() == k,
            forall|i: int| 0 <= i < k ==> #[trigger] r@[i] == initial_index(seed, i, n as int, k as int),
            forall|i: int| 0 <= i < k ==> #[trigger] r@[i] < n,
    {
        let mut r: Vec<usize> = Vec::new();
        let mut i: usize = 0;
        while i < k
            invariant
                0 < n,
                seed is None ==> (k - 1) * n <= usize::MAX,
                i <= k,
                r@.len() == i,
                forall|j: int| 0 <= j < i ==> #[trigger] r@[j] == initial_index(seed, j, n as int, k as int),
                forall|j: int| 0 <= j < i ==> #[trigger] r@[j] < n,
            decreases k - i,
        {
            let idx = match seed {
                Some(s) => {
                    let mixed = s.wrapping_mul(SEED_MULTIPLIER).wrapping_add(i as u64);
                    let m = mixed % (n as u64);
                    assert(m < n);
                    m as usize
                },
                None => {
                    assert(i * n <= (k - 1) * n) by (nonlinear_arith)
                        requires
                            i <= k - 1,
                    ;
                    assert((i * n) / (k as int) < n as int) by {
                        assert(i * n < k * n) by (nonlinear_arith)
                            requires
                                i < k,
                                0 < n,
                        ;
                        vstd::arithmetic::div_mod::lemma_multiply_divide_lt(
                            i * n,
                            k as int,
                            n as int,
                        );
                    }
                    i * n / k
                },
            };
            r.push(idx);
            i = i + 1;
        }
        r
    }
}

/// The segmentation pack.
pub struct SegmentationPack;

impl SegmentationPack {
    /// `"segmentation"`.
    pub fn name(&self) -> (r: &'static str)
        ensures
            r@ == "segmentation"@,
    {
        "segmentation"
    }

    /// `"1.0.0"`.
    pub fn version(&self) -> (r: &'static str)
        ensures
            r@ == "1.0.0"@,
    {
        "1.0.0"
    }

    /// The invariants: every cluster non-empty (critical); no cluster below
    /// 10% of its expected size (advisory).
    pub fn invariants(&self) -> (r: Vec<InvariantSpec>)
        ensures
            r@.len() == 2,
            r@[0].name@ == "non-empty-clusters"@,
            r@[0].severity == Severity::Critical,
            r@[1].name@ == "balanced-clusters"@,
            r@[1].severity == Severity::Advisory,
    {
        let mut r = Vec::new();
        r.push(
            invariant_spec(
                "non-empty-clusters",
                "Every cluster must have at least one member",
                Severity::Critical,
            ),
        );
        r.push(
            invariant_spec(
                "balanced-clusters",
                "Cluster size below 10% of expected proportion",
                Severity::Advisory,
            ),
        );
        r
    }

    /// The number of records assigned to each of the `centroids.len()`
    /// clusters (assignments outside the clusters are not counted).
    pub fn cluster_counts(&self, output: &SegmentationOutput) -> (r: Vec<usize>)
        ensures
            r@.len() == output.centroids@.len(),
            forall|c: int|
                0 <= c < r@.len() ==> #[trigger] r@[c] == assigned_count(
                    output.assignments@,
                    c as usize,
                    output.assignments@.len() as int,
                ),
    {
        KMeansSolver.cluster_sizes(&output.assignments, output.centroids.len())
    }

    /// The clusters with no member, in increasing order; the critical
    /// `non-empty-clusters` invariant passes exactly when there is none.
    pub fn empty_clusters(&self, counts: &Vec<usize>) -> (r: Vec<usize>)
        ensures
            r@ == empty_positions(counts@, counts@.len() as int),
            r@.len() == 0 <==> forall|c: int| 0 <= c < counts@.len() ==> #[trigger] counts@[c] != 0,
    {
        let k = counts.len();
        let mut r: Vec<usize> = Vec::new();
        let mut c: usize = 0;
        while c < k
            invariant
                k == counts@.len(),
                c <= k,
                r@ == empty_positions(counts@, c as int),
            decreases k - c,
        {
            if counts[c] == 0 {
                r.push(c);
            }
            c = c + 1;
        }
        proof {
            lemma_empty_positions(counts@, k as int);
        }
        r
    }
}

} // verus!
