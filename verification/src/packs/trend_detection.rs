//! Moving-average trend detection: input checks, the split of a series into
//! runs of one direction, and the invariants on those runs.
use crate::error::InputError;
use crate::float_bits::FloatBits;
use crate::fuzzy::types::zero_bits;
use crate::packs::common::{invariant_spec, InvariantSpec, Severity};
use vstd::prelude::*;

verus! {

/// A series with the moving-window width and the slope sensitivity.
#[derive(Debug, Clone)]
pub struct TrendDetectionInput {
    pub values: Vec<FloatBits>,
    pub window: usize,
    pub sensitivity: FloatBits,
}

/// The window width when none is given: 5.
pub fn default_window() -> (r: usize)
    ensures
        r == 5,
{
    5
}

/// The sensitivity when none is given: `1.5`.
pub fn default_sensitivity() -> (r: FloatBits)
    ensures
        r.bits == 0x3ff8_0000_0000_0000u64,
{
    FloatBits::from_bits(0x3ff8_0000_0000_0000u64)
}

/// The refusal, if any, of a trend-detection input.
pub open spec fn trend_check(len: nat, window: usize, sensitivity: FloatBits) -> Result<(), InputError> {
    if len < 3 {
        Err(InputError::TooFewTrendValues)
    } else if window < 2 {
        Err(InputError::WindowTooSmall)
    } else if window > len {
        Err(InputError::WindowExceedsValues)
    } else if sensitivity.spec_le(zero_bits()) {
        Err(InputError::NonPositiveSensitivity)
    } else {
        Ok(())
    }
}

impl TrendDetectionInput {
    /// Checks: at least 3 values, `2 <= window <= values`, and
    /// `sensitivity <= 0.0` refused (a NaN sensitivity is not refused).
    pub fn validate(&self) -> (r: Result<(), InputError>)
        ensures
            r == trend_check(self.values@.len(), self.window, self.sensitivity),
    {
        if self.values.len() < 3 {
            return Err(InputError::TooFewTrendValues);
        }
        if self.window < 2 {
            return Err(InputError::WindowTooSmall);
        }
        if self.window > self.values.len() {
            return Err(InputError::WindowExceedsValues);
        }
        let zero = FloatBits::zero();
        if self.sensitivity.le(&zero) {
            return Err(InputError::NonPositiveSensitivity);
        }
        Ok(())
    }
}

/// The direction of a trend.
#[derive(Debug, Clone, Copy, PartialEq, Eq, Structural)]
pub enum TrendDirection {
    Rising,
    Falling,
    Stable,
}

/// A stretch of the series with one direction.
#[derive(Debug, Clone, Copy)]
pub struct TrendSegment {
    pub start: usize,
    pub end: usize,
    pub direction: TrendDirection,
    pub slope: FloatBits,
}

/// A point where the direction changes.
#[derive(Debug, Clone, Copy)]
pub struct Changepoint {
    pub index: usize,
    pub magnitude: FloatBits,
}

/// The result of trend detection.
#[derive(Debug, Clone)]
pub struct TrendDetectionOutput {
    pub segments: Vec<TrendSegment>,
    pub changepoints: Vec<Changepoint>,
    pub overall_direction: TrendDirection,
    pub overall_slope: FloatBits,
}

/// One run of equal window directions, with the series stretch it covers.
///
/// The run holds the window slopes at positions `first_slope..end_slope`;
/// the segment's slope is their mean.
#[derive(Debug, Clone, Copy, PartialEq, Eq, Structural)]
pub struct SegmentRun {
    pub start: usize,
    pub end: usize,
    pub direction: TrendDirection,
    pub first_slope: usize,
    pub end_slope: usize,
}

/// The split of a series into runs, and the changepoint positions.
#[derive(Debug, Clone)]
pub struct TrendPlan {
    pub segments: Vec<SegmentRun>,
    pub changepoints: Vec<usize>,
}

/// The window positions, below `upto`, whose direction differs from the
/// previous window's.
pub open spec fn changes_upto(d: Seq<TrendDirection>, upto: int) -> Seq<int>
    decreases upto,
{
    if upto <= 1 {
        Seq::empty()
    } else if d[upto - 1] != d[upto - 2] {
        changes_upto(d, upto - 1).push(upto - 1)
    } else {
        changes_upto(d, upto - 1)
    }
}

/// Where each run starts: window 0, then every change of direction.
pub open spec fn run_starts(d: Seq<TrendDirection>, upto: int) -> Seq<int> {
    seq![0int] + changes_upto(d, upto)
}

/// Where run `j` of `b` ends (exclusive): the next run's start, or `m`.
pub open spec fn run_end(b: Seq<int>, j: int, m: int) -> int {
    if j + 1 < b.len() {
        b[j + 1]
    } else {
        m
    }
}

/// The series stretch of run `j`: from 0 (first run) or the run start shifted
/// by half a window, to the next run start shifted likewise, or to the last
/// value (last run).
pub open spec fn run_segment(b: Seq<int>, j: int, d: Seq<TrendDirection>, n: int, w: int) -> SegmentRun {
    SegmentRun {
        start: if j == 0 {
            0
        } else {
            (b[j] + w / 2) as usize
        },
        end: if j + 1 < b.len() {
            (b[j + 1] + w / 2) as usize
        } else {
            (n - 1) as usize
        },
        direction: d[b[j]],
        first_slope: b[j] as usize,
        end_slope: run_end(b, j, d.len() as int) as usize,
    }
}

/// The changes below `upto` are increasing window positions in `1..upto`,
/// each a change of direction, and every change below `upto` is among them.
pub proof fn lemma_changes(d: Seq<TrendDirection>, upto: int)
    requires
        0 <= upto <= d.len(),
    ensures
        forall|j: int|
            0 <= j < changes_upto(d, upto).len() ==> 1 <= #[trigger] changes_upto(d, upto)[j] < upto
                && d[changes_upto(d, upto)[j]] != d[changes_upto(d, upto)[j] - 1],
        forall|a: int, b: int|
            0 <= a < b < changes_upto(d, upto).len() ==> #[trigger] changes_upto(d, upto)[a]
                < #[trigger] changes_upto(d, upto)[b],
    decreases upto,
{
    if upto > 1 {
        lemma_changes(d, upto - 1);
        let prev = changes_upto(d, upto - 1);
        let cur = changes_upto(d, upto);
        if d[upto - 1] != d[upto - 2] {
            assert(cur == prev.push(upto - 1));
            assert forall|j: int| 0 <= j < cur.len() implies 1 <= #[trigger] cur[j] < upto && d[cur[j]]
                != d[cur[j] - 1] by {
                if j < prev.len() {
                    assert(cur[j] == prev[j]);
                }
            }
            assert forall|a: int, b: int| 0 <= a < b < cur.len() implies #[trigger] cur[a]
                < #[trigger] cur[b] by {
                assert(cur[a] == prev[a]);
                if b < prev.len() {
                    assert(cur[b] == prev[b]);
                }
            }
        } else {
            assert(cur == prev);
        }
    }
}

/// Between two consecutive run starts the direction does not change.
pub proof fn lemma_runs_uniform(d: Seq<TrendDirection>, upto: int, j: int, p: int)
    requires
        0 <= upto <= d.len(),
        upto >= 1,
        0 <= j < run_starts(d, upto).len(),
        run_starts(d, upto)[j] <= p < run_end(run_starts(d, upto), j, upto),
    ensures
        d[p] == d[run_starts(d, upto)[j]],
    decreases p,
{
    let b = run_starts(d, upto);
    if p > b[j] {
        // p - 1 lies in the same run, and p is no change
        lemma_changes(d, upto);
        if d[p] != d[p - 1] {
            // p would be a change, hence a run start after b[j] and at most p
            lemma_change_is_start(d, upto, p);
            let k = choose|k: int| 0 <= k < changes_upto(d, upto).len() && #[trigger] changes_upto(d, upto)[k] == p;
            assert(b[k + 1] == p);
            if k + 1 <= j {
                lemma_starts_increasing(d, upto, k + 1, j);
            } else {
                if k + 1 > j + 1 {
                    lemma_starts_increasing(d, upto, j + 1, k + 1);
                }
            }
        }
        lemma_runs_uniform(d, upto, j, p - 1);
    }
}

/// Run starts increase.
pub proof fn lemma_starts_increasing(d: Seq<TrendDirection>, upto: int, a: int, b: int)
    requires
        0 <= upto <= d.len(),
        0 <= a <= b < run_starts(d, upto).len(),
    ensures
        run_starts(d, upto)[a] <= run_starts(d, upto)[b],
        a < b ==> run_starts(d, upto)[a] < run_starts(d, upto)[b],
{
    lemma_changes(d, upto);
    let c = changes_upto(d, upto);
    if 0 < a && a < b {
        assert(c[a - 1] < c[b - 1]);
    }
    if a == 0 && b > 0 {
        assert(1 <= c[b - 1]);
    }
}

/// Every change of direction below `upto` is a change position.
pub proof fn lemma_change_is_start(d: Seq<TrendDirection>, upto: int, p: int)
    requires
        0 <= upto <= d.len(),
        1 <= p < upto,
        d[p] != d[p - 1],
    ensures
        exists|k: int| 0 <= k < changes_upto(d, upto).len() && #[trigger] changes_upto(d, upto)[k] == p,
    decreases upto,
{
    if p == upto - 1 {
        let c = changes_upto(d, upto);
        assert(c[c.len() - 1] == p);
    } else {
        lemma_change_is_start(d, upto - 1, p);
        let k = choose|k: int| 0 <= k < changes_upto(d, upto - 1).len() && #[trigger] changes_upto(d, upto - 1)[k] == p;
        assert(changes_upto(d, upto)[k] == p);
    }
}

/// Run starts are window positions, the first one 0.
pub proof fn lemma_run_start_bounds(d: Seq<TrendDirection>)
    ensures
        run_starts(d, d.len() as int)[0] == 0,
        forall|j: int|
            0 <= j < run_starts(d, d.len() as int).len() ==> 0 <= #[trigger] run_starts(
                d,
                d.len() as int,
            )[j] < d.len() || (j == 0 && d.len() == 0),
{
    let m = d.len() as int;
    let b = run_starts(d, m);
    lemma_changes(d, m);
    let c = changes_upto(d, m);
    assert forall|j: int| 0 <= j < b.len() implies 0 <= #[trigger] b[j] < m || (j == 0 && m == 0) by {
        if j > 0 {
            assert(b[j] == c[j - 1]);
        }
    }
}

/// Consecutive segments of [`MovingAverageTrendSolver::segment_runs`] meet:
/// each ends where the next begins, their slope runs are adjacent, and their
/// directions differ; no segment ends before it starts.
pub proof fn lemma_runs_contiguous(d: Seq<TrendDirection>, n: int, w: int, j: int)
    requires
        0 <= w < n,
        d.len() == n - w,
        n <= usize::MAX,
        0 <= j < run_starts(d, d.len() as int).len(),
    ensures
        run_segment(run_starts(d, d.len() as int), j, d, n, w).start <= run_segment(
            run_starts(d, d.len() as int),
            j,
            d,
            n,
            w,
        ).end,
        j + 1 < run_starts(d, d.len() as int).len() ==> {
            let b = run_starts(d, d.len() as int);
            &&& run_segment(b, j, d, n, w).end == run_segment(b, j + 1, d, n, w).start
            &&& run_segment(b, j, d, n, w).end_slope == run_segment(b, j + 1, d, n, w).first_slope
            &&& run_segment(b, j, d, n, w).direction != run_segment(b, j + 1, d, n, w).direction
        },
{
    let m = d.len() as int;
    let b = run_starts(d, m);
    lemma_run_start_bounds(d);
    lemma_changes(d, m);
    assert(0 <= b[j] < m);
    if j + 1 < b.len() {
        assert(0 <= b[j + 1] < m);
        assert(b[j + 1] == changes_upto(d, m)[j]);
        lemma_starts_increasing(d, m, j, j + 1);
        lemma_runs_uniform(d, m, j, b[j + 1] - 1);
    }
}

/// The first segment starts at 0 and covers the first window slope; the last
/// segment ends at the last value and covers the last window slope.
pub proof fn lemma_runs_ends(d: Seq<TrendDirection>, n: int, w: int)
    requires
        0 <= w < n,
        d.len() == n - w,
        n <= usize::MAX,
    ensures
        run_segment(run_starts(d, d.len() as int), 0, d, n, w).start == 0,
        run_segment(run_starts(d, d.len() as int), 0, d, n, w).first_slope == 0,
        run_segment(
            run_starts(d, d.len() as int),
            run_starts(d, d.len() as int).len() - 1,
            d,
            n,
            w,
        ).end == n - 1,
        run_segment(
            run_starts(d, d.len() as int),
            run_starts(d, d.len() as int).len() - 1,
            d,
            n,
            w,
        ).end_slope == d.len(),
{
    lemma_run_start_bounds(d);
}

/// Every window slope in a run has the run's direction.
pub proof fn lemma_run_direction(d: Seq<TrendDirection>, n: int, w: int, j: int, p: int)
    requires
        0 <= w < n,
        d.len() == n - w,
        n <= usize::MAX,
        0 <= j < run_starts(d, d.len() as int).len(),
        run_starts(d, d.len() as int)[j] <= p < run_end(run_starts(d, d.len() as int), j, d.len() as int),
    ensures
        d[p] == run_segment(run_starts(d, d.len() as int), j, d, n, w).direction,
{
    lemma_runs_uniform(d, d.len() as int, j, p);
}

/// The moving-average trend solver.
pub struct MovingAverageTrendSolver;

/// The direction of a window slope against the threshold: rising above it,
/// falling below its opposite, stable otherwise (a NaN slope is stable).
pub open spec fn slope_direction(slope: FloatBits, threshold: FloatBits) -> TrendDirection {
    if threshold.spec_lt(slope) {
        TrendDirection::Rising
    } else if slope.spec_lt(threshold.spec_neg()) {
        TrendDirection::Falling
    } else {
        TrendDirection::Stable
    }
}

/// A slope's direction follows the slope: a slope above the threshold is
/// rising, any slope at least a rising one is rising, any slope at most a
/// falling one is falling, and, for a threshold not below zero, negating a
/// slope turns rising into falling and back.
pub proof fn lemma_slope_direction_order(s: FloatBits, t: FloatBits, threshold: FloatBits)
    ensures
        threshold.spec_lt(s) ==> slope_direction(s, threshold) == TrendDirection::Rising,
        slope_direction(s, threshold) == TrendDirection::Rising ==> threshold.spec_lt(s),
        slope_direction(s, threshold) == TrendDirection::Rising && s.spec_le(t) ==> slope_direction(t, threshold)
            == TrendDirection::Rising,
        slope_direction(s, threshold) == TrendDirection::Falling && t.spec_le(s) ==> slope_direction(t, threshold)
            == TrendDirection::Falling,
        !s.spec_nan() && zero_bits().spec_le(threshold) ==> (slope_direction(s, threshold) == TrendDirection::Rising
            <==> slope_direction(s.spec_neg(), threshold) == TrendDirection::Falling),
{
    if !s.spec_nan() && !threshold.spec_nan() {
        assert(s.spec_neg().order_key() == -s.order_key());
        assert(threshold.spec_neg().order_key() == -threshold.order_key());
        assert(!s.spec_neg().spec_nan());
        assert(!threshold.spec_neg().spec_nan());
    }
}

impl MovingAverageTrendSolver {
    /// Splits a series of `n` values into runs of equal window direction.
    ///
    /// `directions[i]` is the direction of window `i` (`n - window` windows).
    /// With no window, the whole series is one segment in `overall`
    /// direction. Otherwise each maximal run of equal directions is one
    /// segment, and each change of direction at window `i` is a changepoint
    /// at `i + window / 2`, where one segment ends and the next begins.
    /// `slope > threshold` is rising, `slope < -threshold` falling, and
    /// anything else stable.
    pub fn classify_slope(&self, slope: FloatBits, threshold: FloatBits) -> (r: TrendDirection)
        ensures
            r == slope_direction(slope, threshold),
            threshold.spec_lt(slope) ==> r == TrendDirection::Rising,
            slope.spec_lt(threshold.spec_neg()) && !threshold.spec_lt(slope) ==> r == TrendDirection::Falling,
            !threshold.spec_lt(slope) && !slope.spec_lt(threshold.spec_neg()) ==> r == TrendDirection::Stable,
    {
        if slope.gt(&threshold) {
            TrendDirection::Rising
        } else if slope.lt(&threshold.neg()) {
            TrendDirection::Falling
        } else {
            TrendDirection::Stable
        }
    }

    #[verifier::loop_isolation(false)]
    pub fn segment_runs(
        &self,
        directions: &Vec<TrendDirection>,
        n: usize,
        window: usize,
        overall: TrendDirection,
    ) -> (r: TrendPlan)
        requires
            directions@.len() == if window <= n { n - window } else { 0 },
            directions@.len() == 0 ==> n >= 1,
        ensures
            directions@.len() == 0 ==> r.segments@ == seq![
                SegmentRun { start: 0, end: (n - 1) as usize, direction: overall, first_slope: 0, end_slope: 0 },
            ] && r.changepoints@.len() == 0,
            directions@.len() > 0 ==> {
                let b = run_starts(directions@, directions@.len() as int);
                &&& r.segments@.len() == b.len()
                &&& r.changepoints@.len() == b.len() - 1
                &&& forall|j: int|
                    0 <= j < b.len() ==> #[trigger] r.segments@[j] == run_segment(
                        b,
                        j,
                        directions@,
                        n as int,
                        window as int,
                    )
                &&& forall|j: int|
                    0 <= j < b.len() - 1 ==> #[trigger] r.changepoints@[j] == (b[j + 1] + window / 2) as usize
            },
    {
        let m = directions.len();
        let half = window / 2;
        let mut segments: Vec<SegmentRun> = Vec::new();
        let mut changepoints: Vec<usize> = Vec::new();
        if m == 0 {
            segments.push(
                SegmentRun { start: 0, end: n - 1, direction: overall, first_slope: 0, end_slope: 0 },
            );
            return TrendPlan { segments, changepoints };
        }
        let ghost d = directions@;
        let mut seg_start: usize = 0;
        let mut seg_direction = directions[0];
        let mut run_first: usize = 0;
        let mut i: usize = 1;
        assert(run_starts(d, 1) =~= seq![0int]);
        while i < m
            invariant
                m == d.len(),
                1 <= i <= m,
                m == n - window,
                half == window / 2,
                segments@.len() == run_starts(d, i as int).len() - 1,
                changepoints@.len() == run_starts(d, i as int).len() - 1,
                run_first as int == run_starts(d, i as int).last(),
                run_first < i,
                seg_direction == d[run_first as int],
                seg_start == run_segment(run_starts(d, i as int), run_starts(d, i as int).len() - 1, d, n as int, window as int).start,
                forall|j: int|
                    0 <= j < run_starts(d, i as int).len() - 1 ==> #[trigger] segments@[j] == run_segment(
                        run_starts(d, i as int),
                        j,
                        d,
                        n as int,
                        window as int,
                    ),
                forall|j: int|
                    0 <= j < run_starts(d, i as int).len() - 1 ==> #[trigger] changepoints@[j] == (
                    run_starts(d, i as int)[j + 1] + half) as usize,
            decreases m - i,
        {
            let ghost b = run_starts(d, i as int);
            let dir = directions[i];
            proof {
                lemma_runs_uniform(d, i as int, b.len() - 1, i - 1);
            }
            if dir != seg_direction {
                let ghost b2 = run_starts(d, i + 1);
                assert(b2 == b.push(i as int)) by {
                    assert(changes_upto(d, i + 1) == changes_upto(d, i as int).push(i as int));
                    assert(b2 =~= b.push(i as int));
                }
                segments.push(
                    SegmentRun {
                        start: seg_start,
                        end: i + half,
                        direction: seg_direction,
                        first_slope: run_first,
                        end_slope: i,
                    },
                );
                changepoints.push(i + half);
                assert forall|j: int| 0 <= j < b2.len() - 1 implies #[trigger] segments@[j] == run_segment(
                    b2,
                    j,
                    d,
                    n as int,
                    window as int,
                ) by {
                    if j < b.len() - 1 {
                        assert(b2[j] == b[j] && b2[j + 1] == b[j + 1]);
                    } else {
                        assert(j == b.len() - 1);
                        assert(b2[j + 1] == i as int);
                        assert(b2[j] == b[j]);
                    }
                }
                assert forall|j: int| 0 <= j < b2.len() - 1 implies #[trigger] changepoints@[j] == (
                b2[j + 1] + half) as usize by {
                    if j < b.len() - 1 {
                        assert(b2[j + 1] == b[j + 1]);
                    }
                }
                seg_start = i + half;
                seg_direction = dir;
                run_first = i;
            } else {
                assert(run_starts(d, i + 1) =~= run_starts(d, i as int)) by {
                    assert(changes_upto(d, i + 1) == changes_upto(d, i as int));
                }
            }
            i = i + 1;
        }
        let ghost b = run_starts(d, m as int);
        segments.push(
            SegmentRun {
                start: seg_start,
                end: n - 1,
                direction: seg_direction,
                first_slope: run_first,
                end_slope: m,
            },
        );
        assert forall|j: int| 0 <= j < b.len() implies #[trigger] segments@[j] == run_segment(
            b,
            j,
            d,
            n as int,
            window as int,
        ) by {
            if j == b.len() - 1 {
                assert(segments@[j].first_slope == run_first);
            }
        }
        TrendPlan { segments, changepoints }
    }
}

/// The trend-detection pack.
pub struct TrendDetectionPack;

/// Whether the segments start at 0 and reach past it.
pub open spec fn segments_cover_spec(segments: Seq<TrendSegment>) -> bool {
    segments.len() > 0 && segments[0].start == 0 && segments[segments.len() - 1].end > 0
}

/// The series length the segments imply: last end + 1, or 0.
pub open spec fn implied_length(segments: Seq<TrendSegment>) -> int {
    if segments.len() == 0 {
        0
    } else {
        segments[segments.len() - 1].end + 1
    }
}

/// Segments laid over the runs that [`MovingAverageTrendSolver::segment_runs`]
/// finds, with the same bounds and any slopes, pass the critical
/// `valid-segments` invariant.
pub proof fn lemma_runs_pass_valid_segments(
    d: Seq<TrendDirection>,
    n: int,
    w: int,
    segs: Seq<TrendSegment>,
)
    requires
        0 <= w,
        n >= 2,
        d.len() == if w <= n { n - w } else { 0 },
        n <= usize::MAX,
        d.len() == 0 ==> segs.len() == 1 && segs[0].start == 0 && segs[0].end == n - 1,
        d.len() >= 1 ==> segs.len() == run_starts(d, d.len() as int).len(),
        d.len() >= 1 ==> forall|j: int|
            0 <= j < segs.len() ==> (#[trigger] segs[j]).start == run_segment(
                run_starts(d, d.len() as int),
                j,
                d,
                n,
                w,
            ).start && segs[j].end == run_segment(run_starts(d, d.len() as int), j, d, n, w).end,
    ensures
        segments_cover_spec(segs),
{
    if d.len() >= 1 {
        lemma_runs_ends(d, n, w);
        let b = run_starts(d, d.len() as int);
        assert(segs[0].start == run_segment(b, 0, d, n, w).start);
        assert(segs[segs.len() - 1].end == run_segment(b, b.len() - 1, d, n, w).end);
    }
}

impl TrendDetectionPack {
    /// `"trend-detection"`.
    pub fn name(&self) -> (r: &'static str)
        ensures
            r@ == "trend-detection"@,
    {
        "trend-detection"
    }

    /// `"1.0.0"`.
    pub fn version(&self) -> (r: &'static str)
        ensures
            r@ == "1.0.0"@,
    {
        "1.0.0"
    }

    /// The invariants: segments cover the series (critical); changepoints
    /// not above half the series length (advisory).
    pub fn invariants(&self) -> (r: Vec<InvariantSpec>)
        ensures
            r@.len() == 2,
            r@[0].name@ == "valid-segments"@,
            r@[0].severity == Severity::Critical,
            r@[1].name@ == "excessive-changepoints"@,
            r@[1].severity == Severity::Advisory,
    {
        let mut r = Vec::new();
        r.push(
            invariant_spec(
                "valid-segments",
                "Segments must cover the full series without gaps",
                Severity::Critical,
            ),
        );
        r.push(
            invariant_spec(
                "excessive-changepoints",
                "More changepoints than 50% of data length — may be noise",
                Severity::Advisory,
            ),
        );
        r
    }

    /// `valid-segments`: there is a segment, the first starts at 0 and the
    /// last ends past 0.
    pub fn segments_cover(&self, output: &TrendDetectionOutput) -> (r: bool)
        ensures
            r == segments_cover_spec(output.segments@),
    {
        let k = output.segments.len();
        k > 0 && output.segments[0].start == 0 && output.segments[k - 1].end > 0
    }

    /// `excessive-changepoints` fires: more changepoints than half the
    /// implied series length, on a series longer than 4.
    pub fn excessive_changepoints(&self, output: &TrendDetectionOutput) -> (r: bool)
        requires
            output.segments@.len() > 0 ==> output.segments@[output.segments@.len() - 1].end
                < usize::MAX,
        ensures
            r == (output.changepoints@.len() > implied_length(output.segments@) / 2
                && implied_length(output.segments@) > 4),
    {
        let k = output.segments.len();
        let series_len = if k == 0 {
            0
        } else {
            output.segments[k - 1].end + 1
        };
        output.changepoints.len() > series_len / 2 && series_len > 4
    }
}

} // verus!
