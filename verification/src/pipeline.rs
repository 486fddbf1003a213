//! Decisions of the model-training pipeline: how a dataset is split into
//! training, validation and inference rows, whether a model is healthy, and
//! whether it is deployed.
use crate::error::InputError;
use crate::float_bits::FloatBits;
use vstd::prelude::*;

verus! {

/// The fewest rows a dataset can be split from.
pub const MIN_SPLIT_ROWS: usize = 10;

/// `a - b`, or `0` when `b` is larger.
pub open spec fn saturating_sub_spec(a: int, b: int) -> int {
    if a >= b {
        a - b
    } else {
        0
    }
}

/// The number of rows a split uses: the plan's limit, at most the rows there
/// are, and at least ten; a dataset of fewer than ten rows is refused.
pub fn split_max_rows(total_rows: usize, plan_max_rows: usize) -> (r: Result<usize, InputError>)
    ensures
        (r is Err) <==> total_rows < 10,
        r is Err ==> r == Err::<usize, InputError>(InputError::DatasetTooSmall),
        r matches Ok(m) ==> m == if plan_max_rows < total_rows {
            if plan_max_rows < 10 {
                10
            } else {
                plan_max_rows as int
            }
        } else {
            total_rows as int
        },
{
    if total_rows < MIN_SPLIT_ROWS {
        return Err(InputError::DatasetTooSmall);
    }
    let capped = if plan_max_rows < total_rows { plan_max_rows } else { total_rows };
    Ok(if capped < MIN_SPLIT_ROWS { MIN_SPLIT_ROWS } else { capped })
}

/// The training, validation and inference row counts of a split of
/// `max_rows` rows, from the floored shares `train_floor` and `val_floor`:
/// the inference rows are what is left; when nothing is left, one row is
/// taken from the validation share if it has more than one, else from the
/// training share if it has more than one, and the inference rows are what is
/// then left, at least one.
pub fn split_rows(max_rows: usize, train_floor: usize, val_floor: usize) -> (r: (usize, usize, usize))
    requires
        train_floor + val_floor <= usize::MAX,
    ensures
        saturating_sub_spec(max_rows as int, train_floor + val_floor) > 0 ==> r == (
            train_floor,
            val_floor,
            saturating_sub_spec(max_rows as int, train_floor + val_floor) as usize,
        ),
        saturating_sub_spec(max_rows as int, train_floor + val_floor) == 0 ==> {
            &&& r.0 == if val_floor <= 1 && train_floor > 1 {
                train_floor - 1
            } else {
                train_floor as int
            }
            &&& r.1 == if val_floor > 1 {
                val_floor - 1
            } else {
                val_floor as int
            }
            &&& r.2 == if saturating_sub_spec(max_rows as int, r.0 + r.1) < 1 {
                1
            } else {
                saturating_sub_spec(max_rows as int, r.0 + r.1)
            }
        },
{
    let mut train = train_floor;
    let mut val = val_floor;
    let mut infer = max_rows.saturating_sub(train + val);
    if infer == 0 {
        if val > 1 {
            val = val - 1;
        } else if train > 1 {
            train = train - 1;
        }
        let left = max_rows.saturating_sub(train + val);
        infer = if left < 1 { 1 } else { left };
    }
    (train, val, infer)
}

/// `0.75` as a binary64 pattern.
pub open spec fn healthy_ratio_bits() -> FloatBits {
    FloatBits { bits: 0x3fe8_0000_0000_0000u64 }
}

/// Whether a model's success ratio marks it healthy: at least `0.75`.
pub fn monitoring_healthy(success_ratio: FloatBits) -> (r: bool)
    ensures
        r <==> healthy_ratio_bits().spec_le(success_ratio),
{
    let threshold = FloatBits::from_bits(0x3fe8_0000_0000_0000u64);
    threshold.le(&success_ratio)
}

/// Whether a model is deployed: its success ratio reaches the quality
/// threshold; otherwise it is held and retrained.
pub fn deployment_action(success_ratio: FloatBits, quality_threshold: FloatBits) -> (deploy: bool)
    ensures
        deploy <==> quality_threshold.spec_le(success_ratio),
{
    quality_threshold.le(&success_ratio)
}

} // verus!
