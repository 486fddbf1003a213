//! Feature matrices handed from feature extraction to inference.
use crate::error::InputError;
use vstd::prelude::*;

verus! {

/// `rows.saturating_mul(cols)`.
pub open spec fn saturating_product(rows: usize, cols: usize) -> usize {
    if rows * cols > usize::MAX {
        usize::MAX
    } else {
        (rows * cols) as usize
    }
}

/// A row-major feature matrix. Each entry is a binary32 number carried by
/// its bit pattern (`f32::to_bits`); `shape` is `[rows, cols]`.
#[derive(Debug, Clone, PartialEq)]
pub struct FeatureVector {
    pub data: Vec<u32>,
    pub shape: [usize; 2],
}

impl FeatureVector {
    /// A matrix of the given shape, refused unless the data holds exactly
    /// `rows × cols` entries (the product saturating at `usize::MAX`).
    pub fn new(data: Vec<u32>, shape: [usize; 2]) -> (r: Result<FeatureVector, InputError>)
        ensures
            r is Ok <==> data.len() == saturating_product(shape[0], shape[1]),
            r matches Ok(v) ==> v.data@ == data@ && v.shape == shape,
            r matches Err(e) ==> e == (InputError::ShapeMismatch {
                len: data.len(),
                rows: shape[0],
                cols: shape[1],
            }),
    {
        let rows = shape[0];
        let cols = shape[1];
        let expected = match rows.checked_mul(cols) {
            Some(p) => p,
            None => usize::MAX,
        };
        if data.len() != expected {
            return Err(InputError::ShapeMismatch { len: data.len(), rows, cols });
        }
        Ok(FeatureVector { data, shape })
    }

    /// A single row holding `data`: shape `[1, data.len()]`.
    pub fn row(data: Vec<u32>) -> (r: FeatureVector)
        ensures
            r.data@ == data@,
            r.shape[0] == 1,
            r.shape[1] == data.len(),
    {
        let cols = data.len();
        FeatureVector { data, shape: [1, cols] }
    }

    /// The number of rows.
    pub fn rows(&self) -> (r: usize)
        ensures
            r == self.shape[0],
    {
        self.shape[0]
    }

    /// The number of columns.
    pub fn cols(&self) -> (r: usize)
        ensures
            r == self.shape[1],
    {
        self.shape[1]
    }
}

/// The two columns whose first-row values make the features.
#[derive(Debug, Clone)]
pub struct FeatureColumns {
    pub left: String,
    pub right: String,
}

} // verus!
