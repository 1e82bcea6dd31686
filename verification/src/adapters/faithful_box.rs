//! Faithful EL++ box scorer: construction checks.

use vstd::prelude::*;

verus! {

/// Construction problems the faithful box scorer rejects.
#[derive(Debug, Clone, PartialEq, Eq)]
pub enum FaithfulBoxError {
    /// `centers` and `offsets` differ in length, or an entity's center and
    /// offset differ in dimension.
    DimensionMismatch,
    /// `temperature` is not finite and positive.
    InvalidTemperature,
}

/// Check concept box shapes: there must be one offset per center
/// (`center_dims`, `offset_dims` hold their dimensions), and each concept's
/// center and offset must share a dimension.
pub fn check_faithful_shapes(center_dims: &Vec<usize>, offset_dims: &Vec<usize>) -> (r: Result<(), FaithfulBoxError>)
    ensures
        r is Ok <==> center_dims.len() == offset_dims.len()
            && forall|i: int| 0 <= i < center_dims.len() ==> center_dims@[i] == offset_dims@[i],
        r is Err ==> r == Err::<(), FaithfulBoxError>(FaithfulBoxError::DimensionMismatch),
{
    if center_dims.len() != offset_dims.len() {
        return Err(FaithfulBoxError::DimensionMismatch);
    }
    let mut i: usize = 0;
    while i < center_dims.len()
        invariant
            i <= center_dims.len(),
            center_dims.len() == offset_dims.len(),
            forall|k: int| 0 <= k < i ==> center_dims@[k] == offset_dims@[k],
        decreases center_dims.len() - i,
    {
        if center_dims[i] != offset_dims[i] {
            return Err(FaithfulBoxError::DimensionMismatch);
        }
        i = i + 1;
    }
    Ok(())
}

} // verus!
