//! Query2Box-style box scorer: construction checks.

use vstd::prelude::*;

verus! {

/// Construction problems the box scorer rejects.
#[derive(Debug, Clone, PartialEq, Eq)]
pub enum BoxModelError {
    /// An entity point or relation vector has the wrong dimension.
    DimensionMismatch,
    /// `alpha` is non-finite, or `temperature` is not finite and positive.
    InvalidParameter,
}

/// The shared dimension: that of the first entity point, or `0` with no
/// entities.
pub open spec fn box_dim(entity_dims: Seq<usize>) -> usize {
    if entity_dims.len() > 0 { entity_dims[0] } else { 0 }
}

/// Every entity point and every relation's translation and offset have the
/// shared dimension `box_dim(entity_dims)`.
pub open spec fn box_shapes_agree(entity_dims: Seq<usize>, relation_dims: Seq<(usize, usize)>) -> bool {
    &&& forall|e: int| 0 <= e < entity_dims.len() ==> entity_dims[e] == box_dim(entity_dims)
    &&& forall|k: int| 0 <= k < relation_dims.len() ==>
        relation_dims[k].0 == box_dim(entity_dims) && relation_dims[k].1 == box_dim(entity_dims)
}

/// Check trained box-model shapes: every entity point (`entity_dims[e]`) and
/// every relation's translation and offset (`relation_dims[r]`) must share
/// the first entity point's dimension.
pub fn check_box_shapes(entity_dims: &Vec<usize>, relation_dims: &Vec<(usize, usize)>) -> (r: Result<(), BoxModelError>)
    ensures
        r is Ok <==> box_shapes_agree(entity_dims@, relation_dims@),
        r is Err ==> r == Err::<(), BoxModelError>(BoxModelError::DimensionMismatch),
{
    let dim: usize = if entity_dims.len() > 0 { entity_dims[0] } else { 0 };
    let mut e: usize = 0;
    while e < entity_dims.len()
        invariant
            e <= entity_dims.len(),
            dim == box_dim(entity_dims@),
            forall|i: int| 0 <= i < e ==> entity_dims@[i] == dim,
        decreases entity_dims.len() - e,
    {
        if entity_dims[e] != dim {
            return Err(BoxModelError::DimensionMismatch);
        }
        e = e + 1;
    }
    let mut k: usize = 0;
    while k < relation_dims.len()
        invariant
            k <= relation_dims.len(),
            dim == box_dim(entity_dims@),
            forall|i: int| 0 <= i < k ==> relation_dims@[i].0 == dim && relation_dims@[i].1 == dim,
        decreases relation_dims.len() - k,
    {
        let (t, o) = relation_dims[k];
        if t != dim || o != dim {
            return Err(BoxModelError::DimensionMismatch);
        }
        k = k + 1;
    }
    Ok(())
}

/// Shapes that all share one dimension `d` are accepted, whatever `d` is,
/// as long as there is an entity to take it from.
pub proof fn law_uniform_shapes_are_accepted(entity_dims: Seq<usize>, relation_dims: Seq<(usize, usize)>, d: usize)
    requires
        entity_dims.len() > 0,
        forall|e: int| 0 <= e < entity_dims.len() ==> entity_dims[e] == d,
        forall|k: int| 0 <= k < relation_dims.len() ==> relation_dims[k] == (d, d),
    ensures
        box_shapes_agree(entity_dims, relation_dims),
{
    assert(entity_dims[0] == d);
}

/// Accepted shapes share one dimension: any two entity points agree, and
/// every relation's translation and offset match every entity point.
pub proof fn law_accepted_shapes_share_one_dimension(entity_dims: Seq<usize>, relation_dims: Seq<(usize, usize)>)
    requires
        box_shapes_agree(entity_dims, relation_dims),
    ensures
        forall|i: int, j: int| 0 <= i < entity_dims.len() && 0 <= j < entity_dims.len() ==> entity_dims[i] == entity_dims[j],
        forall|k: int, e: int| 0 <= k < relation_dims.len() && 0 <= e < entity_dims.len() ==>
            relation_dims[k].0 == entity_dims[e] && relation_dims[k].1 == entity_dims[e],
{
}

} // verus!
