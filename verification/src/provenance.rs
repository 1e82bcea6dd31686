//! Why-provenance witnesses: the refusal reason.

use vstd::prelude::*;

verus! {

/// Why a witness can be refused.
#[derive(Debug, Clone, PartialEq, Eq)]
pub enum WitnessError {
    /// The entity's degree is zero: nothing derives it, so no witness exists.
    ZeroDegree,
}

} // verus!
