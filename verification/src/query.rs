//! Query evaluation settings and the raw-score ordering convention.

use vstd::prelude::*;

verus! {

/// Ordering convention for raw model scores.
#[derive(Debug, Clone, Copy, PartialEq, Eq)]
pub enum RawScoreOrder {
    /// Larger raw scores mean stronger membership.
    HigherIsBetter,
    /// Smaller raw scores mean stronger membership.
    LowerIsBetter,
}

/// Evaluation knobs.
#[derive(Debug, Clone)]
pub struct QueryConfig {
    /// Beam width for the existential over each intermediate variable in a
    /// chain: only the top-`beam_k` intermediates are expanded. Default: 128.
    pub beam_k: usize,
}

impl Default for QueryConfig {
    fn default() -> (r: Self)
        ensures
            r.beam_k == 128,
    {
        QueryConfig { beam_k: 128 }
    }
}

impl QueryConfig {
    /// Expand every positive intermediate in chain projections: beam
    /// truncation is disabled by setting `beam_k` to `usize::MAX`.
    pub fn exact() -> (r: Self)
        ensures
            r.beam_k == usize::MAX,
    {
        QueryConfig { beam_k: usize::MAX }
    }
}

} // verus!
