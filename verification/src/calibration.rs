//! Calibration wrappers for raw one-hop model scores.

use vstd::prelude::*;

verus! {

/// Wraps a one-hop scorer together with the calibrator that maps its raw
/// scores to membership degrees when raw scores are available.
#[derive(Debug, Clone)]
pub struct CalibratedScorer<S, C> {
    scorer: S,
    calibrator: C,
}

impl<S, C> CalibratedScorer<S, C> {
    /// The wrapped scorer.
    pub closed spec fn scorer_spec(&self) -> S {
        self.scorer
    }

    /// The calibrator.
    pub closed spec fn calibrator_spec(&self) -> C {
        self.calibrator
    }

    /// Create a calibrated scorer wrapper.
    pub fn new(scorer: S, calibrator: C) -> (r: Self)
        ensures
            r.scorer_spec() == scorer,
            r.calibrator_spec() == calibrator,
    {
        CalibratedScorer { scorer, calibrator }
    }

    /// The wrapped scorer.
    pub fn scorer(&self) -> (r: &S)
        ensures
            *r == self.scorer_spec(),
    {
        &self.scorer
    }

    /// The wrapped scorer, mutably. Writes through the returned reference
    /// land in the wrapper's scorer; the calibrator is untouched.
    pub fn scorer_mut(&mut self) -> (r: &mut S)
        ensures
            *r == old(self).scorer_spec(),
            final(self).scorer_spec() == *final(r),
            final(self).calibrator_spec() == old(self).calibrator_spec(),
    {
        &mut self.scorer
    }

    /// The calibrator.
    pub fn calibrator(&self) -> (r: &C)
        ensures
            *r == self.calibrator_spec(),
    {
        &self.calibrator
    }
}

} // verus!
