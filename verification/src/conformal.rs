//! Split-conformal answer sets: the input checks of calibration.

use vstd::prelude::*;

verus! {

/// Input problems calibration rejects.
#[derive(Debug, Clone, PartialEq, Eq)]
pub enum ConformalError {
    /// `alpha` must be strictly inside `(0, 1)`.
    InvalidAlpha,
    /// The calibration set is empty.
    NoCalibrationExamples,
    /// A raw calibration score at `index` was NaN or infinite.
    NonFiniteScore {
        /// Position of the invalid score in the input slice.
        index: usize,
    },
    /// A calibration answer id is out of range for the scorer.
    AnswerOutOfRange,
}

/// Check the designated true answers of a calibration set against an entity
/// axis of `n_entities`: an empty set is rejected first, then any answer id
/// that is not an entity.
pub fn check_calibration_answers(answers: &Vec<usize>, n_entities: usize) -> (r: Result<(), ConformalError>)
    ensures
        answers.len() == 0 ==> r == Err::<(), ConformalError>(ConformalError::NoCalibrationExamples),
        answers.len() > 0 && (exists|i: int| 0 <= i < answers.len() && answers@[i] >= n_entities)
            ==> r == Err::<(), ConformalError>(ConformalError::AnswerOutOfRange),
        answers.len() > 0 && (forall|i: int| 0 <= i < answers.len() ==> answers@[i] < n_entities)
            ==> r == Ok::<(), ConformalError>(()),
{
    if answers.len() == 0 {
        return Err(ConformalError::NoCalibrationExamples);
    }
    let mut i: usize = 0;
    while i < answers.len()
        invariant
            i <= answers.len(),
            forall|k: int| 0 <= k < i ==> answers@[k] < n_entities,
        decreases answers.len() - i,
    {
        if answers[i] >= n_entities {
            return Err(ConformalError::AnswerOutOfRange);
        }
        i = i + 1;
    }
    Ok(())
}

} // verus!
