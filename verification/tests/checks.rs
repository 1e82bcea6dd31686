use heyting::adapters::{
    check_box_shapes, check_faithful_shapes, hit_candidates, BoxModelError, FaithfulBoxError,
    MaterializeError,
};
use heyting::conformal::{check_calibration_answers, ConformalError};
use heyting::eval::split_crisp_answers;
use heyting::prune::normalize_candidates;
use heyting::provenance::WitnessError;
use std::collections::BTreeSet;

#[test]
fn calibration_answers_are_checked_against_the_axis() {
    assert_eq!(
        check_calibration_answers(&vec![], 6),
        Err(ConformalError::NoCalibrationExamples)
    );
    assert_eq!(
        check_calibration_answers(&vec![1, 3, 99], 6),
        Err(ConformalError::AnswerOutOfRange)
    );
    assert_eq!(check_calibration_answers(&vec![1, 3, 5, 3], 6), Ok(()));
    assert_ne!(
        ConformalError::NonFiniteScore { index: 1 },
        ConformalError::NonFiniteScore { index: 2 }
    );
    assert_ne!(ConformalError::InvalidAlpha, ConformalError::AnswerOutOfRange);
}

#[test]
fn box_shapes_must_share_the_first_point_dimension() {
    assert_eq!(check_box_shapes(&vec![2, 2, 2], &vec![(2, 2), (2, 2)]), Ok(()));
    assert_eq!(
        check_box_shapes(&vec![2, 3], &vec![]),
        Err(BoxModelError::DimensionMismatch)
    );
    assert_eq!(
        check_box_shapes(&vec![2, 2], &vec![(2, 1)]),
        Err(BoxModelError::DimensionMismatch)
    );
    // With no entities the shared dimension is 0.
    assert_eq!(check_box_shapes(&vec![], &vec![(0, 0)]), Ok(()));
    assert_eq!(
        check_box_shapes(&vec![], &vec![(1, 1)]),
        Err(BoxModelError::DimensionMismatch)
    );
    assert_ne!(BoxModelError::InvalidParameter, BoxModelError::DimensionMismatch);
}

#[test]
fn faithful_shapes_pair_centers_with_offsets() {
    assert_eq!(check_faithful_shapes(&vec![2, 3], &vec![2, 3]), Ok(()));
    assert_eq!(
        check_faithful_shapes(&vec![2, 3], &vec![2]),
        Err(FaithfulBoxError::DimensionMismatch)
    );
    assert_eq!(
        check_faithful_shapes(&vec![2, 3], &vec![2, 2]),
        Err(FaithfulBoxError::DimensionMismatch)
    );
    assert_eq!(check_faithful_shapes(&vec![], &vec![]), Ok(()));
    assert_ne!(FaithfulBoxError::InvalidTemperature, FaithfulBoxError::DimensionMismatch);
}

#[test]
fn candidates_are_sorted_and_deduplicated() {
    assert_eq!(normalize_candidates(&vec![5, 1, 5, 3, 1]), vec![1, 3, 5]);
    assert_eq!(normalize_candidates(&vec![]), Vec::<usize>::new());
    assert_eq!(normalize_candidates(&vec![9, 8, 7]), vec![7, 8, 9]);
}

#[test]
fn split_keeps_predicted_answers_hard() {
    // Train derives {1}; the full graph derives {0, 1}: 0 needs a missing edge.
    let a = split_crisp_answers(&vec![1], &vec![0, 1, 0]);
    assert_eq!(a.easy, BTreeSet::from([1]));
    assert_eq!(a.hard, BTreeSet::from([0]));

    let a = split_crisp_answers(&vec![], &vec![1]);
    assert!(a.easy.is_empty());
    assert_eq!(a.hard, BTreeSet::from([1]));

    let a = split_crisp_answers(&vec![1], &vec![1]);
    assert_eq!(a.easy, BTreeSet::from([1]));
    assert!(a.hard.is_empty());
    assert_eq!(WitnessError::ZeroDegree, WitnessError::ZeroDegree);
}

#[test]
fn index_hits_become_entity_candidates() {
    assert_eq!(hit_candidates(&vec![3, 2, 7], 2, true), vec![3, 7]);
    assert_eq!(hit_candidates(&vec![3, 2, 7], 2, false), vec![3, 2, 7]);
    assert_eq!(hit_candidates(&vec![], 0, true), Vec::<usize>::new());
}

#[test]
fn materialize_refusals_name_the_connective() {
    let neg = MaterializeError::UnsupportedConnective("negation");
    assert_eq!(neg.clone(), MaterializeError::UnsupportedConnective("negation"));
    assert_ne!(neg, MaterializeError::UnsupportedConnective("a Given leaf"));
    assert_ne!(neg, MaterializeError::UnknownId);
    assert!(matches!(
        MaterializeError::UnknownId,
        MaterializeError::UnknownId
    ));
}
