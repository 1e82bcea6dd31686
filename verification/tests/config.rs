use heyting::abduce::AbduceConfig;
use heyting::calibration::CalibratedScorer;
use heyting::query::{QueryConfig, RawScoreOrder};

#[test]
fn exact_config_disables_beam_truncation() {
    assert_eq!(QueryConfig::exact().beam_k, usize::MAX);
}

#[test]
fn default_config_expands_128_intermediates() {
    assert_eq!(QueryConfig::default().beam_k, 128);
    assert_ne!(RawScoreOrder::HigherIsBetter, RawScoreOrder::LowerIsBetter);
}

#[test]
fn abduce_defaults_and_anchor_pool() {
    let cfg = AbduceConfig::default();
    assert!(cfg.anchors.is_none());
    assert_eq!(cfg.max_conjuncts, 2);
    assert_eq!(cfg.beam, 16);
    assert_eq!(cfg.query.beam_k, 128);
    assert_eq!(cfg.anchor_pool(4), vec![0, 1, 2, 3]);
    assert!(cfg.anchor_pool(0).is_empty());

    let restricted = AbduceConfig {
        anchors: Some(vec![7, 2, 7]),
        ..AbduceConfig::default()
    };
    assert_eq!(restricted.anchor_pool(100), vec![7, 2, 7]);
}

#[test]
fn calibrated_scorer_exposes_its_parts() {
    let mut s = CalibratedScorer::new(vec![1u32, 2], "affine");
    assert_eq!(s.scorer(), &vec![1, 2]);
    assert_eq!(*s.calibrator(), "affine");
    s.scorer_mut().push(3);
    assert_eq!(s.scorer(), &vec![1, 2, 3]);
    assert_eq!(*s.calibrator(), "affine");
}
