use replay_detector::{Bigint, Checker, DetectorConfig, Dequeue, NoWrapReplayDetector, ReplayError};

#[test]
fn happy_path() {
    let cfg = DetectorConfig::<Bigint> {
        mask: None,
        max_seq: 128,
        window_size: 32,
    };

    let mut detector = NoWrapReplayDetector::new(cfg);
    for i in 0..128 {
        match detector.check_and_accept(i) {
            Ok(latest) => {
                assert!(latest);
            }
            Err(e) => {
                assert!(false, "unexpected error {:?}", e)
            }
        }
    }
}

#[test]
fn duplicated_value() {
    let cfg = DetectorConfig::<Bigint> {
        mask: None,
        max_seq: 128,
        window_size: 32,
    };

    let mut detector = NoWrapReplayDetector::new(cfg);
    detector.check_and_accept(10).unwrap();
    detector.check_and_accept(12).unwrap();
    match detector.check_and_accept(10) {
        Ok(_) => {
            assert!(false, "expected error")
        }
        Err(e) => {
            assert!(e == ReplayError::Duplicated(10));
        }
    }
}

#[test]
fn seq_too_low() {
    let cfg = DetectorConfig::<Bigint> {
        mask: None,
        max_seq: (1 << 32) - 1,
        window_size: 64,
    };
    let mut detector = NoWrapReplayDetector::new(cfg);
    detector.check_and_accept(1000).unwrap();
    assert!(detector.check_and_accept(1000 - 64).is_err());
}

#[test]
fn big_valid_jump() {
    let cfg = DetectorConfig::<Bigint> {
        mask: None,
        max_seq: (1 << 32) - 1,
        window_size: 0xFF,
    };
    let mut detector = NoWrapReplayDetector::new(cfg);
    detector.check_and_accept(1).unwrap();
    detector.check_and_accept(2).unwrap();
    detector.check_and_accept(3).unwrap();
    detector.check_and_accept(0xFF4).unwrap();
    assert!(detector.check_and_accept(4).is_err());
}

#[test]
fn invalid_huge_jump() {
    let cfg = DetectorConfig::<Bigint> {
        mask: None,
        max_seq: (1 << 32) - 1,
        window_size: 0xFF,
    };
    let mut detector = NoWrapReplayDetector::new(cfg);
    detector.check_and_accept(1).unwrap();
    detector.check_and_accept(2).unwrap();
    detector.check_and_accept(3).unwrap();
    assert!(detector.check_and_accept((1 << 33) - 1).is_err());
}

#[test]
fn dequeue_invalid_huge_jump() {
    let cfg = DetectorConfig {
        mask: Option::Some(Dequeue::new(0xFF)),
        max_seq: (1 << 32) - 1,
        window_size: 0xFF,
    };
    let mut detector = NoWrapReplayDetector::new(cfg);
    detector.check_and_accept(1).unwrap();
    detector.check_and_accept(2).unwrap();
    detector.check_and_accept(3).unwrap();
    assert!(detector.check_and_accept((1 << 33) - 1).is_err());
}

fn default_detector(max_seq: usize, window_size: usize) -> NoWrapReplayDetector<Bigint> {
    NoWrapReplayDetector::new(DetectorConfig::<Bigint> {
        mask: None,
        max_seq,
        window_size,
    })
}

#[test]
fn errors_carry_the_offending_number() {
    let mut detector = default_detector((1 << 32) - 1, 64);
    assert_eq!(detector.check_and_accept(1000), Ok(true));
    assert_eq!(
        detector.check_and_accept(936),
        Err(ReplayError::OutsideWindow(936))
    );
    let mut detector = default_detector((1 << 32) - 1, 0xFF);
    for s in 1..=3 {
        assert_eq!(detector.check_and_accept(s), Ok(true));
    }
    assert_eq!(detector.check_and_accept(0xFF4), Ok(true));
    assert_eq!(detector.check_and_accept(4), Err(ReplayError::OutsideWindow(4)));
    assert_eq!(
        detector.check_and_accept((1 << 33) - 1),
        Err(ReplayError::OutsideWindow((1 << 33) - 1))
    );
}

#[test]
fn window_edge_is_exclusive() {
    let mut detector = default_detector(10_000, 64);
    assert_eq!(detector.check_and_accept(1000), Ok(true));
    assert_eq!(detector.check_and_accept(937), Ok(false));
    assert_eq!(detector.check_and_accept(937), Err(ReplayError::Duplicated(937)));
    assert_eq!(detector.check_and_accept(936), Err(ReplayError::OutsideWindow(936)));
}

#[test]
fn ceiling_is_inclusive() {
    let mut detector = default_detector(50, 8);
    assert_eq!(detector.check_and_accept(51), Err(ReplayError::OutsideWindow(51)));
    assert_eq!(detector.check_and_accept(50), Ok(true));
    assert_eq!(detector.check_and_accept(51), Err(ReplayError::OutsideWindow(51)));
    assert_eq!(detector.check_and_accept(usize::MAX), Err(ReplayError::OutsideWindow(usize::MAX)));
}

#[test]
fn gap_fill_is_not_newest() {
    let mut detector = default_detector(1000, 16);
    assert_eq!(detector.check_and_accept(5), Ok(true));
    assert_eq!(detector.check_and_accept(9), Ok(true));
    assert_eq!(detector.check_and_accept(7), Ok(false));
    assert_eq!(detector.check_and_accept(6), Ok(false));
    assert_eq!(detector.check_and_accept(7), Err(ReplayError::Duplicated(7)));
    assert_eq!(detector.check_and_accept(9), Err(ReplayError::Duplicated(9)));
    assert_eq!(detector.check_and_accept(8), Ok(false));
}

#[test]
fn first_acceptance_is_always_newest() {
    let mut detector = default_detector(1000, 16);
    assert_eq!(detector.check_and_accept(0), Ok(true));
    assert_eq!(detector.check_and_accept(0), Err(ReplayError::Duplicated(0)));
    assert_eq!(detector.check_and_accept(1), Ok(true));
}

#[test]
fn duplicate_survives_until_it_leaves_the_window() {
    let mut detector = default_detector(1000, 8);
    assert_eq!(detector.check_and_accept(100), Ok(true));
    assert_eq!(detector.check_and_accept(103), Ok(true));
    assert_eq!(detector.check_and_accept(100), Err(ReplayError::Duplicated(100)));
    assert_eq!(detector.check_and_accept(107), Ok(true));
    assert_eq!(detector.check_and_accept(100), Err(ReplayError::Duplicated(100)));
    assert_eq!(detector.check_and_accept(108), Ok(true));
    assert_eq!(detector.check_and_accept(100), Err(ReplayError::OutsideWindow(100)));
}

#[test]
fn check_does_not_record() {
    let mut detector = default_detector(1000, 8);
    assert_eq!(detector.check(10), Ok(()));
    assert_eq!(detector.check(10), Ok(()));
    assert_eq!(detector.check_and_accept(10), Ok(true));
    assert_eq!(detector.check(10), Err(ReplayError::Duplicated(10)));
    assert_eq!(detector.check(1001), Err(ReplayError::OutsideWindow(1001)));
    assert_eq!(detector.check(2), Err(ReplayError::OutsideWindow(2)));
    assert_eq!(detector.check(3), Ok(()));
}

#[test]
fn dequeue_detector_matches_default() {
    let mut with_cells = NoWrapReplayDetector::new(DetectorConfig {
        mask: Some(Dequeue::new(16)),
        max_seq: 500,
        window_size: 16,
    });
    let mut packed = default_detector(500, 16);
    let seqs = [3usize, 3, 10, 5, 5, 40, 25, 24, 24, 60, 44, 45, 501, 300, 299, 284, 285, 300];
    for &s in seqs.iter() {
        assert_eq!(with_cells.check_and_accept(s), packed.check_and_accept(s), "seq {}", s);
    }
}

#[test]
fn increasing_run_is_all_newest() {
    let mut detector = default_detector(1 << 20, 4);
    let mut s = 0usize;
    let mut gap = 1usize;
    while s <= 1 << 20 {
        assert_eq!(detector.check_and_accept(s), Ok(true));
        s += gap;
        gap = gap * 3 % 97 + 1;
    }
}
