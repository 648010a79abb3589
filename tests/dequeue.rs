use replay_detector::{Bigint, Dequeue, Mask};

#[test]
fn dequeue_set_and_read() {
    let mut dq = Dequeue::new(8);
    for i in 0..=9 {
        assert!(!dq.bit(i));
    }
    dq.set_bit(3);
    dq.set_bit(8);
    dq.set_bit(9);
    assert!(dq.bit(3));
    assert!(dq.bit(8));
    assert!(!dq.bit(2));
    assert!(!dq.bit(9));
}

#[test]
fn dequeue_shift_moves_flags() {
    let mut dq = Dequeue::new(8);
    dq.set_bit(0);
    dq.set_bit(5);
    dq.shl(3);
    assert!(dq.bit(3));
    assert!(dq.bit(8));
    assert!(!dq.bit(0));
    assert!(!dq.bit(5));
    dq.shl(1);
    assert!(dq.bit(4));
    assert!(!dq.bit(9));
    assert!(!dq.bit(8));
}

#[test]
fn dequeue_shift_past_width_clears() {
    let mut dq = Dequeue::new(4);
    dq.set_bit(0);
    dq.set_bit(4);
    dq.shl(5);
    for i in 0..=5 {
        assert!(!dq.bit(i));
    }
    dq.set_bit(2);
    assert!(dq.bit(2));
}

#[test]
fn dequeue_matches_bigint() {
    let mut dq = Dequeue::new(70);
    let mut bi = Bigint::new(70);
    let ops: [(bool, usize); 9] = [
        (true, 0),
        (false, 3),
        (true, 1),
        (true, 70),
        (false, 64),
        (true, 2),
        (false, 1),
        (true, 71),
        (false, 80),
    ];
    for &(set, n) in ops.iter() {
        if set {
            dq.set_bit(n);
            bi.set_bit(n);
        } else {
            dq.shl(n);
            bi.shl(n);
        }
        for k in 0..=75 {
            assert_eq!(dq.bit(k), bi.bit(k), "offset {}", k);
        }
    }
}
