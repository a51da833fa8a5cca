use zona_p2p::overlay::critical::{QuorumResult, QuorumTracker};

#[test]
fn quorum_reached_on_second_matching_copy() {
    let mut qt = QuorumTracker::new();
    let payload = b"hello".to_vec();
    assert_eq!(qt.record(1, payload.clone()), QuorumResult::Pending);
    assert_eq!(qt.record(1, payload.clone()), QuorumResult::Accepted);
}

#[test]
fn inconsistent_on_payload_mismatch() {
    let mut qt = QuorumTracker::new();
    qt.record(2, b"aaa".to_vec());
    assert_eq!(qt.record(2, b"bbb".to_vec()), QuorumResult::Inconsistent);
}

#[test]
fn mismatch_stays_inconsistent_and_ids_are_independent() {
    let mut qt = QuorumTracker::default();
    qt.record(3, b"x".to_vec());
    assert_eq!(qt.record(3, b"y".to_vec()), QuorumResult::Inconsistent);
    assert_eq!(qt.record(3, b"x".to_vec()), QuorumResult::Inconsistent);
    assert_eq!(qt.record(4, b"x".to_vec()), QuorumResult::Pending);
    qt.clear();
    assert_eq!(qt.record(3, b"x".to_vec()), QuorumResult::Pending);
    // After acceptance the message is forgotten: a third copy starts anew.
    assert_eq!(qt.record(3, b"x".to_vec()), QuorumResult::Accepted);
    assert_eq!(qt.record(3, b"x".to_vec()), QuorumResult::Pending);
}

#[test]
fn mismatch_stays_across_other_messages() {
    let mut qt = QuorumTracker::new();
    assert_eq!(qt.record(1, b"aaa".to_vec()), QuorumResult::Pending);
    assert_eq!(qt.record(1, b"bbb".to_vec()), QuorumResult::Inconsistent);
    assert_eq!(qt.record(2, b"x".to_vec()), QuorumResult::Pending);
    assert_eq!(qt.record(2, b"x".to_vec()), QuorumResult::Accepted);
    assert_eq!(qt.record(3, b"y".to_vec()), QuorumResult::Pending);
    assert_eq!(qt.record(1, b"aaa".to_vec()), QuorumResult::Inconsistent);
    assert_eq!(qt.record(1, b"aaa".to_vec()), QuorumResult::Inconsistent);
    qt.clear();
    assert_eq!(qt.record(1, b"aaa".to_vec()), QuorumResult::Pending);
}
