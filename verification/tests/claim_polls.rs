use task_graph::claims::{plan_lock, split_claim_updates, ClaimEvent, ClaimEventType, LockAction};

fn ev(id: i64, event: ClaimEventType, claim_id: Option<i64>) -> ClaimEvent {
    ClaimEvent {
        id,
        file_path: format!("f{}", id),
        worker_id: "w".to_string(),
        event,
        reason: None,
        timestamp: id * 10,
        end_timestamp: None,
        claim_id,
    }
}

#[test]
fn poll_splits_claims_and_reported_releases() {
    let events = vec![
        ev(10, ClaimEventType::Claimed, None),
        ev(11, ClaimEventType::Released, Some(10)),
        ev(12, ClaimEventType::Released, Some(3)),
        ev(13, ClaimEventType::Released, Some(9)),
        ev(14, ClaimEventType::Released, None),
    ];
    let u = split_claim_updates(&events, 5);
    assert_eq!(u.new_claims.iter().map(|e| e.id).collect::<Vec<_>>(), vec![10]);
    // 11: its claim is in this batch; 12: claim before the poll position;
    // 13: claim 9 neither seen before nor in the batch; 14: no claim recorded.
    assert_eq!(u.dropped_claims.iter().map(|e| e.id).collect::<Vec<_>>(), vec![11, 12, 14]);
    assert_eq!(u.sequence, 15);
}

#[test]
fn empty_poll_keeps_position() {
    let u = split_claim_updates(&vec![], 42);
    assert!(u.new_claims.is_empty());
    assert!(u.dropped_claims.is_empty());
    assert_eq!(u.sequence, 42);
}

#[test]
fn lock_decisions() {
    assert_eq!(plan_lock(&None, "w1"), LockAction::Acquire);
    assert_eq!(plan_lock(&Some("w1".to_string()), "w1"), LockAction::Refresh);
    assert_eq!(plan_lock(&Some("w2".to_string()), "w1"), LockAction::HeldBy("w2".to_string()));
}
