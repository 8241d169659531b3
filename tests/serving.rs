use space_server::admission::PlayerSlots;
use space_server::fanout::SnapshotBoard;

#[test]
fn claims_lowest_free_id() {
    let mut slots = PlayerSlots::new(3);
    assert_eq!(Some(1), slots.claim_id());
    assert_eq!(Some(2), slots.claim_id());
    assert!(slots.release(1));
    assert_eq!(Some(1), slots.claim_id());
    assert_eq!(Some(3), slots.claim_id());
}

#[test]
fn connection_over_cap_is_refused() {
    let mut slots = PlayerSlots::new(2);
    assert_eq!(Some(1), slots.claim_id());
    assert_eq!(Some(2), slots.claim_id());
    assert_eq!(None, slots.claim_id());
    assert_eq!(2, slots.live_count());
    assert!(slots.is_live(1));
    assert!(slots.is_live(2));
    assert!(!slots.release(3));
    assert!(slots.release(2));
    assert_eq!(Some(2), slots.claim_id());
}

#[test]
fn zero_cap_refuses_everyone() {
    let mut slots = PlayerSlots::new(0);
    assert_eq!(0, slots.capacity());
    assert_eq!(None, slots.claim_id());
}

#[test]
fn slow_reader_sees_only_latest_snapshot() {
    let mut board = SnapshotBoard::new();
    board.subscribe(4);
    assert_eq!(None, board.take(4));
    for cycle in 0u8..9 {
        board.publish(vec![cycle]);
        if cycle % 3 == 2 {
            assert_eq!(Some(vec![cycle]), board.take(4));
            assert_eq!(None, board.take(4));
        }
    }
}

#[test]
fn subscription_starts_with_next_snapshot() {
    let mut board = SnapshotBoard::new();
    board.publish(vec![1, 2]);
    board.subscribe(7);
    assert_eq!(None, board.take(7));
    board.publish(vec![3]);
    assert_eq!(Some(vec![3]), board.take(7));
}
