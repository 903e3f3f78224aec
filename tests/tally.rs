use quota_ledger::tally::Tally;

#[test]
fn fresh_tally_has_full_capacity() {
    let t = Tally::new(4);
    assert_eq!(t.consumed, 0);
    assert_eq!(t.outstanding, 0);
    assert_eq!(t.remaining_capacity(), 4);
}

#[test]
fn reserve_up_to_the_limit() {
    let mut t = Tally::new(3);
    assert!(t.reserve(2, 10));
    assert_eq!(t.outstanding, 2);
    assert_eq!(t.last_reserved_at, 10);
    assert!(t.reserve(1, 11));
    assert_eq!(t.remaining_capacity(), 0);
    let before = t;
    assert!(!t.reserve(1, 12));
    assert_eq!(t, before);
}

#[test]
fn negative_reservation_is_rejected() {
    let mut t = Tally::new(3);
    assert!(!t.reserve(-1, 1));
    assert_eq!(t, Tally::new(3));
}

#[test]
fn remaining_clamps_at_zero_when_over() {
    let t = Tally { limit: 5, consumed: 7, outstanding: 1, last_reserved_at: 0 };
    assert_eq!(t.remaining_capacity(), 0);
}

#[test]
fn unit_reservations_accept_min_of_requests_and_headroom() {
    // limit 5, consumed 2: headroom 3; five requests of one unit
    let mut t = Tally { limit: 5, consumed: 2, outstanding: 0, last_reserved_at: 0 };
    let mut accepted: u32 = 0;
    for k in 0..5u64 {
        if t.reserve(1, k) {
            accepted += 1;
        }
        assert!(t.consumed + t.outstanding <= t.limit);
    }
    assert_eq!(accepted, 3);
    assert_eq!(t.outstanding, 3);
}

#[test]
fn unit_reservations_all_accepted_with_ample_headroom() {
    let mut t = Tally::new(10);
    let mut accepted: u32 = 0;
    for k in 0..4u64 {
        if t.reserve(1, k) {
            accepted += 1;
        }
    }
    assert_eq!(accepted, 4);
    assert_eq!(t.remaining_capacity(), 6);
}
