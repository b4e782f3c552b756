use execmon::transport::Transport;

#[test]
fn reserve_write_submit_poll_round_trip() {
    let mut t = Transport::new(64);
    assert!(t.reserve(8));
    t.write_reserved(&vec![1, 2, 3, 4, 5, 6, 7, 8]);
    t.submit();
    let f = t.poll().unwrap();
    assert_eq!(f, vec![1, 2, 3, 4, 5, 6, 7, 8]);
    assert!(t.poll().is_none());
}

#[test]
fn frames_arrive_in_submission_order_exactly_once() {
    let mut t = Transport::new(64);
    for k in 0..4u8 {
        assert!(t.reserve(4));
        t.write_reserved(&vec![k; 4]);
        t.submit();
    }
    for k in 0..4u8 {
        assert_eq!(t.poll().unwrap(), vec![k; 4]);
    }
    assert!(t.poll().is_none());
}

#[test]
fn backpressure_full_transport_refuses_then_drain_frees_space() {
    let mut t = Transport::new(8);
    assert!(t.reserve(8));
    t.write_reserved(&vec![7; 8]);
    t.submit();
    // Full: a new reservation fails immediately, nothing blocks and the
    // published frame stays intact.
    assert!(!t.reserve(8));
    assert!(!t.reserve(1));
    // After the consumer drains, the same reservation succeeds.
    assert_eq!(t.poll().unwrap(), vec![7; 8]);
    assert!(t.reserve(8));
}

#[test]
fn an_unwritten_reservation_reads_back_zeroed() {
    let mut t = Transport::new(8);
    assert!(t.reserve(3));
    t.submit();
    assert_eq!(t.poll().unwrap(), vec![0, 0, 0]);
}

#[test]
fn zero_capacity_admits_nothing() {
    let mut t = Transport::new(0);
    assert!(!t.reserve(1));
    assert!(t.reserve(0));
}
