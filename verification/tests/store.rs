use execmon::datetime::DateTime;
use execmon::store::{LiveEventStore, STORE_CAPACITY};
use execmon::textline::ProcessExecution;

fn entry(pid: u32) -> ProcessExecution {
    ProcessExecution {
        pid,
        ppid: 1,
        comm: "bash".to_string(),
        args: "ls".to_string(),
        timestamp: DateTime { year: 2025, month: 3, day: 16, hour: 13, minute: 42, second: 53 },
        username: None,
    }
}

#[test]
fn fifo_eviction_keeps_the_newest_fifty_in_order() {
    let mut s = LiveEventStore::new();
    for pid in 0..(STORE_CAPACITY as u32 + 1) {
        s.push(entry(pid));
        assert!(s.len() <= STORE_CAPACITY);
    }
    // After the 51st push the 1st entry is gone and the remaining 50 keep
    // their original relative order.
    assert_eq!(s.len(), STORE_CAPACITY);
    for i in 0..STORE_CAPACITY {
        assert_eq!(s.get(i).pid, i as u32 + 1);
    }
}

#[test]
fn push_appends_at_the_tail_below_capacity() {
    let mut s = LiveEventStore::new();
    s.push(entry(10));
    s.push(entry(20));
    assert_eq!(s.len(), 2);
    assert_eq!(s.get(0).pid, 10);
    assert_eq!(s.get(1).pid, 20);
}

#[test]
fn selection_wraps_both_ways() {
    let mut s = LiveEventStore::new();
    for pid in 0..3 {
        s.push(entry(pid));
    }
    assert_eq!(s.selection(), Some(0));
    s.selection_next();
    assert_eq!(s.selection(), Some(1));
    s.selection_next();
    assert_eq!(s.selection(), Some(2));
    s.selection_next();
    assert_eq!(s.selection(), Some(0));
    s.selection_previous();
    assert_eq!(s.selection(), Some(2));
    s.selection_previous();
    assert_eq!(s.selection(), Some(1));
}

#[test]
fn selection_moves_are_no_ops_on_an_empty_store() {
    let mut s = LiveEventStore::new();
    s.selection_next();
    assert_eq!(s.selection(), Some(0));
    s.selection_previous();
    assert_eq!(s.selection(), Some(0));
    s.select(7);
    assert_eq!(s.selection(), Some(0));
    assert_eq!(s.len(), 0);
}

#[test]
fn select_clamps_into_the_live_range() {
    let mut s = LiveEventStore::new();
    for pid in 0..3 {
        s.push(entry(pid));
    }
    s.select(1);
    assert_eq!(s.selection(), Some(1));
    s.select(99);
    assert_eq!(s.selection(), Some(2));
}
