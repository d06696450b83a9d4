use merge_futures::statistic::{Delays, QUEUE_LEN};

#[test]
fn starts_empty() {
    let d = Delays::default();
    assert_eq!(d.len(), 0);
    assert!(d.is_empty());
}

#[test]
fn new_event_appends() {
    let mut d = Delays::default();
    d.new_event(5);
    d.new_event(7);
    assert_eq!(d.len(), 2);
    assert_eq!(d.recent_delays().as_slice(), &[5, 7]);
}

#[test]
fn window_evicts_oldest_beyond_queue_len() {
    let mut d = Delays::default();
    for i in 0..(QUEUE_LEN as u64 + 1) {
        d.new_event(i);
    }
    assert_eq!(d.len(), QUEUE_LEN);
    // the first event was evicted; the window starts at the second
    assert_eq!(d.recent_delays()[0], 1);
    assert_eq!(d.recent_delays()[QUEUE_LEN - 1], QUEUE_LEN as u64);
}

#[test]
fn sum_micros_is_exact() {
    let mut d = Delays::default();
    assert_eq!(d.sum_micros(), 0);
    d.new_event(3);
    d.new_event(10);
    d.new_event(29);
    assert_eq!(d.sum_micros(), 42);
}

#[test]
fn sum_micros_handles_large_delays() {
    let mut d = Delays::default();
    d.new_event(u64::MAX);
    d.new_event(u64::MAX);
    assert_eq!(d.sum_micros(), 2 * (u64::MAX as u128));
}

#[test]
fn percentiles_pick_sorted_entries() {
    let mut d = Delays::default();
    // ten delays, pushed out of order
    for v in [90u64, 20, 70, 0, 40, 60, 30, 80, 10, 50] {
        d.new_event(v);
    }
    let p = d.calculate_percentiles();
    assert_eq!(p.len(), 9);
    // sorted window is 0,10,...,90; index is len * permille / 1000
    assert_eq!(p[0], (800, 80));
    assert_eq!(p[1], (900, 90));
    assert_eq!(p[2], (950, 90));
    assert_eq!(p[3], (980, 90));
    assert_eq!(p[4], (985, 90));
    assert_eq!(p[5], (990, 90));
    assert_eq!(p[6], (995, 90));
    assert_eq!(p[7], (998, 90));
    assert_eq!(p[8], (999, 90));
}

#[test]
fn percentiles_of_single_delay() {
    let mut d = Delays::default();
    d.new_event(123);
    let p = d.calculate_percentiles();
    assert_eq!(p.len(), 9);
    for (_, v) in p {
        assert_eq!(v, 123);
    }
}

#[test]
fn percentiles_leave_window_unchanged() {
    let mut d = Delays::default();
    d.new_event(9);
    d.new_event(1);
    d.new_event(5);
    let _ = d.calculate_percentiles();
    assert_eq!(d.recent_delays().as_slice(), &[9, 1, 5]);
}
