use blob_store::tracker::SizeTracker;

#[test]
fn new_tracker_is_at_zero() {
    let tracker = SizeTracker::new();
    assert_eq!(tracker.total_bytes(), Some(0));
    assert_eq!(tracker.item_count(), 0);
    let other = SizeTracker::default();
    assert_eq!(other.total_bytes(), Some(0));
    assert_eq!(other.item_count(), 0);
}

#[test]
fn add_and_sub_move_the_total() {
    let mut tracker = SizeTracker::new();
    tracker.add_size(100);
    tracker.add_size(23);
    assert_eq!(tracker.total_bytes(), Some(123));
    tracker.sub_size(23);
    assert_eq!(tracker.total_bytes(), Some(100));
    assert_eq!(tracker.item_count(), 0);
}

#[test]
fn sub_stops_at_zero() {
    let mut tracker = SizeTracker::new();
    tracker.add_size(5);
    tracker.sub_size(6);
    assert_eq!(tracker.total_bytes(), Some(0));
    tracker.sub_size(u64::MAX);
    assert_eq!(tracker.total_bytes(), Some(0));
}

#[test]
fn add_wraps_past_the_range() {
    let mut tracker = SizeTracker::new();
    tracker.add_size(u64::MAX);
    assert_eq!(tracker.total_bytes(), Some(u64::MAX));
    tracker.add_size(1);
    assert_eq!(tracker.total_bytes(), Some(0));
    tracker.add_size(u64::MAX);
    tracker.add_size(10);
    assert_eq!(tracker.total_bytes(), Some(9));
}

#[test]
fn set_count_replaces_the_count() {
    let mut tracker = SizeTracker::new();
    tracker.add_size(7);
    tracker.set_count(3);
    assert_eq!(tracker.item_count(), 3);
    tracker.set_count(1);
    assert_eq!(tracker.item_count(), 1);
    assert_eq!(tracker.total_bytes(), Some(7));
}
