use ianvs::mac::MacAddress;
use ianvs::message_tracker::{TrackedMessages, CLEANUP_INTERVAL_MILLIS, DEFAULT_TTL_MILLIS};

#[test]
fn track_get_remove() {
    let mut t = TrackedMessages::new();
    let m = MacAddress([1, 2, 3, 4, 5, 6]);
    t.track(10, m, 1000);
    assert_eq!(t.get(10), Some(m));
    assert_eq!(t.get(11), None);
    assert_eq!(t.remove(10), Some(m));
    assert_eq!(t.get(10), None);
    assert_eq!(t.remove(10), None);
}

#[test]
fn old_notices_are_forgotten() {
    let mut t = TrackedMessages::new();
    t.track(1, MacAddress([1; 6]), 100);
    t.track(2, MacAddress([2; 6]), 5_000);
    t.track(3, MacAddress([3; 6]), 4_999);
    t.retain_sent_since(5_000);
    assert_eq!(t.get(1), None);
    assert_eq!(t.get(3), None);
    assert_eq!(t.get(2), Some(MacAddress([2; 6])));
}

#[test]
fn intervals() {
    assert_eq!(DEFAULT_TTL_MILLIS, 60 * 60 * 1000);
    assert_eq!(CLEANUP_INTERVAL_MILLIS, 60 * 1000);
}
