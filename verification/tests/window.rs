use quic_rtt::minmax::Minmax;

#[test]
fn constructor_seeds_the_minimum() {
    let tracker = Minmax::new(42);
    assert_eq!(tracker.cur(), 42);
}

#[test]
fn reset_discards_history() {
    let mut tracker = Minmax::new(42);
    let seeded = tracker.reset(0, 100);
    assert_eq!(seeded, 100);
    assert_eq!(tracker.cur(), 100);
}

#[test]
fn minimum_holds_while_samples_are_inside_the_window() {
    let mut tracker = Minmax::new(0);
    tracker.reset(0, 100);
    assert_eq!(tracker.running_min(10, 5, 200), 100);
    assert_eq!(tracker.running_min(10, 8, 150), 100);
}

#[test]
fn smaller_sample_is_reported_at_once() {
    let mut tracker = Minmax::new(0);
    tracker.reset(0, 100);
    assert_eq!(tracker.running_min(10, 5, 60), 60);
    assert_eq!(tracker.running_min(10, 6, 80), 60);
}

#[test]
fn expired_minimum_stops_being_reported() {
    let mut tracker = Minmax::new(0);
    tracker.reset(0, 100);
    assert_eq!(tracker.running_min(10, 5, 200), 100);
    // At time 20 the 100 (age 20) and the 200 (age 15) have both aged out
    // of the window of 10; only the new, larger sample remains.
    assert_eq!(tracker.running_min(10, 20, 300), 300);
    assert_eq!(tracker.running_min(10, 21, 250), 250);
}

#[test]
fn age_equal_to_window_is_still_inside() {
    let mut tracker = Minmax::new(0);
    tracker.reset(0, 30);
    assert_eq!(tracker.running_min(10, 10, 99), 30);
}

#[test]
fn age_one_past_window_is_outside() {
    let mut tracker = Minmax::new(0);
    tracker.reset(0, 30);
    assert_eq!(tracker.running_min(10, 11, 99), 99);
}

#[test]
fn clock_running_backwards_is_tolerated() {
    let mut tracker = Minmax::new(0);
    tracker.reset(100, 50);
    // A `now` earlier than the newest recorded time counts as that time.
    assert_eq!(tracker.running_min(10, 90, 70), 50);
    // Both earlier samples were recorded at 100 and have aged out by 150.
    assert_eq!(tracker.running_min(10, 150, 60), 60);
}

#[test]
fn equal_sample_replaces_the_older_candidate() {
    let mut tracker = Minmax::new(0);
    tracker.reset(0, 100);
    // The equal newer sample supersedes the older one, so the minimum
    // survives past the older sample's expiry.
    assert_eq!(tracker.running_min(10, 8, 100), 100);
    assert_eq!(tracker.running_min(10, 15, 300), 100);
}
