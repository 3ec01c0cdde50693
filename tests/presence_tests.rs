use viewer_stream::presence::{PresenceRegistry, LIVENESS_WINDOW_MS};

#[test]
fn two_viewers_then_none_after_window() {
    let mut r = PresenceRegistry::new();
    r.touch_at(String::from("A"), 1_000);
    r.touch_at(String::from("B"), 2_000);
    assert_eq!(r.prune_and_count_at(3_000), 2);
    assert_eq!(r.prune_and_count_at(2_000 + LIVENESS_WINDOW_MS + 1), 0);
    assert_eq!(r.len(), 0);
}

#[test]
fn repeated_touch_does_not_duplicate() {
    let mut r = PresenceRegistry::new();
    r.touch_at(String::from("A"), 0);
    r.touch_at(String::from("A"), 10_000);
    r.touch_at(String::from("A"), 20_000);
    assert_eq!(r.len(), 1);
    assert_eq!(r.prune_and_count_at(30_000), 1);
}

#[test]
fn stale_viewer_is_dropped_others_kept() {
    let mut r = PresenceRegistry::new();
    r.touch_at(String::from("old"), 0);
    r.touch_at(String::from("new"), 10_000);
    assert_eq!(r.prune_and_count_at(15_000), 1);
    assert_eq!(r.prune_and_count_at(24_999), 1);
    assert_eq!(r.prune_and_count_at(25_000), 0);
}

#[test]
fn window_boundary_is_exclusive() {
    let mut r = PresenceRegistry::new();
    r.touch_at(String::from("v"), 100);
    assert_eq!(r.prune_and_count_at(100 + LIVENESS_WINDOW_MS - 1), 1);
    assert_eq!(r.prune_and_count_at(100 + LIVENESS_WINDOW_MS), 0);
}

#[test]
fn extreme_instants_do_not_overflow() {
    let mut r = PresenceRegistry::new();
    r.touch_at(String::from("a"), i64::MIN);
    r.touch_at(String::from("b"), i64::MAX);
    assert_eq!(r.prune_and_count_at(i64::MAX), 1);
}

#[test]
fn touch_with_clock_counts_viewer() {
    let mut r = PresenceRegistry::new();
    r.touch(String::from("A"));
    r.touch(String::from("B"));
    assert_eq!(r.prune_and_count(), 2);
}
