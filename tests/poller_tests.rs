use viewer_stream::poller::PresencePoller;

#[test]
fn announces_only_changes() {
    let mut p = PresencePoller::new();
    let mut sent = Vec::new();
    for c in [3usize, 3, 3, 5, 5, 2] {
        if let Some(n) = p.observe(c) {
            sent.push(n);
        }
    }
    assert_eq!(sent, vec![5, 2]);
    assert_eq!(p.last_count(), Some(2));
}

#[test]
fn first_count_is_only_recorded() {
    let mut p = PresencePoller::new();
    assert_eq!(p.last_count(), None);
    assert_eq!(p.observe(4), None);
    assert_eq!(p.last_count(), Some(4));
}

#[test]
fn zero_is_announced_after_a_change() {
    let mut p = PresencePoller::new();
    assert_eq!(p.observe(0), None);
    assert_eq!(p.observe(1), Some(1));
    assert_eq!(p.observe(0), Some(0));
    assert_eq!(p.observe(0), None);
}
