use cornice::wayland::{next_deadline, CLOCK_INTERVAL, FRAME_INTERVAL};

#[test]
fn animating_asks_for_next_frame() {
    let now = 50_000;
    assert_eq!(next_deadline(now, true, None), now + FRAME_INTERVAL);
}

#[test]
fn idle_waits_for_the_clock_tick() {
    let now = 50_000;
    assert_eq!(next_deadline(now, false, None), now + CLOCK_INTERVAL);
}

#[test]
fn earliest_deadline_wins_and_never_returns_the_past() {
    let now = 50_000;
    let soon = now + 5;
    let later = now + 30_000;
    assert_eq!(next_deadline(now, true, Some(soon)), soon);
    assert_eq!(next_deadline(now, false, Some(later)), now + CLOCK_INTERVAL);
    assert_eq!(next_deadline(now, false, Some(now - 1_000)), now);
}

#[test]
fn frame_beats_a_later_expiry() {
    assert_eq!(next_deadline(0, true, Some(500)), 16);
    assert_eq!(next_deadline(0, false, Some(500)), 500);
    assert_eq!(FRAME_INTERVAL, 16);
    assert_eq!(CLOCK_INTERVAL, 1000);
}
