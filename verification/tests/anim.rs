use cornice::anim::Tween;

#[test]
fn zero_duration_tween_is_done_at_once() {
    let tw = Tween::new(1_000, 0);
    assert!(tw.is_done(1_000));
    assert!(tw.is_done(0), "a zero-length tween is done even before its start");
}

#[test]
fn tween_is_done_exactly_at_its_end() {
    let t0 = 1_000;
    let tw = Tween::new(t0, 200);
    assert!(!tw.is_done(t0));
    assert!(!tw.is_done(t0 + 199));
    assert!(tw.is_done(t0 + 200));
    assert!(tw.is_done(t0 + 10_000));
    assert!(!tw.is_done(t0 - 500), "a time before the start counts as no progress");
}
