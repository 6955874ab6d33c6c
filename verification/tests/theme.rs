use cornice::theme::{Theme, MAX_CARD_W, MIN_CARD_W};

#[test]
fn derived_proportions() {
    let t = Theme::defaults(30);
    assert_eq!(t.card_gap, 6);
    assert_eq!(t.card_padding, 15);
    assert_eq!(t.card_w, 300);
    assert_eq!(t.card_radius, 36);
    assert_eq!(t.card_min_h(), 75);
    assert!(t.secondary.a < t.foreground.a, "the body is the secondary label, not the primary one");
    assert_eq!(Theme::defaults(120).card_w, MAX_CARD_W);
    assert_eq!(Theme::defaults(4).card_w, MIN_CARD_W);
}

#[test]
fn small_bars_keep_usable_floors() {
    let t = Theme::defaults(4);
    assert_eq!(t.card_gap, 2);
    assert_eq!(t.card_padding, 4);
    assert_eq!(t.card_radius, 5, "1.2 × 4 = 4.8 rounds to 5");
    assert_eq!(t.card_min_h(), 23, "one line plus padding beats 2.5 × height");
    assert_eq!(t.secondary.a, 183, "72% of 255, truncated");
    assert_eq!(t.line_height, 15);
    assert_eq!((t.padding, t.spacing), (8, 6));
}

#[test]
fn radius_rounds_half_away_from_zero() {
    // 1.2 × 24 = 28.8 → 29; 1.2 × 25 = 30
    assert_eq!(Theme::defaults(24).card_radius, 29);
    assert_eq!(Theme::defaults(25).card_radius, 30);
}
