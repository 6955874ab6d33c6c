use cornice::geom::{Color, Rect};

#[test]
fn rect_contains_and_is_empty() {
    let a = Rect::new(0, 0, 10, 10);
    assert!(a.contains(0, 0));
    assert!(a.contains(9, 9));
    assert!(!a.contains(10, 0));
    assert!(!a.contains(0, 10));
    assert!(Rect::new(0, 0, 0, 10).is_empty());
}

#[test]
fn color_from_hex_forms() {
    assert_eq!(Color::from_hex("#1a1a1aee").unwrap(), Color::rgba(0x1a, 0x1a, 0x1a, 0xee));
    assert_eq!(Color::from_hex("#fff").unwrap(), Color::rgba(255, 255, 255, 255));
    assert_eq!(Color::from_hex("#88c0d0").unwrap(), Color::rgba(0x88, 0xc0, 0xd0, 255));
    assert!(Color::from_hex("#12345").is_err());
    assert!(Color::from_hex("red").is_err());
    assert!(Color::from_hex("#gggggg").is_err());
}

#[test]
fn color_from_hex_rejects_non_ascii() {
    assert!(Color::from_hex("€").is_err());
    assert!(Color::from_hex("€").is_err());
    assert!(Color::from_hex("#€€").is_err());
}

#[test]
fn premultiplied_byte_order() {
    assert_eq!(Color::rgba(0x11, 0x22, 0x33, 0xff).to_shm_bytes(), [0x33, 0x22, 0x11, 0xff]);
    assert_eq!(Color::rgba(0x40, 0x40, 0x40, 0x80).to_shm_bytes(), [0x20, 0x20, 0x20, 0x80]);
}

#[test]
fn rect_intersect() {
    let a = Rect::new(0, 0, 10, 10);
    assert_eq!(a.intersect(Rect::new(5, 5, 10, 10)), Rect::new(5, 5, 5, 5));
    assert_eq!(a.intersect(Rect::new(2, 2, 1, 1)), Rect::new(2, 2, 1, 1));
    assert!(a.intersect(Rect::new(20, 0, 5, 5)).is_empty(), "disjoint rects give an empty rect");
    assert_eq!(a.intersect(a), a);
}

#[test]
fn hash_is_optional_and_case_is_ignored() {
    assert_eq!(Color::from_hex("FFF").unwrap(), Color::rgba(255, 255, 255, 255));
    assert_eq!(Color::from_hex("88C0D0").unwrap(), Color::rgba(0x88, 0xc0, 0xd0, 255));
    assert_eq!(Color::from_hex("#0a0").unwrap(), Color::rgba(0, 0xaa, 0, 255));
}

#[test]
fn bad_colour_message_names_the_input_and_the_forms() {
    let e = Color::from_hex("#12345").unwrap_err();
    assert_eq!(e, "bad colour format: \"#12345\" (expected #rgb / #rrggbb / #rrggbbaa)");
    let e = Color::from_hex("").unwrap_err();
    assert_eq!(e, "bad colour format: \"\" (expected #rgb / #rrggbb / #rrggbbaa)");
}

#[test]
fn a_sign_is_not_a_digit_pair() {
    assert!(Color::from_hex("#+f+f+f").is_err());
    assert!(Color::from_hex("#+fffff").is_err());
    assert!(Color::from_hex("#-f-f-f").is_err());
    assert!(Color::from_hex("+ff").is_err());
}

#[test]
fn rect_edges() {
    let r = Rect::new(-3, 4, 10, 6);
    assert_eq!(r.right(), 7);
    assert_eq!(r.bottom(), 10);
    assert!(Rect::new(0, 0, 5, -1).is_empty());
    assert!(!r.contains(7, 5));
    assert!(r.contains(-3, 4));
}

#[test]
fn overlap_of_rects_holds_exactly_the_common_points() {
    let a = Rect::new(0, 0, 10, 10);
    let b = Rect::new(5, -5, 10, 10);
    let o = a.intersect(b);
    for x in -6..16 {
        for y in -6..16 {
            assert_eq!(o.contains(x, y), a.contains(x, y) && b.contains(x, y));
        }
    }
}

#[test]
fn hex_round_trip() {
    for c in [Color::rgba(0, 0, 0, 0), Color::rgba(0x1a, 0xb2, 0xff, 0x7f), Color::rgba(255, 1, 16, 200)] {
        let long = format!("#{:02x}{:02x}{:02x}{:02x}", c.r, c.g, c.b, c.a);
        assert_eq!(Color::from_hex(&long).unwrap(), c);
        let short = format!("{:02X}{:02X}{:02X}", c.r, c.g, c.b);
        assert_eq!(Color::from_hex(&short).unwrap(), Color::rgba(c.r, c.g, c.b, 255));
    }
}
