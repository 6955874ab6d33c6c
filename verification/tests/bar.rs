use cornice::bar::{end_inset, layout, BarModule, SectionWidths, Sections, SEC_CENTER, SEC_RIGHT};
use cornice::config::{Bar, Config, ModuleSpec};
use cornice::geom::Rect;
use cornice::theme::Theme;
use cornice::widget::{Event, Module};

fn widths(l: &[i32], c: &[i32], r: &[i32]) -> SectionWidths {
    SectionWidths { left: l.to_vec(), center: c.to_vec(), right: r.to_vec() }
}

fn config(left: Vec<ModuleSpec>, center: Vec<ModuleSpec>, right: Vec<ModuleSpec>) -> Config {
    Config {
        bar: Bar { height: 30, margin: 0, left, center, right },
        theme: Theme::defaults(30),
        notification: None,
    }
}

#[test]
fn three_sections_are_placed_as_specified() {
    // padding 8, spacing 6; the bar is square, so both ends keep only the padding
    let t = Theme::defaults(30);
    let out = layout(&widths(&[20, 20], &[50], &[30, 30]), 1000, &t);
    assert_eq!(out.left[0], Rect::new(8, 0, 20, 30));
    assert_eq!(out.left[1], Rect::new(8 + 20 + 6, 0, 20, 30));
    assert_eq!(out.center[0], Rect::new(500 - 25, 0, 50, 30));
    assert_eq!(out.right[0], Rect::new(1000 - 8 - 66, 0, 30, 30));
    assert_eq!(out.right[1], Rect::new(1000 - 8 - 30, 0, 30, 30));
    assert_eq!(out.slot((SEC_RIGHT, 1)), Some(Rect::new(1000 - 8 - 30, 0, 30, 30)));
    assert_eq!(out.slot((SEC_CENTER, 5)), None);
}

#[test]
fn pill_ends_are_inset_by_the_corner_keyline() {
    for radius in [0, 2, 15, 30] {
        assert!(end_inset(radius) >= 0);
        assert!(end_inset(radius) <= radius / 3 + 1, "the inset stays a corner correction, not a margin");
    }
    assert_eq!(end_inset(0), 0, "a square bar needs no corner correction");
    assert_eq!(end_inset(15), 4);
    assert_eq!(end_inset(30), 9);
    assert_eq!(end_inset(-5), 0);
    assert_eq!(end_inset(1), 0);
}

#[test]
fn both_ends_keep_only_the_padding() {
    let t = Theme::defaults(30);
    let out = layout(&widths(&[10], &[], &[10]), 1000, &t);
    assert_eq!(out.left[0].x, t.padding);
    assert_eq!(out.right[0].right(), 1000 - t.padding);
}

#[test]
fn empty_sections_stay_empty() {
    let t = Theme::defaults(30);
    let out = layout(&widths(&[], &[], &[]), 1000, &t);
    assert!(out.left.is_empty() && out.right.is_empty() && out.center.is_empty());
}

#[test]
fn center_wins_overlap_and_sides_are_truncated() {
    let t = Theme::defaults(30);
    let out = layout(&widths(&[480, 100], &[200], &[480]), 1000, &t);
    let center_left = out.center[0].x;
    for r in &out.left {
        assert!(r.right() <= center_left - t.spacing, "left overlaps center: {r:?} vs {center_left}");
        assert!(r.w >= 0);
    }
    for r in &out.right {
        assert!(r.x >= out.center[0].right() + t.spacing, "right overlaps center: {r:?}");
        assert!(r.x + r.w <= 1000 - t.padding);
    }
}

#[test]
fn truncated_sides_are_cut_exactly() {
    let t = Theme::defaults(30);
    let out = layout(&widths(&[480, 100], &[200], &[480]), 1000, &t);
    // center: 400..600; left limit 394, right limit 606
    assert_eq!(out.center[0], Rect::new(400, 0, 200, 30));
    assert_eq!(out.left[0], Rect::new(8, 0, 386, 30));
    assert_eq!(out.left[1], Rect::new(394, 0, 0, 30));
    assert_eq!(out.right[0], Rect::new(606, 0, 386, 30));
}

#[test]
fn modules_that_draw_nothing_take_no_gap() {
    let t = Theme::defaults(30);
    let out = layout(&widths(&[10, 0, 10], &[], &[0, 20]), 200, &t);
    assert_eq!(out.left[1].x, 8 + 10 + 6);
    assert_eq!(out.left[2].x, 8 + 10 + 6, "the empty module takes no gap");
    assert_eq!(out.right[1], Rect::new(200 - 8 - 20, 0, 20, 30));
}

#[test]
fn negative_padding_and_spacing_count_as_zero() {
    let mut t = Theme::defaults(30);
    t.padding = -4;
    t.spacing = -2;
    let out = layout(&widths(&[10, 10], &[], &[]), 100, &t);
    assert_eq!(out.left[0].x, 0);
    assert_eq!(out.left[1].x, 10);
}

#[test]
fn sections_are_built_from_the_config() {
    let cfg = config(
        vec![ModuleSpec::Clock { format: "%H".into() }],
        vec![],
        vec![ModuleSpec::Exec { command: "echo 1".into(), format: "{out}".into() }],
    );
    let (s, jobs) = Sections::from_config(&cfg);
    assert_eq!(s.left.len(), 1);
    assert_eq!(s.right.len(), 1);
    assert!(!s.left[0].spans().is_empty());
    assert!(!s.left[0].spans()[0].text.is_empty(), "the clock shows the time before the first tick");
    assert_eq!(jobs, vec![(1, "echo 1".to_string())]);
    assert_eq!(s.notif_at(), None);
    assert_eq!(s.notif_width(), 0);
}

#[test]
fn exec_modules_are_numbered_across_sections() {
    let exec = |c: &str| ModuleSpec::Exec { command: c.into(), format: "<{out}>".into() };
    let cfg = config(
        vec![exec("a"), ModuleSpec::Clock { format: "%H".into() }, exec("b")],
        vec![exec("c")],
        vec![exec("d")],
    );
    let (mut s, jobs) = Sections::from_config(&cfg);
    let ids: Vec<usize> = jobs.iter().map(|j| j.0).collect();
    assert_eq!(ids, vec![1, 2, 3, 4]);
    let cmds: Vec<&str> = jobs.iter().map(|j| j.1.as_str()).collect();
    assert_eq!(cmds, vec!["a", "b", "c", "d"]);
    assert!(s.update(&Event::Line { id: 3, text: "x".into() }));
    assert_eq!(s.center[0].spans()[0].text, "<x>");
    assert_eq!(s.right[0].spans()[0].text, "<>");
    assert!(!s.update(&Event::Line { id: 3, text: "x".into() }), "nothing changed");
    assert!(!s.update(&Event::Line { id: 9, text: "x".into() }), "no module has that id");
    match &s.left[2] {
        BarModule::Exec(e) => assert_eq!(e.id, 2),
        BarModule::Clock(_) => panic!("expected an exec module"),
    }
}

#[test]
fn reserved_width_is_never_negative() {
    let (mut s, _) = Sections::from_config(&config(vec![], vec![], vec![]));
    s.set_notif_width(240);
    assert_eq!(s.notif_width(), 240);
    s.set_notif_width(-3);
    assert_eq!(s.notif_width(), 0);
}

#[test]
fn layout_inputs_are_checked_before_use() {
    let t = Theme::defaults(30);
    assert!(cornice::bar::fits_layout(&widths(&[20, 20], &[50], &[30]), 1000, &t));
    assert!(!cornice::bar::fits_layout(&widths(&[i32::MAX], &[], &[]), 1000, &t));
    assert!(cornice::bar::fits_layout(&widths(&[], &[], &[]), i32::MAX, &t), "nothing to add up");
    assert!(!cornice::bar::fits_layout(&widths(&[], &[], &[]), i32::MIN, &t), "the right edge is below i32::MIN");
    assert!(cornice::bar::fits_layout(&widths(&[20, 20], &[50], &[30]), 1 << 29, &t), "wide outputs are fine");
    let out = layout(&widths(&[20, 20], &[50], &[30]), 1 << 29, &t);
    assert_eq!(out.left[1].x, 8 + 20 + 6);
    assert_eq!(out.center[0].x, (1 << 28) - 25);
    assert_eq!(out.right[0].x, (1 << 29) - 8 - 30);
    let mut wide = Theme::defaults(30);
    wide.spacing = 0x2000_0000;
    assert!(cornice::bar::fits_layout(&widths(&[], &[], &[]), 1000, &wide));
    assert!(!cornice::bar::fits_layout(&widths(&[1, 1, 1, 1], &[], &[]), 1000, &wide), "the pen passes i32::MAX");
    assert!(!cornice::bar::fits_layout(&widths(&[], &[i32::MAX, 1], &[]), 1000, &t), "the center sum overflows");
    assert!(cornice::bar::fits_layout(&widths(&[-5, 5], &[], &[]), 1000, &t), "negative widths are allowed");
}

#[test]
fn the_center_block_keeps_its_rhythm() {
    let t = Theme::defaults(30);
    let out = layout(&widths(&[], &[40, 0, 30, 20], &[]), 1001, &t);
    // extent 40 + 30 + 20 + 2 gaps = 102; starts at 500 - 51
    assert_eq!(out.center[0].x, 449);
    assert_eq!(out.center[2].x, out.center[0].x + 40 + 6);
    assert_eq!(out.center[3].x, out.center[2].x + 30 + 6);
    let centre_twice = 2 * out.center[0].x + 102;
    assert!((centre_twice - 1001).abs() <= 1, "centred on the midline");
}
