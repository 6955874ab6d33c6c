use cornice::geom::Rect;
use cornice::notify::queue::{Notification, Urgency};
use cornice::notify::view::{
    button_rect, cards, hit, room_for_button, side_margin, surface_top, top_margin, urgency_color, Motion,
};
use cornice::text::first_line;
use cornice::theme::Theme;
use cornice::widget::Action;

fn note(id: u32, summary: &str, body: &str) -> Notification {
    Notification {
        id,
        app_name: "Test".into(),
        summary: summary.into(),
        body: body.into(),
        urgency: Urgency::Normal,
        expire: None,
        actions: vec![],
        created: 0,
    }
}

fn divider_height(theme: &Theme) -> i32 {
    (theme.card_gap / 3).max(1)
}

#[test]
fn every_visible_notification_gets_its_own_card() {
    let theme = Theme::defaults(30);
    let notes = [note(3, "New", ""), note(2, "Middle", "one\ntwo"), note(1, "Old", "")];
    let cards = cards(&notes, &theme);
    assert_eq!(cards.iter().map(|card| card.id).collect::<Vec<_>>(), vec![3, 2, 1]);
    assert!(cards.windows(2).all(|pair| pair[1].top == pair[0].top + pair[0].rect.h + theme.card_gap));
    assert!(cards.iter().all(|card| card.rect.w == theme.card_w && card.top >= 0));
}

#[test]
fn card_height_grows_with_content_but_has_a_derived_minimum() {
    let theme = Theme::defaults(30);
    let short = cards(&[note(1, "Short", "")], &theme);
    let long = cards(&[note(1, "Long", "one\ntwo\nthree\nfour\nfive")], &theme);
    assert_eq!(short[0].rect.h, theme.card_min_h());
    assert!(long[0].rect.h > short[0].rect.h);
}

#[test]
fn detail_rows_follow_the_derived_separator_rhythm() {
    let theme = Theme::defaults(30);
    let with_body = cards(&[note(1, "Subject", "one\ntwo")], &theme);
    let divider = with_body[0].divider.unwrap();
    assert_eq!(divider, with_body[0].summary + theme.line_height + theme.card_gap / 2);
    assert_eq!(with_body[0].body, Some(divider + divider_height(&theme)));
}

#[test]
fn action_only_card_starts_below_the_headline() {
    let theme = Theme::defaults(30);
    let mut notification = note(1, "Subject", "");
    notification.actions = vec![("open".into(), "Open".into())];
    let card = &cards(&[notification], &theme)[0];
    assert!(card.actions.unwrap() > card.summary + theme.line_height);
    assert!(card.divider.is_some());
}

#[test]
fn cards_start_below_the_bar_at_a_derived_edge_inset() {
    let theme = Theme::defaults(30);
    assert_eq!(top_margin(&theme, 4), 4 + theme.height + theme.card_gap);
    assert_eq!(surface_top(&theme, 4, 0), 4 + theme.height + theme.card_gap);
    assert_eq!(surface_top(&theme, 4, 81), 4 + theme.height + theme.card_gap + 81);
    assert_eq!(side_margin(&theme), theme.card_gap * 2);
}

#[test]
fn headline_fields_cannot_add_visual_rows() {
    assert_eq!(first_line("title\nspoofed second row"), "title");
    assert_eq!(first_line(""), "");
}

#[test]
fn hit_testing_matches_buttons_only() {
    let hits = vec![
        (Rect::new(10, 10, 50, 20), Action::NotificationAction { id: 1, key: "open".into() }),
        (Rect::new(70, 10, 50, 20), Action::NotificationClose(1)),
    ];
    assert_eq!(hit(&hits, 20, 15), Some(Action::NotificationAction { id: 1, key: "open".into() }));
    assert_eq!(hit(&hits, 80, 15), Some(Action::NotificationClose(1)));
    assert_eq!(hit(&hits, 200, 15), None);
}

#[test]
fn earlier_hit_rects_win() {
    let hits = vec![
        (Rect::new(10, 10, 20, 20), Action::NotificationAction { id: 1, key: "a".into() }),
        (Rect::new(0, 0, 100, 100), Action::NotificationClose(1)),
    ];
    assert_eq!(hit(&hits, 15, 15), Some(Action::NotificationAction { id: 1, key: "a".into() }));
    assert_eq!(hit(&hits, 50, 50), Some(Action::NotificationClose(1)));
    assert_eq!(hit(&hits, 100, 50), None);
}

#[test]
fn card_geometry_for_the_default_theme() {
    // height 30: line 15, gap 6, padding 15, minimum card 75, width 300
    let theme = Theme::defaults(30);
    let plain = &cards(&[note(1, "s", "")], &theme)[0];
    assert_eq!(plain.rect, Rect::new(0, 0, 300, 75));
    assert_eq!(plain.summary, 30, "one line centred in the minimum height");
    assert_eq!((plain.divider, plain.body, plain.actions), (None, None, None));
    // two body rows: 15 + 3 + 2 + 30 = 50 of content; 80 tall; shift 15
    let body = &cards(&[note(2, "s", "a\nb")], &theme)[0];
    assert_eq!(body.rect.h, 80);
    assert_eq!(body.summary, 15);
    assert_eq!(body.divider, Some(33));
    assert_eq!(body.body, Some(35));
    assert_eq!(body.actions, None);
    // body and actions: 50 + 3 + 15 = 68 of content; 98 tall
    let mut n = note(3, "s", "a\nb");
    n.actions = vec![("k".into(), "Go".into())];
    let both = &cards(&[n], &theme)[0];
    assert_eq!(both.rect.h, 98);
    assert_eq!(both.actions, Some(15 + 53));
    // blank labels do not make an action row
    let mut blank = note(4, "s", "");
    blank.actions = vec![("k".into(), "  \nsecond".into())];
    assert_eq!(cards(&[blank], &theme)[0].actions, None);
    // more than five body lines still shows five rows
    let six = &cards(&[note(5, "s", "1\n2\n3\n4\n5\n6")], &theme)[0];
    let five = &cards(&[note(5, "s", "1\n2\n3\n4\n5")], &theme)[0];
    assert_eq!(six.rect.h, five.rect.h);
}

#[test]
fn critical_headlines_are_red() {
    let theme = Theme::defaults(30);
    assert_eq!(urgency_color(Urgency::Critical, &theme), cornice::geom::Color::rgba(0xff, 0x5f, 0x56, 0xff));
    assert_eq!(urgency_color(Urgency::Low, &theme), theme.foreground);
    assert_eq!(urgency_color(Urgency::Normal, &theme), theme.foreground);
}

#[test]
fn exiting_one_card_leaves_the_others_alone() {
    let now = 1_000;
    let mut entering = Motion::new(now, 0, 200);
    let other = Motion::new(now, 100, 200);
    assert!(entering.is_animating(now));
    entering.begin_exit(now, 0, 160);
    assert!(entering.is_exiting());
    assert!(!other.is_exiting(), "one card exiting must not put the whole column in the same state");
    assert!(entering.is_animating(now + 159));
    assert!(!entering.is_animating(now + 160));
    let frozen = entering;
    entering.begin_exit(now + 50, 40, 500);
    assert_eq!(entering, frozen, "a second exit changes nothing");
}

#[test]
fn retarget_moves_only_live_cards_to_new_tops() {
    let now = 1_000;
    let mut motion = Motion::new(now, 80, 0);
    assert!(!motion.retarget(now, 80, 80, 200), "already headed there");
    assert!(motion.retarget(now, 80, 20, 200));
    assert_eq!((motion.from_top, motion.to_top), (80, 20));
    assert!(motion.is_animating(now + 199));
    assert!(!motion.is_animating(now + 200));
    motion.begin_exit(now + 300, 20, 100);
    assert!(!motion.retarget(now + 300, 20, 0, 200), "an exiting card stays put");
    assert_eq!(motion.exit_top, 20);
}

#[test]
fn action_buttons_stay_inside_the_card() {
    // inner edge at 285; a label far too wide is cut at the edge
    let b = button_rect(15, 60, 4000, 7, 285, 15);
    assert_eq!(b, Rect::new(15, 60, 270, 15));
    assert!(b.x + b.w <= 285);
    let b = button_rect(15, 60, 30, 7, 285, 15);
    assert_eq!(b.w, 44);
    assert!(room_for_button(256, 285, 15, 7));
    assert!(!room_for_button(257, 285, 15, 7), "less than a line plus padding is left");
}

#[test]
fn hit_stops_at_the_first_rect_that_holds_the_point() {
    let hits = vec![
        (Rect::new(0, 0, 10, 10), Action::NotificationClose(1)),
        (Rect::new(i32::MAX - 1, 0, 5, 5), Action::NotificationClose(2)),
    ];
    assert_eq!(hit(&hits, 3, 3), Some(Action::NotificationClose(1)));
    let left_of_it = vec![(Rect::new(100, 0, i32::MAX, 5), Action::NotificationClose(3))];
    assert_eq!(hit(&left_of_it, 3, 3), None, "a point left of the rect never needs its right edge");
}
