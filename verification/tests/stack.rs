use cornice::config::NotificationPosition;
use cornice::geom::Rect;
use cornice::notify::queue::{Notification, Urgency};
use cornice::notify::stack::{copy_notification, notification_eq, Stack};
use cornice::notify::view::{cards, checked_cards, input_hits, press, surface_margins, BTN_LEFT, BTN_MIDDLE};
use cornice::theme::Theme;
use cornice::widget::Action;

fn note(id: u32, summary: &str, body: &str) -> Notification {
    Notification {
        id,
        app_name: "Test".into(),
        summary: summary.into(),
        body: body.into(),
        urgency: Urgency::Normal,
        expire: None,
        actions: vec![],
        created: 0,
    }
}

fn tops(s: &Stack) -> Vec<i32> {
    s.shown().iter().map(|c| c.motion.to_top).collect()
}

fn ids(s: &Stack) -> Vec<u32> {
    s.shown().iter().map(|c| c.card.id).collect()
}

const TIMING: Option<(u64, u64)> = Some((220, 160));

#[test]
fn a_new_notification_gets_a_card_that_enters() {
    let theme = Theme::defaults(30);
    let mut s = Stack::new();
    let visible = vec![note(1, "a", "")];
    let r = s.sync(&tops(&s), &visible, &theme, 1_000, TIMING);
    assert!(r.changed);
    assert_eq!(r.created, vec![1]);
    assert!(r.removed.is_empty() && r.resized.is_empty());
    assert!(r.animating);
    assert_eq!(ids(&s), vec![1]);
    let shown = &s.shown()[0];
    assert_eq!(shown.card, cards(&visible, &theme)[0]);
    assert_eq!(shown.motion.enter.start, 1_000);
    assert_eq!(shown.motion.enter.dur, 220);
    // once the entrance is over, a sync with nothing new changes nothing
    let r = s.sync(&tops(&s), &visible, &theme, 1_220, TIMING);
    assert!(!r.changed);
    assert!(!r.animating);
    assert!(r.created.is_empty());
}

#[test]
fn a_closed_notification_exits_and_then_goes() {
    let theme = Theme::defaults(30);
    let mut s = Stack::new();
    s.sync(&tops(&s), &[note(1, "a", ""), note(2, "b", "")], &theme, 0, TIMING);
    // the first card leaves the queue; the second moves up
    let r = s.sync(&tops(&s), &[note(2, "b", "")], &theme, 1_000, TIMING);
    assert!(r.changed);
    assert!(r.removed.is_empty(), "the leaving card keeps its surface while it fades");
    assert_eq!(ids(&s), vec![1, 2]);
    let leaving = &s.shown()[0];
    assert!(leaving.motion.is_exiting());
    assert_eq!(leaving.notification.summary, "a", "it keeps its own copy");
    let moving = &s.shown()[1];
    assert_eq!(moving.motion.to_top, 0);
    assert_eq!(moving.motion.from_top, 81, "it moves from where it was: 75 + gap 6");
    assert!(r.animating);
    // after the exit's 160 ms the card is dropped
    let r = s.sync(&tops(&s), &[note(2, "b", "")], &theme, 1_160, TIMING);
    assert_eq!(r.removed, vec![1]);
    assert!(r.changed);
    assert_eq!(ids(&s), vec![2]);
    assert!(r.animating, "the move lasts enter_ms");
    let r = s.sync(&tops(&s), &[note(2, "b", "")], &theme, 1_220, TIMING);
    assert!(!r.animating && !r.changed);
}

#[test]
fn a_replacement_updates_in_place_without_a_new_entrance() {
    let theme = Theme::defaults(30);
    let mut s = Stack::new();
    s.sync(&tops(&s), &[note(1, "a", "")], &theme, 0, TIMING);
    let r = s.sync(&tops(&s), &[note(1, "a2", "one\ntwo")], &theme, 5_000, TIMING);
    assert!(r.changed);
    assert!(r.created.is_empty());
    assert_eq!(r.resized, vec![1], "two body rows make the card taller");
    let shown = &s.shown()[0];
    assert_eq!(shown.notification.summary, "a2");
    assert_eq!(shown.motion.enter.start, 0, "the entrance is not played again");
    assert_eq!(shown.card.rect.h, 80);
}

#[test]
fn without_a_notification_section_nothing_is_shown() {
    let theme = Theme::defaults(30);
    let mut s = Stack::new();
    s.sync(&tops(&s), &[note(1, "a", ""), note(2, "b", "")], &theme, 0, TIMING);
    let r = s.sync(&tops(&s), &[note(1, "a", "")], &theme, 10, None);
    assert!(r.changed);
    assert_eq!(r.removed, vec![1, 2]);
    assert!(s.shown().is_empty());
    let r = s.sync(&tops(&s), &[note(1, "a", "")], &theme, 20, None);
    assert!(!r.changed);
}

#[test]
fn a_zero_length_exit_goes_at_once() {
    let theme = Theme::defaults(30);
    let mut s = Stack::new();
    s.sync(&tops(&s), &[note(1, "a", "")], &theme, 0, Some((0, 0)));
    let r = s.sync(&tops(&s), &[], &theme, 1, Some((0, 0)));
    assert_eq!(r.removed, vec![1]);
    assert!(s.shown().is_empty());
    assert!(!r.animating);
}

#[test]
fn a_duplicate_id_gets_one_card() {
    let theme = Theme::defaults(30);
    let mut s = Stack::new();
    let r = s.sync(&tops(&s), &[note(4, "x", ""), note(4, "y", "")], &theme, 0, TIMING);
    assert_eq!(r.created, vec![4]);
    assert_eq!(s.shown()[0].notification.summary, "x");
}

#[test]
fn copies_compare_equal() {
    let mut n = note(3, "s", "b");
    n.actions = vec![("k".into(), "Label".into())];
    let c = copy_notification(&n);
    assert!(notification_eq(&c, &n));
    let mut d = copy_notification(&n);
    d.actions[0].1 = "Other".into();
    assert!(!notification_eq(&d, &n));
    let mut e = copy_notification(&n);
    e.expire = Some(5);
    assert!(!notification_eq(&e, &n));
}

#[test]
fn hit_targets_put_buttons_first_and_clip_them() {
    let buttons = vec![
        (Rect::new(10, 10, 40, 20), Action::NotificationAction { id: 1, key: "a".into() }),
        (Rect::new(200, 10, 40, 20), Action::NotificationAction { id: 1, key: "b".into() }),
    ];
    let shown = Rect::new(5, 5, 100, 100);
    let hits = input_hits(&buttons, shown, 1, true);
    assert_eq!(
        hits,
        vec![
            (Rect::new(10, 10, 40, 20), Action::NotificationAction { id: 1, key: "a".into() }),
            (shown, Action::NotificationClose(1)),
        ]
    );
    assert!(input_hits(&buttons, shown, 1, false).is_empty(), "an exiting card takes no clicks");
    assert_eq!(press(&hits, 12, 12, BTN_LEFT), Some((1, Some("a".to_string()))));
    assert_eq!(press(&hits, 12, 12, BTN_MIDDLE), None, "a middle click does not invoke an action");
    assert_eq!(press(&hits, 90, 90, BTN_MIDDLE), Some((1, None)));
    assert_eq!(press(&hits, 90, 90, BTN_LEFT), Some((1, None)));
    assert_eq!(press(&hits, 90, 90, 0x111), None);
    assert_eq!(press(&hits, 300, 300, BTN_LEFT), None);
}

#[test]
fn surfaces_hug_their_side() {
    let theme = Theme::defaults(30);
    assert_eq!(surface_margins(&theme, 4, 81, NotificationPosition::Left), (4 + 30 + 6 + 81, 0, 0, 12));
    assert_eq!(surface_margins(&theme, 4, 0, NotificationPosition::Right), (40, 12, 0, 0));
    assert_eq!(surface_margins(&theme, 0, 0, NotificationPosition::Center), (36, 0, 0, 0));
}

#[test]
fn a_forgotten_card_is_built_afresh() {
    let theme = Theme::defaults(30);
    let mut s = Stack::new();
    s.sync(&tops(&s), &[note(1, "a", ""), note(2, "b", "")], &theme, 0, TIMING);
    s.forget(1);
    assert_eq!(ids(&s), vec![2]);
    s.forget(9);
    assert_eq!(ids(&s), vec![2]);
    let r = s.sync(&tops(&s), &[note(1, "a", ""), note(2, "b", "")], &theme, 5_000, TIMING);
    assert_eq!(r.created, vec![1]);
    assert_eq!(ids(&s), vec![2, 1]);
    assert_eq!(s.shown()[1].motion.enter.start, 5_000, "it enters again");
}

#[test]
fn checked_cards_refuse_what_cannot_be_laid_out() {
    let theme = Theme::defaults(30);
    let visible = vec![note(1, "a", ""), note(2, "b", "x")];
    assert_eq!(checked_cards(&visible, &theme), Some(cards(&visible, &theme)));
    let mut roomy = Theme::defaults(30);
    roomy.card_padding = 0x1000_0000;
    let laid = checked_cards(&visible, &roomy).expect("large cards still fit in an i32");
    assert_eq!(laid[0].rect.h, 15 + 2 * 0x1000_0000);
    assert_eq!(laid[1].top, laid[0].rect.h + roomy.card_gap);
    let mut huge = Theme::defaults(30);
    huge.card_padding = 0x4000_0000;
    assert_eq!(checked_cards(&visible, &huge), None);
    let mut tall = Theme::defaults(30);
    tall.card_padding = 0x80_0000;
    tall.card_gap = 0x80_0000;
    let many: Vec<Notification> = (0..200).map(|i| note(i, "s", "")).collect();
    assert_eq!(checked_cards(&many, &tall), None, "the column would not fit in an i32");
}

#[test]
fn cards_stack_with_a_negative_gap() {
    let mut theme = Theme::defaults(30);
    theme.card_gap = -10;
    let visible = vec![note(1, "a", ""), note(2, "b", "")];
    let laid = checked_cards(&visible, &theme).expect("a negative gap is laid out");
    assert_eq!(laid, cards(&visible, &theme));
    assert_eq!(laid[0].top, 0);
    assert_eq!(laid[0].rect.h, 75);
    assert_eq!(laid[1].top, 65);
}
