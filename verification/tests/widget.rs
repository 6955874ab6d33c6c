use cornice::geom::Color;
use cornice::widget::{copy_action, Action, Span};

#[test]
fn span_helpers() {
    let s = Span::text("hi");
    assert_eq!(s.text, "hi");
    assert!(s.color.is_none() && s.action.is_none());
    let s = Span::text("hi").with_color(Color::rgba(1, 2, 3, 4));
    assert_eq!(s.color.unwrap().r, 1);
}

#[test]
fn span_builders_change_only_their_field() {
    let s = Span::text("x").with_action(Action::NotificationClose(7)).with_color(Color::rgba(9, 9, 9, 9));
    assert_eq!(s.text, "x");
    assert_eq!(s.action, Some(Action::NotificationClose(7)));
    assert_eq!(s.color, Some(Color::rgba(9, 9, 9, 9)));
    assert_eq!(s.bg, None);
}

#[test]
fn copied_actions_are_equal() {
    let a = Action::NotificationAction { id: 3, key: "open".into() };
    assert_eq!(copy_action(&a), a);
}
