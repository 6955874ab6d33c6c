use cornice::config::{
    parse, Config, Located, ModuleSpec, NotificationPosition, RawBar, RawConfig, RawNotification, RawTheme,
};

fn raw() -> RawConfig {
    RawConfig {
        bar: RawBar { height: None, margin: None, padding: None, spacing: None, left: vec![], center: vec![], right: vec![] },
        theme: RawTheme { background: None, foreground: None, accent: None, line_height: None },
        notification: None,
    }
}

fn notification_defaults() -> RawNotification {
    RawNotification { position: None, max_visible: 4, enter_ms: 220, exit_ms: 160 }
}

fn at<T>(value: T, at: usize) -> Option<Located<T>> {
    Some(Located { value, at })
}

fn err(text: &str, r: RawConfig) -> String {
    match parse(text, r) {
        Ok(_) => panic!("expected an error"),
        Err(e) => e,
    }
}

fn ok(text: &str, r: RawConfig) -> Config {
    match parse(text, r) {
        Ok(c) => c,
        Err(e) => panic!("unexpected error: {e}"),
    }
}

const SAMPLE: &str = r##"
[bar]
height = 30
margin = 0
padding = 8
spacing = 6

[theme]
background = "#1a1a1aee"
foreground = "#dcdcdc"
font = "Inter 11"

[bar.left]
modules = [ { kind = "clock", format = "%H:%M" } ]

[bar.center]
modules = []

[bar.right]
modules = [ { kind = "exec", command = "echo hi", format = "{out}!" } ]

[notification]
position = "left"
max_visible = 3
"##;

fn offset_of(text: &str, needle: &str) -> usize {
    text.find(needle).unwrap() + needle.len()
}

#[test]
fn parses_sample_and_derives_defaults() {
    let mut r = raw();
    r.bar.height = at(30, offset_of(SAMPLE, "height = "));
    r.bar.margin = Some(0);
    r.bar.padding = Some(8);
    r.bar.spacing = Some(6);
    r.theme.background = at("#1a1a1aee".to_string(), offset_of(SAMPLE, "background = "));
    r.theme.foreground = at("#dcdcdc".to_string(), offset_of(SAMPLE, "foreground = "));
    // "Inter 11": 11 px lines are 1.35 em tall, 15 px rounded up
    r.theme.line_height = Some(15);
    r.bar.left = vec![ModuleSpec::Clock { format: "%H:%M".into() }];
    r.bar.right = vec![ModuleSpec::Exec { command: "echo hi".into(), format: "{out}!".into() }];
    r.notification = Some(RawNotification {
        position: at("left".to_string(), offset_of(SAMPLE, "position = ")),
        max_visible: 3,
        ..notification_defaults()
    });
    let c = ok(SAMPLE, r);
    assert_eq!(c.bar.height, 30);
    assert_eq!(c.theme.padding, 8);
    assert_eq!(c.theme.spacing, 6);
    assert_eq!(c.bar.left.len(), 1);
    assert!(c.bar.center.is_empty());
    assert!(matches!(c.bar.right[0], ModuleSpec::Exec { .. }));
    assert_eq!(c.theme.background.a, 0xee);
    assert_eq!(c.theme.line_height, 15);
    let notification = c.notification.as_ref().expect("[notification] enables cards");
    assert_eq!(notification.position, NotificationPosition::Left);
    assert_eq!(notification.max_visible, 3);
    assert_eq!(notification.enter_ms, 220, "the default when absent");
}

#[test]
fn notification_section_is_optional_and_defaults_to_right() {
    assert!(ok("", raw()).notification.is_none());
    let mut r = raw();
    r.notification = Some(notification_defaults());
    let c = ok("[notification]\n", r);
    assert_eq!(c.notification.unwrap().position, NotificationPosition::Right);
}

#[test]
fn notification_position_accepts_only_three_anchors() {
    for (position, expected) in [
        ("left", NotificationPosition::Left),
        ("center", NotificationPosition::Center),
        ("right", NotificationPosition::Right),
    ] {
        let text = format!("[notification]\nposition = {position:?}\n");
        let mut r = raw();
        r.notification = Some(RawNotification {
            position: at(position.to_string(), offset_of(&text, "position = ")),
            ..notification_defaults()
        });
        let c = ok(&text, r);
        assert_eq!(c.notification.unwrap().position, expected);
    }
    let text = "[notification]\nposition = \"middle\"\n";
    let mut r = raw();
    r.notification = Some(RawNotification {
        position: at("middle".to_string(), offset_of(text, "position = ")),
        ..notification_defaults()
    });
    let error = err(text, r);
    assert!(error.starts_with("2:"), "the invalid position points at its line:column: {error}");
    assert!(error.contains("notification.position"), "{error}");
    assert_eq!(error, "2:12: notification.position: expected left, center, or right");
}

#[test]
fn bar_height_derives_notification_proportions() {
    let text = "[bar]\nheight = 24\n";
    let mut r = raw();
    r.bar.height = at(24, offset_of(text, "height = "));
    let c = ok(text, r);
    assert_eq!(c.theme.card_gap, 4);
    assert!(c.bar.left.is_empty() && c.bar.right.is_empty());
    assert_eq!(c.bar.height, 24);
}

#[test]
fn bad_color_reports_line_number() {
    let text = "[theme]\nbackground = \"zzzzzz\"\n";
    let mut r = raw();
    r.theme.background = at("zzzzzz".to_string(), offset_of(text, "background = "));
    let e = err(text, r);
    assert!(e.starts_with("2:"), "the error message should start with `line:col:`: {e}");
    assert!(e.contains("theme.background"), "{e}");
    assert_eq!(e, "2:14: theme.background: bad colour format: \"zzzzzz\" (expected #rgb / #rrggbb / #rrggbbaa)");
}

#[test]
fn out_of_range_height_is_rejected_with_line_and_column() {
    for (input, value, shown) in [
        ("[bar]\nheight = -1\n", -1, "-1"),
        ("[bar]\nheight = 0\n", 0, "0"),
        ("[bar]\nheight = 4096\n", 4096, "4096"),
    ] {
        let mut r = raw();
        r.bar.height = at(value, offset_of(input, "height = "));
        let e = err(input, r);
        assert!(e.starts_with("2:"), "the error message should start with `line:col:`: {e}");
        assert!(e.contains("bar.height"), "{e}");
        assert!(e.contains(shown), "{e}");
    }
}

#[test]
fn height_range_edges_are_accepted() {
    for h in [1, 24, 30, 40, 256] {
        let input = format!("[bar]\nheight = {h}\n");
        let mut r = raw();
        r.bar.height = at(h, offset_of(&input, "height = "));
        assert_eq!(ok(&input, r).bar.height, h);
    }
    assert_eq!(ok("[bar]\n", raw()).bar.height, 30);
}

#[test]
fn height_error_message_is_exact() {
    let input = "[bar]\nheight = -1\n";
    let mut r = raw();
    r.bar.height = at(-1, offset_of(input, "height = "));
    assert_eq!(err(input, r), "2:10: bar.height: bar height must be within 1..=256 pixels, currently -1");
}

#[test]
fn the_height_is_checked_before_the_colours() {
    let text = "[bar]\nheight = 0\n[theme]\naccent = \"nope\"\n";
    let mut r = raw();
    r.bar.height = at(0, offset_of(text, "height = "));
    r.theme.accent = at("nope".to_string(), offset_of(text, "accent = "));
    assert!(err(text, r).contains("bar.height"));
    let mut r = raw();
    r.theme.accent = at("nope".to_string(), offset_of(text, "accent = "));
    assert_eq!(err(text, r), "4:10: theme.accent: bad colour format: \"nope\" (expected #rgb / #rrggbb / #rrggbbaa)");
}

#[test]
fn columns_count_bytes_and_offsets_past_the_end_count_as_the_end() {
    let text = "[theme]\nforeground = \"#zz\"";
    let mut r = raw();
    r.theme.foreground = at("#zz".to_string(), 10_000);
    assert!(err(text, r).starts_with("2:19: theme.foreground: "));
}

#[test]
fn absent_keys_keep_the_derived_defaults() {
    let c = ok("", raw());
    assert_eq!(c.bar.height, 30);
    assert_eq!(c.bar.margin, 0);
    assert_eq!(c.theme.padding, 8);
    assert_eq!(c.theme.spacing, 6);
    assert_eq!(c.theme.line_height, 15);
    assert_eq!(c.theme.accent, cornice::geom::Color::rgba(0x88, 0xc0, 0xd0, 0xff));
    let mut r = raw();
    r.notification = Some(RawNotification { max_visible: 0, ..notification_defaults() });
    assert_eq!(ok("", r).notification.unwrap().max_visible, 1, "at least one card is shown");
}
