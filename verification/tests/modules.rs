use cornice::bar::modules::apply_format;
use cornice::bar::{Clock, Exec};
use cornice::widget::{Event, Module};

#[test]
fn format_substitution() {
    assert_eq!(apply_format("{out}%", "42"), "42%");
    assert_eq!(apply_format("L{out} / {out}", "1"), "L1 / 1");
    assert_eq!(apply_format("", "42"), "42");
    assert_eq!(apply_format("static", "42"), "static");
}

#[test]
fn exec_only_reacts_to_its_own_id() {
    let mut e = Exec::new(3, "[{out}]".into());
    assert!(!e.update(&Event::Line { id: 2, text: "x".into() }));
    assert!(e.update(&Event::Line { id: 3, text: "7".into() }));
    assert_eq!(e.spans()[0].text, "[7]");
    assert!(!e.update(&Event::Line { id: 3, text: "7".into() }), "an unchanged value is not dirty");
}

#[test]
fn clock_ticks_on_wake() {
    let mut c = Clock::new("%H:%M:%S".into());
    let first = c.spans()[0].text.clone();
    assert!(!first.is_empty());
    let _ = c.update(&Event::Wake);
    assert!(!c.update(&Event::Line { id: 0, text: "x".into() }));
}

#[test]
fn clock_reads_the_time_through_chrono() {
    let c = Clock::new("%Y".into());
    assert_eq!(c.text.len(), 4);
    assert!(c.text.chars().all(|ch| ch.is_ascii_digit()));
    let fixed = Clock::new("static".into());
    assert_eq!(fixed.spans()[0].text, "static");
}

#[test]
fn a_pattern_chrono_rejects_shows_nothing() {
    let mut c = Clock::new("%Q".into());
    assert_eq!(c.text, "");
    assert!(!c.update(&Event::Wake));
}

#[test]
fn format_edges() {
    assert_eq!(apply_format("{out}{out}", "ab"), "abab");
    assert_eq!(apply_format("{ou{out}t}", "x"), "{ouxt}");
    assert_eq!(apply_format("{out", "x"), "{out");
    assert_eq!(apply_format("{out}", ""), "");
    let e = Exec::new(1, String::new());
    assert_eq!(e.rendered(), "");
}

#[test]
fn wake_does_not_touch_exec_modules() {
    let mut e = Exec::new(1, "{out}".into());
    assert!(e.update(&Event::Line { id: 1, text: "a".into() }));
    assert!(!e.update(&Event::Wake));
    assert_eq!(e.latest, "a");
}

#[test]
fn a_reading_changes_the_clock_only_when_it_differs() {
    let mut c = Clock::showing("%H:%M".into(), Some("09:19".into()));
    assert_eq!(c.text, "09:19");
    assert!(!c.tick(Some("09:19".into())));
    assert!(c.tick(Some("09:20".into())));
    assert_eq!(c.spans()[0].text, "09:20");
    assert!(!c.tick(None), "no reading leaves the time shown");
    assert_eq!(c.text, "09:20");
    assert_eq!(Clock::showing("%Q".into(), None).text, "");
}
