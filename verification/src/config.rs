//! Configuration: the checks and defaults applied to the values read from the TOML file, and the
//! validation errors, which carry the `line:column` of the offending value. Reading the file and
//! decoding the TOML document belong to the caller, which hands over the decoded values together
//! with the byte offset where each checked value starts.

use vstd::prelude::*;
use vstd::string::{StringExecFns, StringSliceAdditionalSpecFns};

use crate::geom::{bad_colour_text, hex_color, Color};
use crate::text::{decimal, push_decimal, push_signed, push_str, signed_decimal};
use crate::theme::{default_theme, Theme, DEFAULT_LINE_HEIGHT};

verus! {

#[derive(Clone, PartialEq, Debug)]
pub enum ModuleSpec {
    Clock { format: String },
    Exec { command: String, format: String },
}

/// The clock's format when the config gives none.
pub fn default_clock_format() -> (f: String)
    ensures
        f@ == "%H:%M"@,
{
    String::from_str("%H:%M")
}

#[derive(Clone, Copy, Debug, PartialEq, Eq, Structural)]
pub enum NotificationPosition {
    Left,
    Center,
    Right,
}

#[derive(Clone, Debug)]
pub struct Notification {
    pub position: NotificationPosition,
    pub max_visible: usize,
    pub enter_ms: u64,
    pub exit_ms: u64,
}

#[derive(Clone, Debug)]
pub struct Bar {
    pub height: i32,
    pub margin: i32,
    pub left: Vec<ModuleSpec>,
    pub center: Vec<ModuleSpec>,
    pub right: Vec<ModuleSpec>,
}

#[derive(Clone)]
pub struct Config {
    pub bar: Bar,
    pub theme: Theme,
    /// `None` when the file has no `[notification]` section: the daemon still runs, but no cards
    /// are shown.
    pub notification: Option<Notification>,
}

/// A decoded value and the byte offset in the file where it starts.
#[derive(Clone, Debug)]
pub struct Located<T> {
    pub value: T,
    pub at: usize,
}

/// The `[bar]` table as decoded.
pub struct RawBar {
    pub height: Option<Located<i32>>,
    pub margin: Option<i32>,
    pub padding: Option<i32>,
    pub spacing: Option<i32>,
    pub left: Vec<ModuleSpec>,
    pub center: Vec<ModuleSpec>,
    pub right: Vec<ModuleSpec>,
}

/// The `[theme]` table as decoded. The font string is resolved by the text engine; what the
/// layout takes from it is the height of one line.
pub struct RawTheme {
    pub background: Option<Located<String>>,
    pub foreground: Option<Located<String>>,
    pub accent: Option<Located<String>>,
    pub line_height: Option<i32>,
}

/// The `[notification]` table as decoded; absent keys already hold their defaults (4, 220, 160).
pub struct RawNotification {
    pub position: Option<Located<String>>,
    pub max_visible: usize,
    pub enter_ms: u64,
    pub exit_ms: u64,
}

pub struct RawConfig {
    pub bar: RawBar,
    pub theme: RawTheme,
    pub notification: Option<RawNotification>,
}

pub const DEFAULT_HEIGHT: i32 = 30;

/// Valid bar heights are 1..=256 pixels. The upper bound is defensive: the height sizes every
/// output's buffer, and a mistyped number must not turn into a huge allocation.
pub const HEIGHT_MAX: i32 = 256;

/// Number of newline bytes in `b`.
pub open spec fn newlines(b: Seq<u8>) -> nat
    decreases b.len(),
{
    if b.len() == 0 {
        0
    } else {
        newlines(b.drop_last()) + if b.last() == 10 { 1nat } else { 0 }
    }
}

/// Bytes since the last newline of `b` (all of `b` when it has none).
pub open spec fn since_newline(b: Seq<u8>) -> nat
    decreases b.len(),
{
    if b.len() == 0 {
        0
    } else if b.last() == 10 {
        0
    } else {
        since_newline(b.drop_last()) + 1
    }
}

/// Byte offset → 1-based (line, column) in a text's UTF-8 bytes; offsets past the end count as
/// the end.
pub open spec fn line_col_spec(b: Seq<u8>, offset: int) -> (nat, nat) {
    let upto = b.take(if offset < b.len() { offset } else { b.len() as int });
    (newlines(upto) + 1, since_newline(upto) + 1)
}

/// `line:col: key: detail`.
pub open spec fn located_text(lc: (nat, nat), key: Seq<char>, detail: Seq<char>) -> Seq<char> {
    decimal(lc.0) + ":"@ + decimal(lc.1) + ": "@ + key + ": "@ + detail
}

pub open spec fn height_detail(h: int) -> Seq<char> {
    "bar height must be within 1..=256 pixels, currently "@ + signed_decimal(h)
}

pub open spec fn position_of(s: Seq<char>) -> Option<NotificationPosition> {
    if s == "left"@ {
        Some(NotificationPosition::Left)
    } else if s == "center"@ {
        Some(NotificationPosition::Center)
    } else if s == "right"@ {
        Some(NotificationPosition::Right)
    } else {
        None
    }
}

/// The first problem with a decoded config, as the message `parse` reports: the bar height, then
/// the three colours, then the notification position.
pub open spec fn config_error(b: Seq<u8>, raw: RawConfig) -> Option<Seq<char>> {
    let h = raw.bar.height;
    let bg = raw.theme.background;
    let fg = raw.theme.foreground;
    let ac = raw.theme.accent;
    if h is Some && !(1 <= h.unwrap().value <= HEIGHT_MAX) {
        Some(
            located_text(
                line_col_spec(b, h.unwrap().at as int),
                "bar.height"@,
                height_detail(h.unwrap().value as int),
            ),
        )
    } else if bg is Some && hex_color(bg.unwrap().value@) is None {
        Some(
            located_text(
                line_col_spec(b, bg.unwrap().at as int),
                "theme.background"@,
                bad_colour_text(bg.unwrap().value@),
            ),
        )
    } else if fg is Some && hex_color(fg.unwrap().value@) is None {
        Some(
            located_text(
                line_col_spec(b, fg.unwrap().at as int),
                "theme.foreground"@,
                bad_colour_text(fg.unwrap().value@),
            ),
        )
    } else if ac is Some && hex_color(ac.unwrap().value@) is None {
        Some(
            located_text(
                line_col_spec(b, ac.unwrap().at as int),
                "theme.accent"@,
                bad_colour_text(ac.unwrap().value@),
            ),
        )
    } else if raw.notification is Some && raw.notification.unwrap().position is Some && position_of(
        raw.notification.unwrap().position.unwrap().value@,
    ) is None {
        Some(
            located_text(
                line_col_spec(b, raw.notification.unwrap().position.unwrap().at as int),
                "notification.position"@,
                "expected left, center, or right"@,
            ),
        )
    } else {
        None
    }
}

pub open spec fn color_or(v: Option<Located<String>>, fallback: Color) -> Color {
    match v {
        Some(v) => hex_color(v.value@).unwrap(),
        None => fallback,
    }
}

pub open spec fn or_default(v: Option<i32>, d: i32) -> i32 {
    match v {
        Some(x) => x,
        None => d,
    }
}

/// The config a valid decoded file describes: the theme derived from the bar height with the
/// given overrides, `max_visible` at least 1 and the position defaulting to `right`.
pub open spec fn config_of(raw: RawConfig) -> Config {
    let height = match raw.bar.height {
        Some(v) => v.value,
        None => DEFAULT_HEIGHT,
    };
    let base = default_theme(height as int);
    Config {
        bar: Bar {
            height,
            margin: or_default(raw.bar.margin, 0),
            left: raw.bar.left,
            center: raw.bar.center,
            right: raw.bar.right,
        },
        theme: Theme {
            padding: or_default(raw.bar.padding, base.padding),
            spacing: or_default(raw.bar.spacing, base.spacing),
            background: color_or(raw.theme.background, base.background),
            foreground: color_or(raw.theme.foreground, base.foreground),
            accent: color_or(raw.theme.accent, base.accent),
            line_height: or_default(raw.theme.line_height, DEFAULT_LINE_HEIGHT),
            ..base
        },
        notification: match raw.notification {
            Some(n) => Some(
                Notification {
                    position: match n.position {
                        Some(p) => position_of(p.value@).unwrap(),
                        None => NotificationPosition::Right,
                    },
                    max_visible: if n.max_visible >= 1 { n.max_visible } else { 1 },
                    enter_ms: n.enter_ms,
                    exit_ms: n.exit_ms,
                },
            ),
            None => None,
        },
    }
}

/// A config is accepted exactly when its bar height is within `1..=HEIGHT_MAX`, each colour it
/// gives parses, and the notification position it gives is `left`, `center` or `right`.
pub proof fn lemma_accepted_exactly_when_valid(b: Seq<u8>, raw: RawConfig)
    ensures
        config_error(b, raw) is None <==> ({
            &&& (raw.bar.height matches Some(h) ==> 1 <= h.value <= HEIGHT_MAX)
            &&& (raw.theme.background matches Some(v) ==> hex_color(v.value@) is Some)
            &&& (raw.theme.foreground matches Some(v) ==> hex_color(v.value@) is Some)
            &&& (raw.theme.accent matches Some(v) ==> hex_color(v.value@) is Some)
            &&& (raw.notification matches Some(n) ==> (n.position matches Some(p) ==> (p.value@ == "left"@
                || p.value@ == "center"@ || p.value@ == "right"@)))
        }),
{
}

/// Every value an accepted config gives is applied, and every value it leaves out takes the
/// default: the bar height (30), the colours given in hex, padding, spacing, margin (0) and line
/// height; the rest of the theme is derived from the bar height; the notification position
/// (`right` unless given) and at least one visible notification.
pub proof fn lemma_configured_values_apply(b: Seq<u8>, raw: RawConfig)
    requires
        config_error(b, raw) is None,
    ensures
        ({
            let c = config_of(raw);
            let base = default_theme(c.bar.height as int);
            &&& c.bar.height == (match raw.bar.height {
                Some(h) => h.value,
                None => 30,
            })
            &&& (match raw.theme.background {
                Some(v) => hex_color(v.value@) == Some(c.theme.background),
                None => c.theme.background == base.background,
            })
            &&& (match raw.theme.foreground {
                Some(v) => hex_color(v.value@) == Some(c.theme.foreground),
                None => c.theme.foreground == base.foreground,
            })
            &&& (match raw.theme.accent {
                Some(v) => hex_color(v.value@) == Some(c.theme.accent),
                None => c.theme.accent == base.accent,
            })
            &&& c.theme.padding == (match raw.bar.padding {
                Some(p) => p,
                None => base.padding,
            })
            &&& c.theme.spacing == (match raw.bar.spacing {
                Some(s) => s,
                None => base.spacing,
            })
            &&& c.bar.margin == (match raw.bar.margin {
                Some(m) => m,
                None => 0,
            })
            &&& c.theme.line_height == (match raw.theme.line_height {
                Some(l) => l,
                None => DEFAULT_LINE_HEIGHT,
            })
            &&& c.theme.height == c.bar.height
            &&& c.theme.secondary == base.secondary
            &&& c.theme.card_gap == base.card_gap
            &&& c.theme.card_padding == base.card_padding
            &&& c.theme.card_w == base.card_w
            &&& c.theme.card_radius == base.card_radius
            &&& c.bar.left == raw.bar.left && c.bar.center == raw.bar.center && c.bar.right == raw.bar.right
            &&& (raw.notification is None <==> c.notification is None)
            &&& (raw.notification matches Some(n) ==> ({
                let cn = c.notification.unwrap();
                &&& cn.position == (match n.position {
                    Some(p) => if p.value@ == "left"@ {
                        NotificationPosition::Left
                    } else if p.value@ == "center"@ {
                        NotificationPosition::Center
                    } else {
                        NotificationPosition::Right
                    },
                    None => NotificationPosition::Right,
                })
                &&& cn.max_visible >= 1
                &&& (n.max_visible >= 1 ==> cn.max_visible == n.max_visible)
                &&& cn.enter_ms == n.enter_ms
                &&& cn.exit_ms == n.exit_ms
            }))
        }),
{
    if let Some(n) = raw.notification {
        if let Some(p) = n.position {
            if p.value@ == "left"@ {
            } else if p.value@ == "center"@ {
            } else {
                assert(p.value@ == "right"@);
            }
        }
    }
}

/// Positions count from 1:1 at the start of the text; each byte moves one column right, and a
/// newline starts the next line at column 1. Offsets past the end count as the end.
pub proof fn lemma_line_col_steps(b: Seq<u8>, offset: int)
    requires
        0 <= offset,
    ensures
        line_col_spec(b, 0) == (1nat, 1nat),
        offset < b.len() ==> line_col_spec(b, offset + 1) == if b[offset] == 10 {
            (line_col_spec(b, offset).0 + 1, 1nat)
        } else {
            (line_col_spec(b, offset).0, line_col_spec(b, offset).1 + 1)
        },
        offset >= b.len() ==> line_col_spec(b, offset) == line_col_spec(b, b.len() as int),
{
    assert(b.take(0) =~= Seq::<u8>::empty());
    if offset < b.len() {
        assert(b.take(offset + 1).drop_last() =~= b.take(offset));
    }
}

/// A rejected config names the first bad value, checked in the order bar height, background,
/// foreground, accent, notification position: the message gives that value's `line:column`, its
/// key and what is wrong with it.
pub proof fn lemma_error_names_first_bad_value(b: Seq<u8>, raw: RawConfig)
    ensures
        ({
            let h = raw.bar.height;
            let bg = raw.theme.background;
            let fg = raw.theme.foreground;
            let ac = raw.theme.accent;
            let height_ok = h is Some ==> 1 <= h.unwrap().value <= HEIGHT_MAX;
            let bg_ok = bg is Some ==> hex_color(bg.unwrap().value@) is Some;
            let fg_ok = fg is Some ==> hex_color(fg.unwrap().value@) is Some;
            let ac_ok = ac is Some ==> hex_color(ac.unwrap().value@) is Some;
            &&& (!height_ok ==> config_error(b, raw) == Some(
                located_text(
                    line_col_spec(b, h.unwrap().at as int),
                    "bar.height"@,
                    height_detail(h.unwrap().value as int),
                ),
            ))
            &&& (height_ok && !bg_ok ==> config_error(b, raw) == Some(
                located_text(line_col_spec(b, bg.unwrap().at as int), "theme.background"@, bad_colour_text(bg.unwrap().value@)),
            ))
            &&& (height_ok && bg_ok && !fg_ok ==> config_error(b, raw) == Some(
                located_text(line_col_spec(b, fg.unwrap().at as int), "theme.foreground"@, bad_colour_text(fg.unwrap().value@)),
            ))
            &&& (height_ok && bg_ok && fg_ok && !ac_ok ==> config_error(b, raw) == Some(
                located_text(line_col_spec(b, ac.unwrap().at as int), "theme.accent"@, bad_colour_text(ac.unwrap().value@)),
            ))
        }),
{
}

/// Byte offset → (line, col), 1-based.
fn line_col(text: &[u8], offset: usize) -> (lc: (usize, usize))
    requires
        text@.len() <= isize::MAX,
    ensures
        lc.0 as nat == line_col_spec(text@, offset as int).0,
        lc.1 as nat == line_col_spec(text@, offset as int).1,
{
    let end = if offset < text.len() { offset } else { text.len() };
    let mut line: usize = 1;
    let mut col: usize = 1;
    let mut i: usize = 0;
    while i < end
        invariant
            i <= end <= text.len(),
            text.len() == text@.len(),
            text@.len() <= isize::MAX,
            end == if offset < text@.len() { offset as int } else { text@.len() as int },
            line == newlines(text@.take(i as int)) + 1,
            col == since_newline(text@.take(i as int)) + 1,
            line <= i + 1,
            col <= i + 1,
        decreases end - i,
    {
        assert(text@.take(i + 1).drop_last() =~= text@.take(i as int));
        if text[i] == 10 {
            line = line + 1;
            col = 1;
        } else {
            col = col + 1;
        }
        i = i + 1;
    }
    (line, col)
}

/// Builds `line:col: key: detail`.
fn located(text: &[u8], at: usize, key: &str, detail: &str) -> (m: String)
    requires
        text@.len() <= isize::MAX,
    ensures
        m@ == located_text(line_col_spec(text@, at as int), key@, detail@),
{
    let (line, col) = line_col(text, at);
    let mut m = String::new();
    push_decimal(&mut m, line as u64);
    push_str(&mut m, ":");
    push_decimal(&mut m, col as u64);
    push_str(&mut m, ": ");
    push_str(&mut m, key);
    push_str(&mut m, ": ");
    push_str(&mut m, detail);
    assert(m@ =~= located_text(line_col_spec(text@, at as int), key@, detail@));
    m
}

/// Resolves an optional colour value, reporting a bad one at its position under `key`.
fn color_at(text: &[u8], key: &str, v: &Option<Located<String>>, fallback: Color) -> (res: Result<Color, String>)
    requires
        text@.len() <= isize::MAX,
    ensures
        match res {
            Ok(c) => (v matches Some(l) ==> hex_color(l.value@) is Some) && c == color_or(*v, fallback),
            Err(m) => v matches Some(l) && hex_color(l.value@) is None && m@ == located_text(
                line_col_spec(text@, l.at as int),
                key@,
                bad_colour_text(l.value@),
            ),
        },
{
    match v {
        None => Ok(fallback),
        Some(l) => match Color::from_hex(l.value.as_str()) {
            Ok(c) => Ok(c),
            Err(e) => Err(located(text, l.at, key, e.as_str())),
        },
    }
}

/// Checks the decoded values of a config file and derives the full configuration. `text` is the
/// file's contents, used to turn the byte offsets of bad values into `line:column`.
pub fn parse(text: &str, raw: RawConfig) -> (res: Result<Config, String>)
    requires
        text.spec_bytes().len() <= isize::MAX,
    ensures
        match res {
            Ok(c) => config_error(text.spec_bytes(), raw) is None && c == config_of(raw),
            Err(m) => config_error(text.spec_bytes(), raw) == Some(m@),
        },
{
    let bytes = text.as_bytes();
    let height = match &raw.bar.height {
        None => DEFAULT_HEIGHT,
        Some(v) => {
            if !(1 <= v.value && v.value <= HEIGHT_MAX) {
                let mut detail = String::from_str("bar height must be within 1..=256 pixels, currently ");
                push_signed(&mut detail, v.value as i64);
                return Err(located(bytes, v.at, "bar.height", detail.as_str()));
            }
            v.value
        },
    };
    let mut theme = Theme::defaults(height);
    theme.padding = match raw.bar.padding {
        Some(p) => p,
        None => theme.padding,
    };
    theme.spacing = match raw.bar.spacing {
        Some(s) => s,
        None => theme.spacing,
    };
    theme.background = match color_at(bytes, "theme.background", &raw.theme.background, theme.background) {
        Ok(c) => c,
        Err(e) => return Err(e),
    };
    theme.foreground = match color_at(bytes, "theme.foreground", &raw.theme.foreground, theme.foreground) {
        Ok(c) => c,
        Err(e) => return Err(e),
    };
    theme.accent = match color_at(bytes, "theme.accent", &raw.theme.accent, theme.accent) {
        Ok(c) => c,
        Err(e) => return Err(e),
    };
    theme.line_height = match raw.theme.line_height {
        Some(l) => l,
        None => DEFAULT_LINE_HEIGHT,
    };
    let notification = match raw.notification {
        None => None,
        Some(n) => {
            let position = match &n.position {
                None => NotificationPosition::Right,
                Some(p) => {
                    let s = p.value.as_str();
                    if str_eq(s, "left") {
                        NotificationPosition::Left
                    } else if str_eq(s, "center") {
                        NotificationPosition::Center
                    } else if str_eq(s, "right") {
                        NotificationPosition::Right
                    } else {
                        return Err(
                            located(bytes, p.at, "notification.position", "expected left, center, or right"),
                        );
                    }
                },
            };
            Some(
                Notification {
                    position,
                    max_visible: if n.max_visible >= 1 { n.max_visible } else { 1 },
                    enter_ms: n.enter_ms,
                    exit_ms: n.exit_ms,
                },
            )
        },
    };
    Ok(
        Config {
            bar: Bar {
                height,
                margin: match raw.bar.margin {
                    Some(m) => m,
                    None => 0,
                },
                left: raw.bar.left,
                center: raw.bar.center,
                right: raw.bar.right,
            },
            theme,
            notification,
        },
    )
}

/// Character-wise string equality.
fn str_eq(a: &str, b: &str) -> (e: bool)
    ensures
        e == (a@ == b@),
{
    let x = crate::text::chars_of(a);
    let y = crate::text::chars_of(b);
    if x.len() != y.len() {
        return false;
    }
    let mut i: usize = 0;
    while i < x.len()
        invariant
            x@.len() == y@.len(),
            x@ == a@,
            y@ == b@,
            i <= x@.len(),
            forall|j: int| 0 <= j < i ==> x@[j] == y@[j],
        decreases x.len() - i,
    {
        if x[i] != y[i] {
            return false;
        }
        i = i + 1;
    }
    assert(x@ =~= y@);
    true
}

} // verus!
