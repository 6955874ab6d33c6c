//! Theme: the palette and the proportions derived from the bar height. The font itself (family and
//! fractional size) is the text engine's concern; the layout only needs the height of one text line.

use vstd::prelude::*;

use crate::geom::Color;

verus! {

/// Card width bounds; the derived width is a multiple of the bar height in between.
pub const MIN_CARD_W: i32 = 80;

pub const MAX_CARD_W: i32 = 420;

/// Card width per pixel of bar height: a fixed width gives every card in the column the same
/// optical span.
pub const CARD_W_PER_HEIGHT: i32 = 10;

/// Line height of the default face (11 px, lines 1.35 em tall, rounded up).
pub const DEFAULT_LINE_HEIGHT: i32 = 15;

/// Integer division rounding toward zero, as Rust's `/` on signed integers does.
pub open spec fn tdiv(a: int, b: int) -> int {
    if a >= 0 {
        a / b
    } else {
        -((-a) / b)
    }
}

/// `x` rounded to the nearest integer, halves away from zero, for `x = n / 10`.
pub open spec fn round_tenths(n: int) -> int {
    if n >= 0 {
        (n + 5) / 10
    } else {
        -((-n + 5) / 10)
    }
}

pub open spec fn clamp_int(v: int, lo: int, hi: int) -> int {
    if v < lo {
        lo
    } else if v > hi {
        hi
    } else {
        v
    }
}

#[derive(Clone)]
pub struct Theme {
    pub background: Color,
    pub foreground: Color,
    pub accent: Color,
    /// Supporting text: `foreground` at 72% alpha. The notification's title is the primary label
    /// and its body the secondary one.
    pub secondary: Color,
    /// Height of one line of text in pixels: the font size times 1.35, rounded up.
    pub line_height: i32,
    pub height: i32,
    pub padding: i32,
    pub spacing: i32,
    /// Gap between notification cards, height / 5 (at least 2).
    pub card_gap: i32,
    /// Notification card padding, height / 2 (at least 4).
    pub card_padding: i32,
    /// Notification card width: 10 × height, clamped to 80..=420.
    pub card_w: i32,
    /// Card corner radius: 1.2 × height, rounded.
    pub card_radius: i32,
}

/// Heights for which every derived proportion is representable: the card width is ten times the
/// height, computed in `i32`.
pub open spec fn height_ok(height: int) -> bool {
    -214748364 <= height <= 214748364
}

/// The theme `Theme::defaults(height)` builds.
pub open spec fn default_theme(height: int) -> Theme {
    let foreground = Color { r: 0xdc, g: 0xdc, b: 0xdc, a: 0xff };
    Theme {
        background: Color { r: 0x1a, g: 0x1a, b: 0x1a, a: 0xee },
        foreground,
        secondary: Color { r: 0xdc, g: 0xdc, b: 0xdc, a: (0xff * 72 / 100) as u8 },
        accent: Color { r: 0x88, g: 0xc0, b: 0xd0, a: 0xff },
        line_height: DEFAULT_LINE_HEIGHT,
        height: height as i32,
        padding: 8,
        spacing: 6,
        card_gap: (if tdiv(height, 5) >= 2 { tdiv(height, 5) } else { 2 }) as i32,
        card_padding: (if tdiv(height, 2) >= 4 { tdiv(height, 2) } else { 4 }) as i32,
        card_w: clamp_int(10 * height, MIN_CARD_W as int, MAX_CARD_W as int) as i32,
        card_radius: round_tenths(12 * height) as i32,
    }
}

impl Theme {
    /// The shortest a card may be: 2.5 × the bar height, or one line plus padding if taller.
    pub open spec fn min_card_height(&self) -> int {
        let by_height = tdiv(self.height * 5, 2);
        let by_line = self.line_height + self.card_padding * 2;
        if by_height >= by_line {
            by_height
        } else {
            by_line
        }
    }

    /// The intermediate values of `card_min_h` fit in `i32`.
    pub open spec fn min_card_height_fits(&self) -> bool {
        &&& i32::MIN <= self.height * 5 <= i32::MAX
        &&& i32::MIN <= self.card_padding * 2 <= i32::MAX
        &&& i32::MIN <= self.line_height + self.card_padding * 2 <= i32::MAX
    }

    /// A short desktop banner still needs enough vertical room for one balanced line.
    pub fn card_min_h(&self) -> (h: i32)
        requires
            self.min_card_height_fits(),
        ensures
            h == self.min_card_height(),
    {
        let by_height = self.height * 5 / 2;
        let by_line = self.line_height + self.card_padding * 2;
        if by_height >= by_line {
            by_height
        } else {
            by_line
        }
    }

    pub fn defaults(height: i32) -> (t: Theme)
        requires
            height_ok(height as int),
        ensures
            t == default_theme(height as int),
            t.min_card_height_fits(),
    {
        let foreground = Color::rgba(0xdc, 0xdc, 0xdc, 0xff);
        let gap = height / 5;
        let pad = height / 2;
        let wide = CARD_W_PER_HEIGHT * height;
        let card_w = if wide < MIN_CARD_W {
            MIN_CARD_W
        } else if wide > MAX_CARD_W {
            MAX_CARD_W
        } else {
            wide
        };
        let h = height as i64;
        let radius = if h >= 0 {
            ((12 * h + 5) / 10) as i32
        } else {
            (0 - (12 * (0 - h) + 5) / 10) as i32
        };
        assert(gap == tdiv(height as int, 5));
        assert(pad == tdiv(height as int, 2));
        assert(radius == round_tenths(12 * height));
        Theme {
            background: Color::rgba(0x1a, 0x1a, 0x1a, 0xee),
            foreground,
            secondary: Color::rgba(
                foreground.r,
                foreground.g,
                foreground.b,
                (foreground.a as u32 * 72 / 100) as u8,
            ),
            accent: Color::rgba(0x88, 0xc0, 0xd0, 0xff),
            line_height: DEFAULT_LINE_HEIGHT,
            height,
            padding: 8,
            spacing: 6,
            card_gap: if gap >= 2 { gap } else { 2 },
            card_padding: if pad >= 4 { pad } else { 4 },
            card_w,
            card_radius: radius,
        }
    }
}

} // verus!
