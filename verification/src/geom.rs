//! Geometry and colour primitives: pixel rectangles in surface-local coordinates and straight-alpha
//! colours, with the hex notation the configuration uses and the premultiplied byte order of `wl_shm`.

use vstd::prelude::*;

use crate::text::push_str;

verus! {

/// Pixel rect in surface-local coordinates, origin top-left.
#[derive(Clone, Copy, PartialEq, Eq, Debug, Structural)]
pub struct Rect {
    pub x: i32,
    pub y: i32,
    pub w: i32,
    pub h: i32,
}

/// The value is representable as an `i32`.
pub open spec fn fits32(v: int) -> bool {
    i32::MIN <= v <= i32::MAX
}

/// Whether a value computed in `i64` is representable as an `i32`.
pub fn fits_i32(v: i64) -> (b: bool)
    ensures
        b == fits32(v as int),
{
    i32::MIN as i64 <= v && v <= i32::MAX as i64
}

/// The rect's right and bottom edges are representable as `i32`.
pub open spec fn rect_fits(r: Rect) -> bool {
    &&& i32::MIN <= r.x + r.w <= i32::MAX
    &&& i32::MIN <= r.y + r.h <= i32::MAX
}

/// The edges `contains` computes for this point fit in an `i32`: the right edge once the point is
/// not left of the rect, the bottom edge once it also lies left of the right edge and not above
/// the top.
pub open spec fn contains_fits(r: Rect, px: int, py: int) -> bool {
    &&& px >= r.x ==> fits32(r.x + r.w)
    &&& (px >= r.x && px < r.x + r.w && py >= r.y) ==> fits32(r.y + r.h)
}

/// Whether the point lies in the half-open rect `[x, x + w) × [y, y + h)`.
pub open spec fn rect_has(r: Rect, px: int, py: int) -> bool {
    r.x <= px < r.x + r.w && r.y <= py < r.y + r.h
}

pub open spec fn min_int(a: int, b: int) -> int {
    if a <= b { a } else { b }
}

pub open spec fn max_int(a: int, b: int) -> int {
    if a >= b { a } else { b }
}

/// The overlap of two rects as integers: the larger origin and the smaller far edge.
pub open spec fn overlap(a: Rect, b: Rect) -> (int, int, int, int) {
    let x = max_int(a.x as int, b.x as int);
    let y = max_int(a.y as int, b.y as int);
    (x, y, min_int(a.x + a.w, b.x + b.w) - x, min_int(a.y + a.h, b.y + b.h) - y)
}

/// The overlap's width and height are representable as `i32`.
pub open spec fn overlap_fits(a: Rect, b: Rect) -> bool {
    let (x, y, w, h) = overlap(a, b);
    i32::MIN <= w <= i32::MAX && i32::MIN <= h <= i32::MAX
}

impl Rect {
    pub fn new(x: i32, y: i32, w: i32, h: i32) -> (r: Rect)
        ensures
            r == (Rect { x, y, w, h }),
    {
        Rect { x, y, w, h }
    }

    pub fn right(&self) -> (r: i32)
        requires
            fits32(self.x + self.w),
        ensures
            r == self.x + self.w,
    {
        self.x + self.w
    }

    pub fn bottom(&self) -> (b: i32)
        requires
            fits32(self.y + self.h),
        ensures
            b == self.y + self.h,
    {
        self.y + self.h
    }

    pub fn is_empty(&self) -> (e: bool)
        ensures
            e == (self.w <= 0 || self.h <= 0),
    {
        self.w <= 0 || self.h <= 0
    }

    /// Overlap of two rects; an empty rect when they do not touch.
    pub fn intersect(&self, o: Rect) -> (r: Rect)
        requires
            rect_fits(*self),
            rect_fits(o),
            overlap_fits(*self, o),
        ensures
            (r.x as int, r.y as int, r.w as int, r.h as int) == overlap(*self, o),
            rect_fits(r),
    {
        let x = if self.x >= o.x { self.x } else { o.x };
        let y = if self.y >= o.y { self.y } else { o.y };
        let r1 = self.right();
        let r2 = o.right();
        let b1 = self.bottom();
        let b2 = o.bottom();
        let right = if r1 <= r2 { r1 } else { r2 };
        let bottom = if b1 <= b2 { b1 } else { b2 };
        Rect::new(x, y, right - x, bottom - y)
    }

    pub fn contains(&self, px: i32, py: i32) -> (c: bool)
        requires
            contains_fits(*self, px as int, py as int),
        ensures
            c == rect_has(*self, px as int, py as int),
    {
        px >= self.x && px < self.right() && py >= self.y && py < self.bottom()
    }
}

/// A point lies in the overlap of two rects exactly when it lies in both of them.
pub proof fn lemma_overlap_contains(a: Rect, b: Rect, px: int, py: int)
    requires
        overlap_fits(a, b),
    ensures
        ({
            let (x, y, w, h) = overlap(a, b);
            rect_has(Rect { x: x as i32, y: y as i32, w: w as i32, h: h as i32 }, px, py)
                <==> rect_has(a, px, py) && rect_has(b, px, py)
        }),
{
}

/// The overlap is empty exactly when no point lies in both rects, and it does not depend on the
/// order of its operands.
pub proof fn lemma_overlap_empty(a: Rect, b: Rect)
    requires
        overlap_fits(a, b),
    ensures
        overlap(a, b) == overlap(b, a),
        ({
            let (x, y, w, h) = overlap(a, b);
            (w <= 0 || h <= 0) <==> !(exists|px: int, py: int|
                rect_has(a, px, py) && rect_has(b, px, py))
        }),
{
    let (x, y, w, h) = overlap(a, b);
    if w > 0 && h > 0 {
        assert(rect_has(a, x, y) && rect_has(b, x, y));
    }
}

/// Straight (non-premultiplied) alpha RGBA.
#[derive(Clone, Copy, PartialEq, Eq, Debug, Structural)]
pub struct Color {
    pub r: u8,
    pub g: u8,
    pub b: u8,
    pub a: u8,
}

/// A channel premultiplied by alpha, rounded to the nearest of 0..=255.
pub open spec fn premul_spec(c: u8, a: u8) -> u8 {
    ((c as int * a as int + 127) / 255) as u8
}

/// Premultiply and round to 0..=255.
fn premul(c: u8, a: u8) -> (p: u8)
    ensures
        p == premul_spec(c, a),
        p as int == (c as int * a as int + 127) / 255,
{
    proof {
        assert(c as int * a as int <= 255 * 255) by (nonlinear_arith)
            requires
                c <= 255,
                a <= 255,
        ;
    }
    ((c as u32 * a as u32 + 127) / 255) as u8
}

/// The four bytes `wl_shm`'s Argb8888 wants for a colour: premultiplied, stored as B, G, R, A.
pub open spec fn shm_bytes(c: Color) -> [u8; 4] {
    [premul_spec(c.b, c.a), premul_spec(c.g, c.a), premul_spec(c.r, c.a), c.a]
}

pub open spec fn is_hex_digit(c: char) -> bool {
    ('0' <= c <= '9') || ('a' <= c <= 'f') || ('A' <= c <= 'F')
}

pub open spec fn hex_value(c: char) -> int {
    if '0' <= c <= '9' {
        c as int - '0' as int
    } else if 'a' <= c <= 'f' {
        c as int - 'a' as int + 10
    } else {
        c as int - 'A' as int + 10
    }
}

/// A two-character field: two hex digits.
pub open spec fn hex_pair_ok(a: char, b: char) -> bool {
    is_hex_digit(a) && is_hex_digit(b)
}

pub open spec fn hex_pair_value(a: char, b: char) -> u8 {
    (16 * hex_value(a) + hex_value(b)) as u8
}

pub open spec fn is_ascii_seq(s: Seq<char>) -> bool {
    forall|i: int| 0 <= i < s.len() ==> s[i] <= '\u{7f}'
}

/// The digits after an optional leading `#`.
pub open spec fn hex_digits(s: Seq<char>) -> Seq<char> {
    if s.len() > 0 && s[0] == '#' {
        s.skip(1)
    } else {
        s
    }
}

/// The colour that `#rgb`, `#rrggbb` or `#rrggbbaa` (the hash optional) denotes, if the text is one.
pub open spec fn hex_color(s: Seq<char>) -> Option<Color> {
    let h = hex_digits(s);
    if !is_ascii_seq(h) {
        None
    } else if h.len() == 3 {
        if is_hex_digit(h[0]) && is_hex_digit(h[1]) && is_hex_digit(h[2]) {
            Some(
                Color {
                    r: (17 * hex_value(h[0])) as u8,
                    g: (17 * hex_value(h[1])) as u8,
                    b: (17 * hex_value(h[2])) as u8,
                    a: 255,
                },
            )
        } else {
            None
        }
    } else if h.len() == 6 {
        if hex_pair_ok(h[0], h[1]) && hex_pair_ok(h[2], h[3]) && hex_pair_ok(h[4], h[5]) {
            Some(
                Color {
                    r: hex_pair_value(h[0], h[1]),
                    g: hex_pair_value(h[2], h[3]),
                    b: hex_pair_value(h[4], h[5]),
                    a: 255,
                },
            )
        } else {
            None
        }
    } else if h.len() == 8 {
        if hex_pair_ok(h[0], h[1]) && hex_pair_ok(h[2], h[3]) && hex_pair_ok(h[4], h[5])
            && hex_pair_ok(h[6], h[7]) {
            Some(
                Color {
                    r: hex_pair_value(h[0], h[1]),
                    g: hex_pair_value(h[2], h[3]),
                    b: hex_pair_value(h[4], h[5]),
                    a: hex_pair_value(h[6], h[7]),
                },
            )
        } else {
            None
        }
    } else {
        None
    }
}

/// The hex digit for `v` in `0..16`, lower or upper case.
pub open spec fn hex_char(v: int, upper: bool) -> char {
    if v < 10 {
        ('0' as int + v) as char
    } else if upper {
        ('A' as int + v - 10) as char
    } else {
        ('a' as int + v - 10) as char
    }
}

/// A byte as two hex digits, high digit first.
pub open spec fn hex_byte(b: u8, upper: bool) -> Seq<char> {
    seq![hex_char(b as int / 16, upper), hex_char(b as int % 16, upper)]
}

proof fn lemma_hex_byte(b: u8, upper: bool)
    ensures
        hex_pair_ok(hex_byte(b, upper)[0], hex_byte(b, upper)[1]),
        hex_pair_value(hex_byte(b, upper)[0], hex_byte(b, upper)[1]) == b,
        hex_byte(b, upper)[0] <= '\u{7f}',
        hex_byte(b, upper)[1] <= '\u{7f}',
{
    let hi = b as int / 16;
    let lo = b as int % 16;
    assert(0 <= hi < 16 && 0 <= lo < 16);
    assert(hex_value(hex_char(hi, upper)) == hi);
    assert(hex_value(hex_char(lo, upper)) == lo);
    assert(16 * hi + lo == b as int);
}

/// Writing a colour out in hex and reading it back gives the colour: `#rrggbbaa` in lower case
/// gives it whole, and `RRGGBB` in upper case, without the hash, gives it opaque.
pub proof fn lemma_hex_round_trip(c: Color)
    ensures
        hex_color(seq!['#'] + hex_byte(c.r, false) + hex_byte(c.g, false) + hex_byte(c.b, false) + hex_byte(c.a, false))
            == Some(c),
        hex_color(hex_byte(c.r, true) + hex_byte(c.g, true) + hex_byte(c.b, true))
            == Some(Color { a: 255, ..c }),
{
    lemma_hex_byte(c.r, false);
    lemma_hex_byte(c.g, false);
    lemma_hex_byte(c.b, false);
    lemma_hex_byte(c.a, false);
    lemma_hex_byte(c.r, true);
    lemma_hex_byte(c.g, true);
    lemma_hex_byte(c.b, true);
    let long = seq!['#'] + hex_byte(c.r, false) + hex_byte(c.g, false) + hex_byte(c.b, false) + hex_byte(c.a, false);
    let h = hex_digits(long);
    assert(h =~= hex_byte(c.r, false) + hex_byte(c.g, false) + hex_byte(c.b, false) + hex_byte(c.a, false));
    assert(is_ascii_seq(h));
    let short = hex_byte(c.r, true) + hex_byte(c.g, true) + hex_byte(c.b, true);
    assert(short[0] != '#');
    assert(hex_digits(short) == short);
    assert(is_ascii_seq(short));
}

/// The digit a hex character stands for: `0`–`9` count from zero, and `a`–`f` and `A`–`F` both
/// count from ten, so the case of a digit never matters.
pub proof fn lemma_hex_digit_values(c: char)
    requires
        is_hex_digit(c),
    ensures
        0 <= hex_value(c) < 16,
        '0' <= c <= '9' ==> hex_value(c) == c as int - '0' as int,
        'a' <= c <= 'f' ==> hex_value(c) == c as int - 'a' as int + 10,
        'A' <= c <= 'F' ==> hex_value(c) == c as int - 'A' as int + 10,
        forall|v: int, upper: bool| 0 <= v < 16 ==> hex_value(#[trigger] hex_char(v, upper)) == v,
{
}

/// The leading `#` is optional: with or without it a text denotes the same colour.
pub proof fn lemma_hash_is_optional(s: Seq<char>)
    requires
        s.len() == 0 || s[0] != '#',
    ensures
        hex_color(seq!['#'] + s) == hex_color(s),
{
    assert((seq!['#'] + s).skip(1) =~= s);
}

/// The short form `#rgb` is the long form with every digit doubled: each channel is 17 times its
/// digit (`#f00` is red), the digits standing for red, green and blue in that order, and it is
/// opaque.
pub proof fn lemma_short_form(r: char, g: char, b: char)
    requires
        is_hex_digit(r),
        is_hex_digit(g),
        is_hex_digit(b),
    ensures
        hex_color(seq![r, g, b]) == hex_color(seq![r, r, g, g, b, b]),
        hex_color(seq![r, g, b]) == hex_color(seq!['#', r, g, b]),
        hex_color(seq![r, g, b]) == Some(
            Color { r: (17 * hex_value(r)) as u8, g: (17 * hex_value(g)) as u8, b: (17 * hex_value(b)) as u8, a: 255 },
        ),
{
    let short = seq![r, g, b];
    let long = seq![r, r, g, g, b, b];
    assert(hex_digits(short) == short);
    assert(hex_digits(long) == long);
    assert(is_ascii_seq(short));
    assert(is_ascii_seq(long));
    assert(short[0] == r && short[1] == g && short[2] == b);
    assert(long[0] == r && long[1] == r && long[2] == g && long[3] == g && long[4] == b && long[5] == b);
    lemma_hash_is_optional(short);
    assert(seq!['#'] + short =~= seq!['#', r, g, b]);
}

/// The long forms: `#rrggbb` gives each channel from its pair of digits, high digit first, and is
/// opaque; `#rrggbbaa` adds the alpha pair.
pub proof fn lemma_long_forms(s: Seq<char>)
    requires
        s.len() == 6 || s.len() == 8,
        forall|i: int| 0 <= i < s.len() ==> is_hex_digit(#[trigger] s[i]),
    ensures
        hex_color(s) == Some(
            Color {
                r: (16 * hex_value(s[0]) + hex_value(s[1])) as u8,
                g: (16 * hex_value(s[2]) + hex_value(s[3])) as u8,
                b: (16 * hex_value(s[4]) + hex_value(s[5])) as u8,
                a: if s.len() == 8 { (16 * hex_value(s[6]) + hex_value(s[7])) as u8 } else { 255u8 },
            },
        ),
{
    assert(s[0] != '#');
    assert(hex_digits(s) == s);
    assert(is_ascii_seq(s));
}

/// Only the three forms are colours: any other number of digits, or a character that is no hex
/// digit, is rejected.
pub proof fn lemma_other_texts_are_no_colour(s: Seq<char>)
    ensures
        !(hex_digits(s).len() == 3 || hex_digits(s).len() == 6 || hex_digits(s).len() == 8) ==> hex_color(s) is None,
        (exists|i: int| 0 <= i < hex_digits(s).len() && !is_hex_digit(#[trigger] hex_digits(s)[i])) ==> hex_color(s) is None,
{
    let h = hex_digits(s);
    if exists|i: int| 0 <= i < h.len() && !is_hex_digit(#[trigger] h[i]) {
        let i = choose|i: int| 0 <= i < h.len() && !is_hex_digit(#[trigger] h[i]);
        if h.len() == 6 || h.len() == 8 {
            assert(!hex_pair_ok(h[i - i % 2], h[i - i % 2 + 1]));
        }
    }
}

/// A string as `{:?}` writes it: in double quotes, with quotes, backslashes and control
/// characters escaped.
pub uninterp spec fn debug_text(s: Seq<char>) -> Seq<char>;

/// The input as `format!("{s:?}")` writes it; the escaping is std's `Debug` for `str`.
#[verifier::external_body]
fn debug_quoted(s: &str) -> (out: String)
    ensures
        out@ == debug_text(s@),
{
    format!("{s:?}")
}

/// The message for a string that is no colour: it quotes the input and names the accepted forms.
pub open spec fn bad_colour_text(s: Seq<char>) -> Seq<char> {
    "bad colour format: "@ + debug_text(s) + " (expected #rgb / #rrggbb / #rrggbbaa)"@
}

fn bad_colour_message(s: &str) -> (m: String)
    ensures
        m@ == bad_colour_text(s@),
{
    let mut m = String::new();
    push_str(&mut m, "bad colour format: ");
    let quoted = debug_quoted(s);
    push_str(&mut m, quoted.as_str());
    push_str(&mut m, " (expected #rgb / #rrggbb / #rrggbbaa)");
    m
}

fn hex_digit_of(c: char) -> (v: Option<u8>)
    ensures
        v is Some <==> is_hex_digit(c),
        v is Some ==> v->0 as int == hex_value(c),
{
    if '0' <= c && c <= '9' {
        Some((c as u32 - '0' as u32) as u8)
    } else if 'a' <= c && c <= 'f' {
        Some((c as u32 - 'a' as u32 + 10) as u8)
    } else if 'A' <= c && c <= 'F' {
        Some((c as u32 - 'A' as u32 + 10) as u8)
    } else {
        None
    }
}

fn hex_pair_of(a: char, b: char) -> (v: Option<u8>)
    ensures
        v is Some <==> hex_pair_ok(a, b),
        v is Some ==> v->0 == hex_pair_value(a, b),
{
    match (hex_digit_of(a), hex_digit_of(b)) {
        (Some(high), Some(low)) => Some(high * 16 + low),
        _ => None,
    }
}

impl Color {
    pub fn rgba(r: u8, g: u8, b: u8, a: u8) -> (c: Color)
        ensures
            c == (Color { r, g, b, a }),
    {
        Color { r, g, b, a }
    }

    /// Accepts `#rgb` / `#rrggbb` / `#rrggbbaa` (the hash may be omitted). Non-ASCII input is an
    /// error, never a panic.
    pub fn from_hex(s: &str) -> (res: Result<Color, String>)
        ensures
            match res {
                Ok(c) => hex_color(s@) == Some(c),
                Err(m) => hex_color(s@) is None && m@ == bad_colour_text(s@),
            },
    {
        let chars = crate::text::chars_of(s);
        let start: usize = if chars.len() > 0 && chars[0] == '#' { 1 } else { 0 };
        let ghost h = hex_digits(s@);
        assert(h =~= chars@.skip(start as int));
        let n = chars.len() - start;
        let mut i: usize = start;
        while i < chars.len()
            invariant
                start <= i <= chars.len(),
                chars@ == s@,
                h == hex_digits(s@),
                h =~= chars@.skip(start as int),
                forall|j: int| start <= j < i ==> chars@[j] <= '\u{7f}',
            decreases chars.len() - i,
        {
            if chars[i] > '\u{7f}' {
                assert(h[i - start] == chars@[i as int]);
                assert(!is_ascii_seq(h));
                return Err(bad_colour_message(s));
            }
            i = i + 1;
        }
        assert(is_ascii_seq(h));
        if n == 3 {
            let r = hex_digit_of(chars[start]);
            let g = hex_digit_of(chars[start + 1]);
            let b = hex_digit_of(chars[start + 2]);
            match (r, g, b) {
                (Some(r), Some(g), Some(b)) => Ok(Color::rgba(r * 17, g * 17, b * 17, 255)),
                _ => Err(bad_colour_message(s)),
            }
        } else if n == 6 || n == 8 {
            let r = hex_pair_of(chars[start], chars[start + 1]);
            let g = hex_pair_of(chars[start + 2], chars[start + 3]);
            let b = hex_pair_of(chars[start + 4], chars[start + 5]);
            let a = if n == 8 {
                hex_pair_of(chars[start + 6], chars[start + 7])
            } else {
                Some(255u8)
            };
            match (r, g, b, a) {
                (Some(r), Some(g), Some(b), Some(a)) => Ok(Color::rgba(r, g, b, a)),
                _ => Err(bad_colour_message(s)),
            }
        } else {
            Err(bad_colour_message(s))
        }
    }

    /// wl_shm Argb8888 requires premultiplied alpha, stored as B,G,R,A.
    pub fn to_shm_bytes(self) -> (out: [u8; 4])
        ensures
            out == shm_bytes(self),
    {
        [premul(self.b, self.a), premul(self.g, self.a), premul(self.r, self.a), self.a]
    }
}

} // verus!
