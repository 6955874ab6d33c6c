//! Software rasteriser over a `wl_shm` byte buffer: rectangles, continuous-cornered rectangles
//! and alpha blending. Every write is premultiplied src-over, because several shapes stack on one
//! surface. Edges are hard (not anti-aliased).

use vstd::prelude::*;
use vstd::arithmetic::div_mod::lemma_fundamental_div_mod_converse;

use crate::geom::{contains_fits, rect_fits, rect_has, shm_bytes, Color, Rect};

verus! {

/// Premultiplied src-over of one byte: `src + dst × (1 − src_a)`, capped at 255.
pub open spec fn blend_byte(d: u8, s: u8, a: u8) -> u8 {
    let v = s as int + (d as int * (255 - a as int)) / 255;
    if v > 255 {
        255
    } else {
        v as u8
    }
}

/// The pixel a byte of a `w`-wide Argb8888 buffer belongs to.
pub open spec fn owner_x(w: int, i: int) -> int {
    (i / 4) % w
}

pub open spec fn owner_y(w: int, i: int) -> int {
    (i / 4) / w
}

/// The buffer after blending `color` into every pixel that is inside the canvas, inside the clip
/// and inside `shape`; a fully transparent colour changes nothing.
pub open spec fn painted(
    old: Seq<u8>,
    w: int,
    h: int,
    clip: Option<Rect>,
    color: Color,
    shape: spec_fn(int, int) -> bool,
) -> Seq<u8> {
    Seq::new(
        old.len(),
        |i: int|
            {
                let x = owner_x(w, i);
                let y = owner_y(w, i);
                let src = shm_bytes(color);
                if w > 0 && i < w * h * 4 && 0 <= x < w && 0 <= y < h && (clip matches Some(c)
                    ==> rect_has(c, x, y)) && shape(x, y) && src[3] != 0 {
                    blend_byte(old[i], src[i % 4], src[3])
                } else {
                    old[i]
                }
            },
    )
}

/// A canvas over a caller's buffer. The fields are public so that contracts can say what the
/// buffer holds once the canvas is done with: every drawing call keeps `data` the same borrow
/// (`final(final(self).data) == final(old(self).data)`), and `new` ties it to the caller's buffer,
/// so the caller's buffer ends up holding the canvas's last `bytes()`. The drawing calls require
/// `wf()`.
pub struct Canvas<'a> {
    pub data: &'a mut [u8],
    pub width: i32,
    pub height: i32,
    pub clip: Option<Rect>,
}

/// The bytes of pixel `(x, y)` are `4 × (y × w + x)` up to four further; no other in-canvas byte
/// belongs to that pixel.
proof fn lemma_pixel_bytes(w: int, h: int, x: int, y: int, i: int)
    requires
        0 <= x < w,
        0 <= y < h,
        0 <= i,
    ensures
        ((y * w + x) * 4 <= i < (y * w + x) * 4 + 4) <==> (owner_x(w, i) == x && owner_y(w, i) == y),
        ((y * w + x) * 4 <= i < (y * w + x) * 4 + 4) ==> i % 4 == i - (y * w + x) * 4,
{
    let q = y * w + x;
    if q * 4 <= i < q * 4 + 4 {
        lemma_fundamental_div_mod_converse(i, 4, q, i - q * 4);
        lemma_fundamental_div_mod_converse(q, w, y, x);
    }
    if owner_x(w, i) == x && owner_y(w, i) == y {
        vstd::arithmetic::div_mod::lemma_fundamental_div_mod(i / 4, w);
        vstd::arithmetic::div_mod::lemma_fundamental_div_mod(i, 4);
        assert(i / 4 == y * w + x) by (nonlinear_arith)
            requires
                i / 4 == w * ((i / 4) / w) + (i / 4) % w,
                (i / 4) % w == x,
                (i / 4) / w == y,
        ;
        assert(i % 4 >= 0 && i % 4 < 4);
    }
}

proof fn lemma_pixel_index_bounds(w: int, h: int, x: int, y: int)
    requires
        0 <= x < w,
        0 <= y < h,
    ensures
        0 <= (y * w + x) * 4,
        (y * w + x) * 4 + 4 <= w * h * 4,
{
    assert(0 <= y * w) by (nonlinear_arith)
        requires
            0 <= y,
            0 <= w,
    ;
    assert(y * w + x + 1 <= w * h) by (nonlinear_arith)
        requires
            0 <= x < w,
            0 <= y < h,
    ;
}

impl<'a> Canvas<'a> {
    /// The buffer's bytes.
    pub closed spec fn bytes(&self) -> Seq<u8> {
        self.data@
    }

    pub closed spec fn width(&self) -> int {
        self.width as int
    }

    pub closed spec fn height(&self) -> int {
        self.height as int
    }

    pub closed spec fn clip(&self) -> Option<Rect> {
        self.clip
    }

    /// A canvas with pixels has a buffer that holds them all, and every byte offset fits in an
    /// `i32`. (A canvas of zero or negative size has no pixels and draws nothing.)
    pub closed spec fn wf(&self) -> bool {
        self.width > 0 && self.height > 0 ==> {
            &&& self.width * self.height * 4 <= self.data@.len()
            &&& self.width * self.height * 4 <= i32::MAX
        }
    }

    /// Every pixel of `rect` that lies on the canvas and inside corners of radius `r` can be tested
    /// against the clip without overflow (see `contains_fits`).
    pub open spec fn clip_usable(&self, rect: Rect, r: int) -> bool {
        forall|px: int, py: int|
            #![trigger rect_has(rect, px, py)]
            rect_has(rect, px, py) && in_rounded(rect, r, px, py) && 0 <= px < self.width() && 0 <= py
                < self.height() ==> (self.clip() matches Some(c) ==> contains_fits(c, px, py))
    }

    /// A canvas over `data`; once the canvas is dropped, `data` holds what was drawn.
    pub fn new(data: &'a mut [u8], width: i32, height: i32) -> (c: Self)
        requires
            width > 0 && height > 0 ==> width * height * 4 <= old(data)@.len() && width * height * 4 <= i32::MAX,
        ensures
            c.wf(),
            c.bytes() == old(data)@,
            c.width() == width,
            c.height() == height,
            c.clip() is None,
            final(data)@ == final(c.data)@,
    {
        Canvas { data, width, height, clip: None }
    }

    /// Transparent pixels the surface does not cover must be cleared explicitly, or shm keeps the
    /// previous frame's leftovers.
    pub fn clear(&mut self)
        requires
            old(self).wf(),
        ensures
            final(self).wf(),
            final(self).bytes() == Seq::new(old(self).bytes().len(), |i: int| 0u8),
            final(self).width() == old(self).width(),
            final(self).height() == old(self).height(),
            final(self).clip() == old(self).clip(),
            final(final(self).data)@ == final(old(self).data)@,
    {
        let n = self.data.len();
        let mut i: usize = 0;
        while i < n
            invariant
                n == self.data@.len(),
                n == old(self).data@.len(),
                i <= n,
                self.width == old(self).width,
                self.height == old(self).height,
                self.clip == old(self).clip,
                forall|j: int| 0 <= j < i ==> self.data@[j] == 0u8,
                final(self.data)@ == final(old(self).data)@,
            decreases n - i,
        {
            self.data[i] = 0;
            i = i + 1;
        }
        assert(self.data@ =~= Seq::new(old(self).bytes().len(), |i: int| 0u8));
    }

    /// Set the clip rect; `None` means no clipping.
    pub fn set_clip(&mut self, clip: Option<Rect>)
        requires
            old(self).wf(),
        ensures
            final(final(self).data)@ == final(old(self).data)@,
            final(self).wf(),
            final(self).bytes() == old(self).bytes(),
            final(self).width() == old(self).width(),
            final(self).height() == old(self).height(),
            final(self).clip() == clip,
    {
        self.clip = clip;
    }

    /// Blends one pixel; pixels outside the canvas or the clip are left alone.
    fn blend_px(&mut self, x: i32, y: i32, color: Color)
        requires
            old(self).wf(),
            0 <= x < old(self).width() && 0 <= y < old(self).height() ==> (old(self).clip() matches Some(c)
                ==> contains_fits(c, x as int, y as int)),
        ensures
            final(final(self).data)@ == final(old(self).data)@,
            final(self).wf(),
            final(self).bytes() == painted(
                old(self).bytes(),
                old(self).width(),
                old(self).height(),
                old(self).clip(),
                color,
                |px: int, py: int| px == x && py == y,
            ),
            final(self).width() == old(self).width(),
            final(self).height() == old(self).height(),
            final(self).clip() == old(self).clip(),
    {
        let ghost shape = |px: int, py: int| px == x && py == y;
        let ghost w = self.width as int;
        let ghost h = self.height as int;
        let inside = x >= 0 && y >= 0 && x < self.width && y < self.height && match self.clip {
            Some(c) => c.contains(x, y),
            None => true,
        };
        let src = color.to_shm_bytes();
        if !inside || src[3] == 0 {
            proof {
                assert forall|i: int| 0 <= i < self.data@.len() implies self.data@[i] == painted(
                    self.data@, w, h, self.clip, color, shape)[i] by {
                    if w > 0 && i < w * h * 4 && owner_x(w, i) == x && owner_y(w, i) == y {
                        assert(!inside || src[3] == 0);
                    }
                }
                assert(self.data@ =~= painted(self.data@, w, h, self.clip, color, shape));
            }
            return;
        }
        proof {
            lemma_pixel_index_bounds(w, h, x as int, y as int);
        }
        let base = ((y * self.width + x) * 4) as usize;
        let ghost before = self.data@;
        // The buffer holds premultiplied values, so src-over is dst = src + dst * (1 - src_a); the
        // alpha channel uses the same formula.
        let inv = 255 - src[3] as u32;
        let mut k: usize = 0;
        while k < 4
            invariant
                final(self.data)@ == final(old(self).data)@,
                k <= 4,
                base + 4 <= self.data.len(),
                self.data@.len() == before.len(),
                inv == 255 - src[3] as u32,
                self.width == old(self).width,
                self.height == old(self).height,
                self.clip == old(self).clip,
                forall|j: int| 0 <= j < self.data@.len() && !(base <= j < base + k) ==> self.data@[j] == before[j],
                forall|j: int| base <= j < base + k ==> self.data@[j] == blend_byte(before[j], src[j - base], src[3]),
            decreases 4 - k,
        {
            let d = self.data[base + k] as u32;
            let s = src[k] as u32;
            proof {
                assert(d * inv <= 255 * 255) by (nonlinear_arith)
                    requires
                        d <= 255,
                        inv <= 255,
                ;
            }
            let v = s + d * inv / 255;
            self.data[base + k] = if v > 255 { 255 } else { v as u8 };
            k = k + 1;
        }
        proof {
            assert forall|i: int| 0 <= i < self.data@.len() implies self.data@[i] == painted(
                before, w, h, self.clip, color, shape)[i] by {
                lemma_pixel_bytes(w, h, x as int, y as int, i);
                if base <= i < base + 4 {
                    assert(w > 0);
                    assert(i < w * h * 4);
                }
            }
            assert(self.data@ =~= painted(before, w, h, self.clip, color, shape));
        }
    }

    pub fn fill_rect(&mut self, rect: Rect, color: Color)
        requires
            old(self).wf(),
            i32::MIN <= rect.y + rect.h <= i32::MAX,
            rect.h > 0 ==> i32::MIN <= rect.x + rect.w <= i32::MAX,
            old(self).clip_usable(rect, 0),
        ensures
            final(final(self).data)@ == final(old(self).data)@,
            final(self).wf(),
            final(self).bytes() == painted(
                old(self).bytes(),
                old(self).width(),
                old(self).height(),
                old(self).clip(),
                color,
                |px: int, py: int| rect_has(rect, px, py),
            ),
            final(self).width() == old(self).width(),
            final(self).height() == old(self).height(),
            final(self).clip() == old(self).clip(),
    {
        if rect.w <= 0 || rect.h <= 0 {
            proof {
                let ghost shape = |px: int, py: int| rect_has(rect, px, py);
                assert(self.data@ =~= painted(self.data@, self.width as int, self.height as int, self.clip, color, shape));
            }
            return;
        }
        self.fill_shape(rect, 0, color);
    }

    /// Fills the part of `rect` that `in_rounded` accepts, row by row.
    fn fill_shape(&mut self, rect: Rect, r: i32, color: Color)
        requires
            old(self).wf(),
            rect_fits(rect),
            old(self).clip_usable(rect, r as int),
            0 <= r,
            r == 0 || (2 * r <= rect.w && 2 * r <= rect.h),
        ensures
            final(final(self).data)@ == final(old(self).data)@,
            final(self).wf(),
            final(self).bytes() == painted(
                old(self).bytes(),
                old(self).width(),
                old(self).height(),
                old(self).clip(),
                color,
                |px: int, py: int| rect_has(rect, px, py) && in_rounded(rect, r as int, px, py),
            ),
            final(self).width() == old(self).width(),
            final(self).height() == old(self).height(),
            final(self).clip() == old(self).clip(),
    {
        let ghost orig = self.data@;
        let ghost w = self.width as int;
        let ghost h = self.height as int;
        let ghost clip = self.clip;
        let bottom = rect.bottom();
        let right = rect.right();
        let mut y = rect.y;
        proof {
            assert(orig =~= painted(orig, w, h, clip, color, |px: int, py: int| false));
        }
        while y < bottom
            invariant
                final(self.data)@ == final(old(self).data)@,
                self.wf(),
                rect_fits(rect),
                0 <= r,
                r == 0 || (2 * r <= rect.w && 2 * r <= rect.h),
                bottom == rect.y + rect.h,
                right == rect.x + rect.w,
                rect.y <= y,
                y <= bottom || y == rect.y,
                self.width == w,
                self.height == h,
                self.clip == clip,
                self.clip_usable(rect, r as int),
                self.data@ == painted(orig, w, h, clip, color,
                    |px: int, py: int| rect_has(rect, px, py) && in_rounded(rect, r as int, px, py) && py < y),
            decreases bottom - y,
        {
            let mut x = rect.x;
            while x < right
                invariant
                    final(self.data)@ == final(old(self).data)@,
                    self.wf(),
                    rect_fits(rect),
                    0 <= r,
                    r == 0 || (2 * r <= rect.w && 2 * r <= rect.h),
                    bottom == rect.y + rect.h,
                    right == rect.x + rect.w,
                    rect.y <= y < bottom,
                    rect.x <= x,
                    x <= right || x == rect.x,
                    self.width == w,
                    self.height == h,
                    self.clip == clip,
                    self.clip_usable(rect, r as int),
                    self.data@ == painted(orig, w, h, clip, color,
                        |px: int, py: int| rect_has(rect, px, py) && in_rounded(rect, r as int, px, py)
                            && (py < y || (py == y && px < x))),
                decreases right - x,
            {
                if r == 0 || inside_rounded(rect, r, x, y) {
                    let ghost before = self.data@;
                    assert(rect_has(rect, x as int, y as int));
                    assert(in_rounded(rect, r as int, x as int, y as int));
                    self.blend_px(x, y, color);
                    proof {
                        assert(self.data@ =~= painted(orig, w, h, clip, color,
                            |px: int, py: int| rect_has(rect, px, py) && in_rounded(rect, r as int, px, py)
                                && (py < y || (py == y && px < x + 1))));
                    }
                } else {
                    proof {
                        assert(!in_rounded(rect, r as int, x as int, y as int));
                        assert(self.data@ =~= painted(orig, w, h, clip, color,
                            |px: int, py: int| rect_has(rect, px, py) && in_rounded(rect, r as int, px, py)
                                && (py < y || (py == y && px < x + 1))));
                    }
                }
                x = x + 1;
            }
            proof {
                assert(self.data@ =~= painted(orig, w, h, clip, color,
                    |px: int, py: int| rect_has(rect, px, py) && in_rounded(rect, r as int, px, py) && py < y + 1));
            }
            y = y + 1;
        }
        proof {
            assert(self.data@ =~= painted(orig, w, h, clip, color,
                |px: int, py: int| rect_has(rect, px, py) && in_rounded(rect, r as int, px, py)));
        }
    }

    /// A rectangle with continuous ("squircle") corners of the given radius; the radius is capped
    /// at half the short side.
    pub fn fill_rounded_rect(&mut self, rect: Rect, radius: i32, color: Color)
        requires
            old(self).wf(),
            rect.w > 0 && rect.h > 0 ==> rect_fits(rect) && old(self).clip_usable(
                rect,
                corner_radius(rect, radius as int),
            ),
        ensures
            final(final(self).data)@ == final(old(self).data)@,
            final(self).wf(),
            final(self).bytes() == if rect.w <= 0 || rect.h <= 0 {
                old(self).bytes()
            } else {
                painted(
                    old(self).bytes(),
                    old(self).width(),
                    old(self).height(),
                    old(self).clip(),
                    color,
                    |px: int, py: int| rect_has(rect, px, py) && in_rounded(
                        rect,
                        corner_radius(rect, radius as int),
                        px,
                        py,
                    ),
                )
            },
            final(self).width() == old(self).width(),
            final(self).height() == old(self).height(),
            final(self).clip() == old(self).clip(),
    {
        if rect.is_empty() {
            return;
        }
        // The radius must not exceed half the short side, or the shape self-intersects.
        let short = if rect.w <= rect.h { rect.w } else { rect.h };
        let r = if radius < 0 { 0 } else if radius > short / 2 { short / 2 } else { radius };
        self.fill_shape(rect, r, color);
    }
}

/// The radius actually drawn: clamped to `0..=min(w, h) / 2`.
pub open spec fn corner_radius(rect: Rect, radius: int) -> int {
    let short = if rect.w <= rect.h { rect.w as int } else { rect.h as int };
    if radius < 0 {
        0
    } else if radius > short / 2 {
        short / 2
    } else {
        radius
    }
}

/// Offset of a pixel centre from the nearest corner centre along one axis, in half pixels: the
/// centre `2p + 1` clamped into `[2(lo + r), 2(hi − r)]`, subtracted from the centre.
pub open spec fn corner_offset(p: int, lo: int, hi: int, r: int) -> int {
    let c = 2 * p + 1;
    let a = 2 * (lo + r);
    let b = 2 * (hi - r);
    if c < a {
        c - a
    } else if c > b {
        c - b
    } else {
        0
    }
}

pub open spec fn pow4(v: int) -> int {
    v * v * v * v
}

/// Whether a pixel centre lies inside the continuous corner curve `|x|⁴ + |y|⁴ ≤ r⁴` measured from
/// the corner centres (half-pixel units, so the test is exact). Away from the corners both offsets
/// are zero. A zero radius is a plain rectangle.
pub open spec fn in_rounded(rect: Rect, r: int, x: int, y: int) -> bool {
    r == 0 || pow4(corner_offset(x, rect.x as int, rect.x + rect.w, r)) + pow4(
        corner_offset(y, rect.y as int, rect.y + rect.h, r),
    ) <= pow4(2 * r)
}

fn corner_offset_exec(p: i32, lo: i32, hi: i32, r: i32) -> (d: i64)
    requires
        lo <= p < hi,
        0 <= r,
        2 * r <= hi - lo,
    ensures
        d == corner_offset(p as int, lo as int, hi as int, r as int),
        -2 * r <= d <= 2 * r,
{
    let c = 2 * (p as i64) + 1;
    let a = 2 * (lo as i64 + r as i64);
    let b = 2 * (hi as i64 - r as i64);
    if c < a {
        c - a
    } else if c > b {
        c - b
    } else {
        0
    }
}

fn pow4_exec(v: u128) -> (p: u128)
    requires
        v <= 0x8000_0000,
    ensures
        p == pow4(v as int),
        p <= 0x1000_0000_0000_0000_0000_0000_0000_0000,
{
    proof {
        assert(v * v <= 0x8000_0000 * 0x8000_0000) by (nonlinear_arith)
            requires
                v <= 0x8000_0000,
        ;
        assert((v * v) * (v * v) <= (0x8000_0000 * 0x8000_0000) * (0x8000_0000 * 0x8000_0000)) by (nonlinear_arith)
            requires
                v * v <= 0x8000_0000 * 0x8000_0000,
                v >= 0,
        ;
        assert((v * v) * (v * v) == v * v * v * v) by (nonlinear_arith);
    }
    let sq = v * v;
    sq * sq
}

proof fn lemma_pow4_abs(v: int)
    ensures
        pow4(v) == pow4(if v < 0 { -v } else { v }),
{
    assert(v * v * v * v == (-v) * (-v) * (-v) * (-v)) by (nonlinear_arith);
}

/// The exact corner test for one pixel of a non-empty rect.
fn inside_rounded(rect: Rect, r: i32, x: i32, y: i32) -> (b: bool)
    requires
        rect_fits(rect),
        0 <= r,
        2 * r <= rect.w,
        2 * r <= rect.h,
        rect_has(rect, x as int, y as int),
    ensures
        b == in_rounded(rect, r as int, x as int, y as int),
{
    let dx = corner_offset_exec(x, rect.x, rect.right(), r);
    let dy = corner_offset_exec(y, rect.y, rect.bottom(), r);
    let ax: u128 = if dx < 0 { (-dx) as u128 } else { dx as u128 };
    let ay: u128 = if dy < 0 { (-dy) as u128 } else { dy as u128 };
    let d: u128 = 2 * (r as u128);
    proof {
        lemma_pow4_abs(dx as int);
        lemma_pow4_abs(dy as int);
    }
    r == 0 || pow4_exec(ax) + pow4_exec(ay) <= pow4_exec(d)
}

} // verus!
