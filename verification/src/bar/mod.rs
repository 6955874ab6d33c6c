//! Bar section layout: left hugs the left edge, right hugs the right edge, center is centred on the
//! screen midline. The bar is a plain rectangle, so both ends keep only `bar.padding`.

pub mod modules;

use vstd::prelude::*;

use crate::config::{Config, ModuleSpec};
use crate::geom::{fits32, fits_i32, Rect};
use crate::theme::{tdiv, Theme};
use crate::widget::{Event, Module, Span};

pub use modules::{Clock, Exec};

verus! {

/// Measured widths of each section's modules, in pixels.
pub struct SectionWidths {
    pub left: Vec<i32>,
    pub center: Vec<i32>,
    pub right: Vec<i32>,
}

#[derive(Clone, Debug, PartialEq)]
pub struct BarLayout {
    pub left: Vec<Rect>,
    pub center: Vec<Rect>,
    pub right: Vec<Rect>,
}

/// Section index of the left, center and right lists.
pub const SEC_LEFT: usize = 0;

pub const SEC_CENTER: usize = 1;

pub const SEC_RIGHT: usize = 2;

/// How far a run of modules advances the pen: each module that draws something takes its width
/// plus one gap; an empty one takes nothing.
pub open spec fn advance(ws: Seq<i32>, s: int) -> int
    decreases ws.len(),
{
    if ws.len() == 0 {
        0
    } else {
        advance(ws.drop_last(), s) + if ws.last() > 0 {
            ws.last() + s
        } else {
            0
        }
    }
}

pub open spec fn width_sum(ws: Seq<i32>) -> int
    decreases ws.len(),
{
    if ws.len() == 0 {
        0
    } else {
        width_sum(ws.drop_last()) + ws.last()
    }
}

/// How many modules draw something.
pub open spec fn filled(ws: Seq<i32>) -> int
    decreases ws.len(),
{
    if ws.len() == 0 {
        0
    } else {
        filled(ws.drop_last()) + if ws.last() > 0 {
            1int
        } else {
            0
        }
    }
}

/// The extent of a section: its widths and the gaps between the modules that draw something.
pub open spec fn extent(ws: Seq<i32>, s: int) -> int {
    if filled(ws) == 0 {
        0
    } else {
        width_sum(ws) + s * (filled(ws) - 1)
    }
}

/// The `i`-th rect of a run that starts at `start`.
pub open spec fn run_rect(ws: Seq<i32>, start: int, s: int, h: int, i: int) -> Rect {
    Rect { x: (start + advance(ws.take(i), s)) as i32, y: 0, w: ws[i], h: h as i32 }
}

pub open spec fn pad_of(theme: Theme) -> int {
    if theme.padding >= 0 { theme.padding as int } else { 0 }
}

pub open spec fn gap_of(theme: Theme) -> int {
    if theme.spacing >= 0 { theme.spacing as int } else { 0 }
}

pub open spec fn center_left(w: SectionWidths, output_w: int, theme: Theme) -> int {
    tdiv(output_w, 2) - tdiv(extent(w.center@, gap_of(theme)), 2)
}

pub open spec fn left_limit(w: SectionWidths, output_w: int, theme: Theme) -> int {
    if w.center@.len() == 0 {
        output_w
    } else {
        center_left(w, output_w, theme) - gap_of(theme)
    }
}

pub open spec fn right_limit(w: SectionWidths, output_w: int, theme: Theme) -> int {
    if w.center@.len() == 0 {
        output_w
    } else {
        center_left(w, output_w, theme) + extent(w.center@, gap_of(theme)) + gap_of(theme)
    }
}

pub open spec fn right_start(w: SectionWidths, output_w: int, theme: Theme) -> int {
    let p = pad_of(theme);
    let from_edge = output_w - p - extent(w.right@, gap_of(theme));
    if p >= from_edge { p } else { from_edge }
}

/// A rect cut at `limit`: the width first, so the right edge never crosses the limit and the width
/// is never negative, then the start pulled back inside the limit.
pub open spec fn cut_at_limit(r: Rect, limit: int) -> Rect {
    let room = if limit - r.x > 0 { limit - r.x } else { 0 };
    Rect {
        x: (if r.x > limit { limit } else { r.x as int }) as i32,
        y: r.y,
        w: (if r.w <= room { r.w as int } else { room }) as i32,
        h: r.h,
    }
}

/// A rect cut at the right edge `edge`, then, when there is a center block and the rect starts
/// before `limit`, pushed to `limit` and cut at the edge again.
pub open spec fn cut_right(r: Rect, edge: int, limit: int, has_center: bool) -> Rect {
    let room = if edge - r.x > 0 { edge - r.x } else { 0 };
    let w1 = if r.w <= room { r.w as int } else { room };
    if has_center && r.x < limit {
        let room2 = if edge - limit > 0 { edge - limit } else { 0 };
        Rect { x: limit as i32, y: r.y, w: (if w1 <= room2 { w1 } else { room2 }) as i32, h: r.h }
    } else {
        Rect { x: r.x, y: r.y, w: w1 as i32, h: r.h }
    }
}

/// The differences `cut_right` computes fit in an `i32`.
pub open spec fn right_cut_fits(r: Rect, edge: int, limit: int, has_center: bool) -> bool {
    &&& fits32(edge - r.x)
    &&& (has_center && r.x < limit ==> fits32(edge - limit))
}

/// Left module `i`: laid out from the padding, then cut at the center's limit.
pub open spec fn left_rect(w: SectionWidths, output_w: int, theme: Theme, i: int) -> Rect {
    cut_at_limit(
        run_rect(w.left@, pad_of(theme), gap_of(theme), theme.height as int, i),
        left_limit(w, output_w, theme),
    )
}

/// Right module `i`: laid out so the run ends at the padding, cut at the padding, then pushed
/// past the center's limit.
pub open spec fn right_rect(w: SectionWidths, output_w: int, theme: Theme, i: int) -> Rect {
    cut_right(
        run_rect(w.right@, right_start(w, output_w, theme), gap_of(theme), theme.height as int, i),
        output_w - pad_of(theme),
        right_limit(w, output_w, theme),
        w.center@.len() > 0,
    )
}

/// Center module `i`: laid out from the centred start.
pub open spec fn center_rect(w: SectionWidths, output_w: int, theme: Theme, i: int) -> Rect {
    run_rect(w.center@, center_left(w, output_w, theme), gap_of(theme), theme.height as int, i)
}

/// Every pen position a run computes fits in an `i32`: for each module that draws something, its
/// width plus one gap, and the pen once that is added.
pub open spec fn run_fits(ws: Seq<i32>, start: int, s: int) -> bool {
    forall|i: int|
        #![trigger ws[i]]
        0 <= i < ws.len() && ws[i] > 0 ==> fits32(ws[i] + s) && fits32(start + advance(ws.take(i + 1), s))
}

/// Every value summing up a section fits in an `i32`: each partial sum of its widths, the count of
/// the modules that draw something, and the gaps between them.
pub open spec fn extent_fits(ws: Seq<i32>, s: int) -> bool {
    &&& forall|i: int| 0 <= i <= ws.len() ==> fits32(#[trigger] width_sum(ws.take(i)))
    &&& fits32(filled(ws))
    &&& filled(ws) > 0 ==> fits32(s * (filled(ws) - 1)) && fits32(width_sum(ws) + s * (filled(ws) - 1))
}

/// Every value `layout` computes fits in an `i32`: the center block's extent, start and end and the
/// limits it sets; the pen positions of each run; the room each module has before its limit; and
/// where the right run starts.
pub open spec fn layout_fits(w: SectionWidths, output_w: int, theme: Theme) -> bool {
    let s = gap_of(theme);
    let p = pad_of(theme);
    let h = theme.height as int;
    let cl = center_left(w, output_w, theme);
    let ct = extent(w.center@, s);
    let rs = right_start(w, output_w, theme);
    let rl = right_limit(w, output_w, theme);
    &&& extent_fits(w.center@, s)
    &&& fits32(cl)
    &&& fits32(cl + ct)
    &&& (w.center@.len() > 0 ==> fits32(cl - s) && fits32(cl + ct + s))
    &&& run_fits(w.left@, p, s)
    &&& forall|i: int|
        #![trigger w.left@[i]]
        0 <= i < w.left@.len() ==> fits32(left_limit(w, output_w, theme) - run_rect(w.left@, p, s, h, i).x)
    &&& extent_fits(w.right@, s)
    &&& fits32(output_w - p)
    &&& fits32(output_w - p - extent(w.right@, s))
    &&& run_fits(w.right@, rs, s)
    &&& forall|i: int|
        #![trigger w.right@[i]]
        0 <= i < w.right@.len() ==> right_cut_fits(run_rect(w.right@, rs, s, h, i), output_w - p, rl, w.center@.len() > 0)
    &&& run_fits(w.center@, cl, s)
}

/// `o` is the layout of these widths: one rect per module, placed as `left_rect`, `center_rect` and
/// `right_rect` say.
pub open spec fn lays_out(o: BarLayout, w: SectionWidths, output_w: int, theme: Theme) -> bool {
    &&& o.left@.len() == w.left@.len()
    &&& o.center@.len() == w.center@.len()
    &&& o.right@.len() == w.right@.len()
    &&& forall|i: int| 0 <= i < w.left@.len() ==> o.left@[i] == left_rect(w, output_w, theme, i)
    &&& forall|i: int| 0 <= i < w.center@.len() ==> o.center@[i] == center_rect(w, output_w, theme, i)
    &&& forall|i: int| 0 <= i < w.right@.len() ==> o.right@[i] == right_rect(w, output_w, theme, i)
}

/// The pen positions of a run that fits are `i32` values.
proof fn lemma_run_xs_fit(ws: Seq<i32>, start: int, s: int, i: int)
    requires
        run_fits(ws, start, s),
        fits32(start),
        0 <= i <= ws.len(),
    ensures
        fits32(start + advance(ws.take(i), s)),
    decreases i,
{
    if i > 0 {
        lemma_run_xs_fit(ws, start, s, i - 1);
        assert(ws.take(i).drop_last() =~= ws.take(i - 1));
        if ws[i - 1] > 0 {
            assert(ws.take(i) =~= ws.take((i - 1) + 1));
        }
    } else {
        assert(ws.take(0) =~= Seq::<i32>::empty());
    }
}

/// Runs a section from `start`: each module gets its width; modules that draw something are
/// followed by one gap. `None` when a pen position would not fit in an `i32`.
fn run_checked(ws: &Vec<i32>, start: i32, s: i32, h: i32) -> (out: Option<Vec<Rect>>)
    requires
        s >= 0,
    ensures
        out is Some <==> run_fits(ws@, start as int, s as int),
        out matches Some(rs) ==> rs@.len() == ws@.len() && forall|i: int|
            0 <= i < ws@.len() ==> rs@[i] == run_rect(ws@, start as int, s as int, h as int, i),
{
    let mut out: Vec<Rect> = Vec::new();
    let mut x = start;
    let mut i: usize = 0;
    proof {
        assert(ws@.take(0) =~= Seq::<i32>::empty());
    }
    while i < ws.len()
        invariant
            i <= ws@.len(),
            s >= 0,
            x == start + advance(ws@.take(i as int), s as int),
            out@.len() == i,
            forall|j: int| 0 <= j < i ==> out@[j] == run_rect(ws@, start as int, s as int, h as int, j),
            forall|j: int|
                #![trigger ws@[j]]
                0 <= j < i && ws@[j] > 0 ==> fits32(ws@[j] + s) && fits32(start + advance(ws@.take(j + 1), s as int)),
        decreases ws.len() - i,
    {
        proof {
            assert(ws@.take(i + 1).drop_last() =~= ws@.take(i as int));
        }
        let w = ws[i];
        out.push(Rect::new(x, 0, w, h));
        if w > 0 {
            let step = w as i64 + s as i64;
            if !fits_i32(step) {
                return None;
            }
            let next = x as i64 + step;
            if !fits_i32(next) {
                return None;
            }
            x = next as i32;
        }
        i = i + 1;
    }
    Some(out)
}

/// The width a section's modules and gaps take together (see `extent`), or `None` when a value
/// summing it up would not fit in an `i32`.
fn extent_checked(ws: &Vec<i32>, s: i32) -> (t: Option<i32>)
    requires
        s >= 0,
    ensures
        t is Some <==> extent_fits(ws@, s as int),
        t matches Some(v) ==> v == extent(ws@, s as int),
{
    let mut sum: i32 = 0;
    let mut count: usize = 0;
    let mut i: usize = 0;
    proof {
        assert(ws@.take(0) =~= Seq::<i32>::empty());
    }
    while i < ws.len()
        invariant
            i <= ws@.len(),
            sum == width_sum(ws@.take(i as int)),
            count == filled(ws@.take(i as int)),
            count <= i,
            forall|j: int| 0 <= j <= i ==> fits32(#[trigger] width_sum(ws@.take(j))),
        decreases ws.len() - i,
    {
        proof {
            assert(ws@.take(i + 1).drop_last() =~= ws@.take(i as int));
        }
        let w = ws[i];
        let next = sum as i64 + w as i64;
        assert(next == width_sum(ws@.take(i + 1)));
        if !fits_i32(next) {
            return None;
        }
        sum = next as i32;
        if w > 0 {
            count = count + 1;
        }
        i = i + 1;
    }
    proof {
        assert(ws@.take(ws@.len() as int) =~= ws@);
    }
    if count > i32::MAX as usize {
        return None;
    }
    if count == 0 {
        return Some(0);
    }
    proof {
        assert(0 <= s * (count - 1) <= 0x8000_0000 * 0x8000_0000) by (nonlinear_arith)
            requires
                0 <= s <= 0x8000_0000,
                1 <= count <= 0x8000_0000,
        ;
    }
    let gaps = s as i64 * (count as i64 - 1);
    if !fits_i32(gaps) {
        return None;
    }
    let total = sum as i64 + gaps;
    if !fits_i32(total) {
        return None;
    }
    Some(total as i32)
}

/// Cuts each rect of the left run at `limit` (see `cut_at_limit`); `None` when the room before the
/// limit would not fit in an `i32`.
fn cut_left(run: Vec<Rect>, limit: i32) -> (out: Option<Vec<Rect>>)
    ensures
        out is Some <==> forall|j: int| 0 <= j < run@.len() ==> fits32(limit - #[trigger] run@[j].x),
        out matches Some(v) ==> v@.len() == run@.len() && forall|j: int|
            0 <= j < run@.len() ==> v@[j] == cut_at_limit(#[trigger] run@[j], limit as int),
{
    let mut out: Vec<Rect> = Vec::new();
    let mut i: usize = 0;
    while i < run.len()
        invariant
            i <= run@.len(),
            out@.len() == i,
            forall|j: int| 0 <= j < i ==> fits32(limit - #[trigger] run@[j].x),
            forall|j: int| 0 <= j < i ==> out@[j] == cut_at_limit(#[trigger] run@[j], limit as int),
        decreases run.len() - i,
    {
        let r = run[i];
        let d = limit as i64 - r.x as i64;
        if !fits_i32(d) {
            return None;
        }
        // Cut the width first, then pull the start back inside the limit: the right edge never
        // crosses the center and the width is never negative.
        let room: i32 = if d > 0 { d as i32 } else { 0 };
        let w = if r.w <= room { r.w } else { room };
        let x = if r.x > limit { limit } else { r.x };
        out.push(Rect::new(x, r.y, w, r.h));
        i = i + 1;
    }
    Some(out)
}

/// Cuts each rect of the right run at `edge` and, with a center block, pushes it past `limit` (see
/// `cut_right`); `None` when the room before the edge would not fit in an `i32`.
fn cut_right_run(run: Vec<Rect>, edge: i32, limit: i32, has_center: bool) -> (out: Option<Vec<Rect>>)
    ensures
        out is Some <==> forall|j: int| 0 <= j < run@.len() ==> right_cut_fits(#[trigger] run@[j], edge as int, limit as int, has_center),
        out matches Some(v) ==> v@.len() == run@.len() && forall|j: int|
            0 <= j < run@.len() ==> v@[j] == cut_right(#[trigger] run@[j], edge as int, limit as int, has_center),
{
    let mut out: Vec<Rect> = Vec::new();
    let mut i: usize = 0;
    while i < run.len()
        invariant
            i <= run@.len(),
            out@.len() == i,
            forall|j: int| 0 <= j < i ==> right_cut_fits(#[trigger] run@[j], edge as int, limit as int, has_center),
            forall|j: int| 0 <= j < i ==> out@[j] == cut_right(#[trigger] run@[j], edge as int, limit as int, has_center),
        decreases run.len() - i,
    {
        let r = run[i];
        let d = edge as i64 - r.x as i64;
        if !fits_i32(d) {
            assert(!right_cut_fits(run@[i as int], edge as int, limit as int, has_center));
            return None;
        }
        let room: i32 = if d > 0 { d as i32 } else { 0 };
        let w1 = if r.w <= room { r.w } else { room };
        let fixed = if has_center && r.x < limit {
            let d2 = edge as i64 - limit as i64;
            if !fits_i32(d2) {
                assert(!right_cut_fits(run@[i as int], edge as int, limit as int, has_center));
                return None;
            }
            let room2: i32 = if d2 > 0 { d2 as i32 } else { 0 };
            Rect::new(limit, r.y, if w1 <= room2 { w1 } else { room2 }, r.h)
        } else {
            Rect::new(r.x, r.y, w1, r.h)
        };
        out.push(fixed);
        i = i + 1;
    }
    Some(out)
}

/// Lays each section out with `spacing` between its modules (see `layout`); `None` when a value of
/// the layout would not fit in an `i32`.
#[verifier::rlimit(40)]
pub fn layout_checked(widths: &SectionWidths, output_w: i32, theme: &Theme) -> (out: Option<BarLayout>)
    ensures
        out is Some <==> layout_fits(*widths, output_w as int, *theme),
        out matches Some(o) ==> lays_out(o, *widths, output_w as int, *theme),
{
    let h = theme.height;
    let p = if theme.padding >= 0 { theme.padding } else { 0 };
    let s = if theme.spacing >= 0 { theme.spacing } else { 0 };
    let ghost w = *widths;
    let ghost ow = output_w as int;
    let ghost t = *theme;
    let center_total = match extent_checked(&widths.center, s) {
        Some(v) => v,
        None => return None,
    };
    let cl = (output_w / 2) as i64 - (center_total / 2) as i64;
    if !fits_i32(cl) {
        return None;
    }
    let center_left = cl as i32;
    assert(center_left == crate::bar::center_left(w, ow, t));
    let cr = center_left as i64 + center_total as i64;
    if !fits_i32(cr) {
        return None;
    }
    let center_right = cr as i32;
    let has_center = widths.center.len() > 0;
    if has_center {
        if !fits_i32(center_left as i64 - s as i64) || !fits_i32(center_right as i64 + s as i64) {
            return None;
        }
    }
    // center has priority: it is carved out of the available width first
    let left_limit = if has_center { center_left - s } else { output_w };
    let right_limit = if has_center { center_right + s } else { output_w };
    assert(p == pad_of(t) && s == gap_of(t));
    assert(left_limit == crate::bar::left_limit(w, ow, t));
    assert(right_limit == crate::bar::right_limit(w, ow, t));

    let left_run = match run_checked(&widths.left, p, s, h) {
        Some(v) => v,
        None => return None,
    };
    let ghost lrun = left_run@;
    let left = match cut_left(left_run, left_limit) {
        Some(v) => v,
        None => {
            proof {
                let j = choose|j: int| 0 <= j < lrun.len() && !fits32(left_limit - #[trigger] lrun[j].x);
                assert(w.left@[j] == lrun[j].w);
            }
            return None;
        },
    };

    let right_total = match extent_checked(&widths.right, s) {
        Some(v) => v,
        None => return None,
    };
    let op = output_w as i64 - p as i64;
    if !fits_i32(op) {
        return None;
    }
    let from_edge = op - right_total as i64;
    if !fits_i32(from_edge) {
        return None;
    }
    let from_edge = from_edge as i32;
    let right_start = if p >= from_edge { p } else { from_edge };
    assert(right_start == crate::bar::right_start(w, ow, t));
    let right_run = match run_checked(&widths.right, right_start, s, h) {
        Some(v) => v,
        None => return None,
    };
    let ghost rrun = right_run@;
    let right = match cut_right_run(right_run, op as i32, right_limit, has_center) {
        Some(v) => v,
        None => {
            proof {
                let j = choose|j: int| 0 <= j < rrun.len() && !right_cut_fits(#[trigger] rrun[j], op as int, right_limit as int, has_center);
                assert(w.right@[j] == rrun[j].w);
            }
            return None;
        },
    };

    let center = match run_checked(&widths.center, center_left, s, h) {
        Some(v) => v,
        None => return None,
    };
    proof {
        assert forall|i: int| #![trigger w.left@[i]] 0 <= i < w.left@.len() implies fits32(
            left_limit - run_rect(w.left@, p as int, s as int, h as int, i).x,
        ) by {
            assert(lrun[i] == run_rect(w.left@, p as int, s as int, h as int, i));
        }
        assert forall|i: int| #![trigger w.right@[i]] 0 <= i < w.right@.len() implies right_cut_fits(
            run_rect(w.right@, right_start as int, s as int, h as int, i),
            op as int,
            right_limit as int,
            has_center,
        ) by {
            assert(rrun[i] == run_rect(w.right@, right_start as int, s as int, h as int, i));
        }
        assert forall|i: int| 0 <= i < w.left@.len() implies left@[i] == left_rect(w, ow, t, i) by {
            assert(left@[i] == cut_at_limit(lrun[i], left_limit as int));
        }
        assert forall|i: int| 0 <= i < w.right@.len() implies right@[i] == right_rect(w, ow, t, i) by {
            assert(right@[i] == cut_right(rrun[i], op as int, right_limit as int, has_center));
        }
    }
    Some(BarLayout { left, center, right })
}

/// Lays each section out with `spacing` between its modules; center is placed first and the
/// sides are cut where they would reach it.
pub fn layout(widths: &SectionWidths, output_w: i32, theme: &Theme) -> (out: BarLayout)
    requires
        layout_fits(*widths, output_w as int, *theme),
    ensures
        out.left@.len() == widths.left@.len(),
        out.center@.len() == widths.center@.len(),
        out.right@.len() == widths.right@.len(),
        forall|i: int| 0 <= i < widths.left@.len() ==> out.left@[i] == left_rect(*widths, output_w as int, *theme, i),
        forall|i: int| 0 <= i < widths.center@.len() ==> out.center@[i] == center_rect(*widths, output_w as int, *theme, i),
        forall|i: int| 0 <= i < widths.right@.len() ==> out.right@[i] == right_rect(*widths, output_w as int, *theme, i),
{
    match layout_checked(widths, output_w, theme) {
        Some(o) => o,
        None => {
            assert(false);
            BarLayout { left: Vec::new(), center: Vec::new(), right: Vec::new() }
        },
    }
}

/// Whether `layout` can take these inputs (see `layout_fits`).
pub fn fits_layout(widths: &SectionWidths, output_w: i32, theme: &Theme) -> (b: bool)
    ensures
        b == layout_fits(*widths, output_w as int, *theme),
{
    layout_checked(widths, output_w, theme).is_some()
}

/// Center has priority: a left module never reaches past the gap before the center block (the
/// screen edge when there is no center), and one that draws anything starts at the padding or
/// later.
pub proof fn lemma_left_stays_clear(w: SectionWidths, output_w: int, theme: Theme, i: int)
    requires
        layout_fits(w, output_w, theme),
        0 <= i < w.left@.len(),
    ensures
        left_rect(w, output_w, theme, i).x + left_rect(w, output_w, theme, i).w <= left_limit(
            w,
            output_w,
            theme,
        ),
        left_rect(w, output_w, theme, i).w > 0 ==> left_rect(w, output_w, theme, i).x >= pad_of(
            theme,
        ),
{
    lemma_advance_nonneg(w.left@.take(i), gap_of(theme));
    lemma_run_xs_fit(w.left@, pad_of(theme), gap_of(theme), i);
    assert(w.left@[i] == w.left@[i]);
}

/// A right module starts past the gap after the center block when there is one, and one that
/// draws anything ends at the right padding or earlier.
pub proof fn lemma_right_stays_clear(w: SectionWidths, output_w: int, theme: Theme, i: int)
    requires
        layout_fits(w, output_w, theme),
        0 <= i < w.right@.len(),
    ensures
        w.center@.len() > 0 ==> right_rect(w, output_w, theme, i).x >= right_limit(
            w,
            output_w,
            theme,
        ),
        right_rect(w, output_w, theme, i).w > 0 ==> right_rect(w, output_w, theme, i).x
            + right_rect(w, output_w, theme, i).w <= output_w - pad_of(theme),
{
    lemma_run_xs_fit(w.right@, right_start(w, output_w, theme), gap_of(theme), i);
    assert(w.right@[i] == w.right@[i]);
}

/// The center block is centred on the screen midline, to within the one pixel that integer
/// halving loses.
pub proof fn lemma_center_is_centred(w: SectionWidths, output_w: int, theme: Theme)
    requires
        output_w >= 0,
        extent(w.center@, gap_of(theme)) >= 0,
    ensures
        -1 <= 2 * center_left(w, output_w, theme) + extent(w.center@, gap_of(theme)) - output_w <= 1,
{
}

/// Within a run, a module that draws anything ends one gap before the next module starts (as
/// long as both positions are representable, which `layout_fits` guarantees for a layout).
pub proof fn lemma_run_in_order(ws: Seq<i32>, start: int, s: int, h: int, i: int)
    requires
        0 <= i < ws.len() - 1,
        ws[i] > 0,
        i32::MIN <= start + advance(ws.take(i), s) <= i32::MAX,
        i32::MIN <= start + advance(ws.take(i + 1), s) <= i32::MAX,
    ensures
        run_rect(ws, start, s, h, i).x + run_rect(ws, start, s, h, i).w + s == run_rect(ws, start, s, h, i + 1).x,
{
    assert(ws.take(i + 1).drop_last() =~= ws.take(i));
    assert(ws.take(i + 1).last() == ws[i]);
}

/// The center block keeps its rhythm: each center module that draws anything is followed by one
/// gap, then the next module.
pub proof fn lemma_center_in_order(w: SectionWidths, output_w: int, theme: Theme, i: int)
    requires
        layout_fits(w, output_w, theme),
        0 <= i < w.center@.len() - 1,
        w.center@[i] > 0,
    ensures
        center_rect(w, output_w, theme, i).x + center_rect(w, output_w, theme, i).w + gap_of(theme)
            == center_rect(w, output_w, theme, i + 1).x,
{
    let s = gap_of(theme);
    lemma_run_xs_fit(w.center@, center_left(w, output_w, theme), s, i);
    lemma_run_xs_fit(w.center@, center_left(w, output_w, theme), s, i + 1);
    lemma_run_in_order(w.center@, center_left(w, output_w, theme), s, theme.height as int, i);
}

proof fn lemma_advance_nonneg(ws: Seq<i32>, s: int)
    requires
        s >= 0,
    ensures
        advance(ws, s) >= 0,
    decreases ws.len(),
{
    if ws.len() > 0 {
        lemma_advance_nonneg(ws.drop_last(), s);
    }
}

/// One module of the bar.
pub enum BarModule {
    Clock(Clock),
    Exec(Exec),
}

/// What a module currently shows: the clock's time text or the exec module's latest line.
pub open spec fn shown_text(m: BarModule) -> Seq<char> {
    match m {
        BarModule::Clock(c) => c.text@,
        BarModule::Exec(e) => e.latest@,
    }
}

/// Two module states with the same configuration (kind, format, exec id).
pub open spec fn same_setup(a: BarModule, b: BarModule) -> bool {
    match (a, b) {
        (BarModule::Clock(x), BarModule::Clock(y)) => x.format == y.format,
        (BarModule::Exec(x), BarModule::Exec(y)) => x.id == y.id && x.format == y.format,
        _ => false,
    }
}

/// How a module reacts to an event: exec modules take the line addressed to them, the clock
/// re-reads the time on a wake-up, and neither changes otherwise.
pub open spec fn updated(a: BarModule, b: BarModule, ev: Event) -> bool {
    &&& same_setup(a, b)
    &&& match (a, b) {
        (BarModule::Exec(x), BarModule::Exec(y)) => y.latest@ == modules::exec_latest(x, ev),
        (BarModule::Clock(x), BarModule::Clock(y)) => !(ev is Wake) ==> y.text == x.text,
        _ => false,
    }
}

impl Module for BarModule {
    fn update(&mut self, ev: &Event) -> (changed: bool)
        ensures
            updated(*old(self), *final(self), *ev),
            changed == (shown_text(*final(self)) != shown_text(*old(self))),
    {
        match self {
            BarModule::Clock(c) => c.update(ev),
            BarModule::Exec(e) => e.update(ev),
        }
    }

    fn spans(&self) -> (s: Vec<Span>)
        ensures
            s@.len() == 1,
            s@[0].text@ == match *self {
                BarModule::Clock(c) => c.text@,
                BarModule::Exec(e) => modules::formatted(e.format@, e.latest@),
            },
    {
        match self {
            BarModule::Clock(c) => c.spans(),
            BarModule::Exec(e) => e.spans(),
        }
    }
}

pub struct Sections {
    pub left: Vec<BarModule>,
    pub center: Vec<BarModule>,
    pub right: Vec<BarModule>,
    /// (section, index) of a module whose width comes from outside itself; the bar's module kinds
    /// measure themselves, so there is none.
    notif_at: Option<(usize, usize)>,
    /// Width reserved for that module; 0 while nothing is reserved.
    notif_width: i32,
}

/// How many exec modules a list of specs holds.
pub open spec fn exec_count(specs: Seq<ModuleSpec>) -> int
    decreases specs.len(),
{
    if specs.len() == 0 {
        0
    } else {
        exec_count(specs.drop_last()) + if specs.last() is Exec {
            1int
        } else {
            0
        }
    }
}

/// A module built from its spec: a clock with the spec's format, or an exec module with the given
/// id and format that has printed nothing yet.
pub open spec fn built_from(m: BarModule, spec: ModuleSpec, exec_id: int) -> bool {
    match (m, spec) {
        (BarModule::Clock(c), ModuleSpec::Clock { format }) => c.format@ == format@,
        (BarModule::Exec(e), ModuleSpec::Exec { format, .. }) => e.id == exec_id && e.format@
            == format@ && e.latest@ == Seq::<char>::empty(),
        _ => false,
    }
}

/// A section built from its specs: exec modules are numbered in order, starting after `first`.
pub open spec fn section_built(ms: Seq<BarModule>, specs: Seq<ModuleSpec>, first: int) -> bool {
    &&& ms.len() == specs.len()
    &&& forall|i: int| 0 <= i < specs.len() ==> built_from(#[trigger] ms[i], specs[i], first + exec_count(specs.take(i)) + 1)
}

/// The child processes a section's exec modules need: (exec id, command), in order.
pub open spec fn section_jobs(jobs: Seq<(usize, String)>, specs: Seq<ModuleSpec>, first: int) -> bool {
    &&& jobs.len() == exec_count(specs)
    &&& forall|i: int| 0 <= i < specs.len() && (specs[i] is Exec) ==> ({
        let k = exec_count(specs.take(i));
        &&& jobs[k].0 == first + k + 1
        &&& jobs[k].1@ == specs[i]->command@
    })
}

proof fn lemma_exec_count_step(specs: Seq<ModuleSpec>, i: int)
    requires
        0 <= i < specs.len(),
    ensures
        exec_count(specs.take(i + 1)) == exec_count(specs.take(i)) + if specs[i] is Exec {
            1int
        } else {
            0
        },
{
    assert(specs.take(i + 1).drop_last() =~= specs.take(i));
}

proof fn lemma_exec_count_bounds(specs: Seq<ModuleSpec>)
    ensures
        0 <= exec_count(specs) <= specs.len(),
    decreases specs.len(),
{
    if specs.len() > 0 {
        lemma_exec_count_bounds(specs.drop_last());
    }
}

proof fn lemma_exec_count_prefix(specs: Seq<ModuleSpec>, i: int)
    requires
        0 <= i <= specs.len(),
    ensures
        0 <= exec_count(specs.take(i)) <= i,
        exec_count(specs.take(i)) <= exec_count(specs),
        i < specs.len() ==> exec_count(specs.take(i + 1)) == exec_count(specs.take(i)) + if specs[i] is Exec { 1int } else { 0 },
{
    lemma_exec_count_bounds(specs.take(i));
    lemma_exec_count_mono(specs, i, specs.len() as int);
    assert(specs.take(specs.len() as int) =~= specs);
    if i < specs.len() {
        lemma_exec_count_step(specs, i);
    }
}

/// Builds one section's modules, numbering its exec modules after `first`.
fn build(specs: &Vec<ModuleSpec>, first: usize, jobs: &mut Vec<(usize, String)>) -> (ms: Vec<BarModule>)
    requires
        first + specs@.len() <= usize::MAX,
    ensures
        section_built(ms@, specs@, first as int),
        final(jobs)@.len() == old(jobs)@.len() + exec_count(specs@),
        final(jobs)@.take(old(jobs)@.len() as int) == old(jobs)@,
        section_jobs(final(jobs)@.skip(old(jobs)@.len() as int), specs@, first as int),
{
    let ghost start = jobs@.len();
    let mut ms: Vec<BarModule> = Vec::new();
    let mut next = first;
    let mut i: usize = 0;
    while i < specs.len()
        invariant
            i <= specs@.len(),
            first + specs@.len() <= usize::MAX,
            start == old(jobs)@.len(),
            next == first + exec_count(specs@.take(i as int)),
            0 <= exec_count(specs@.take(i as int)) <= i,
            ms@.len() == i,
            forall|j: int| 0 <= j < i ==> built_from(#[trigger] ms@[j], specs@[j], first + exec_count(specs@.take(j)) + 1),
            jobs@.len() == start + exec_count(specs@.take(i as int)),
            jobs@.take(start as int) == old(jobs)@,
            forall|j: int| 0 <= j < i && (specs@[j] is Exec) ==> ({
                let k = exec_count(specs@.take(j));
                &&& jobs@[start + k].0 == first + k + 1
                &&& jobs@[start + k].1@ == specs@[j]->command@
            }),
        decreases specs.len() - i,
    {
        proof {
            lemma_exec_count_prefix(specs@, i as int);
            lemma_exec_count_prefix(specs@, i + 1);
        }
        let ghost before = jobs@;
        match &specs[i] {
            ModuleSpec::Clock { format } => {
                ms.push(BarModule::Clock(Clock::new(format.clone())));
            },
            ModuleSpec::Exec { command, format } => {
                next = next + 1;
                ms.push(BarModule::Exec(Exec::new(next, format.clone())));
                jobs.push((next, command.clone()));
                assert(jobs@.take(start as int) =~= before.take(start as int));
            },
        }
        proof {
            assert forall|j: int| 0 <= j < i + 1 && (specs@[j] is Exec) implies ({
                let k = exec_count(specs@.take(j));
                &&& jobs@[start + k].0 == first + k + 1
                &&& jobs@[start + k].1@ == specs@[j]->command@
            }) by {
                if j < i {
                    lemma_exec_count_prefix(specs@, j);
                    lemma_exec_count_prefix(specs@, j + 1);
                    lemma_exec_count_mono(specs@, j + 1, i as int);
                    assert(jobs@[start + exec_count(specs@.take(j))] == before[start + exec_count(specs@.take(j))]);
                }
            }
        }
        i = i + 1;
    }
    proof {
        assert(specs@.take(specs@.len() as int) =~= specs@);
        assert(jobs@.take(start as int) == old(jobs)@);
        let tail = jobs@.skip(start as int);
        assert forall|j: int| 0 <= j < specs@.len() && (specs@[j] is Exec) implies ({
            let k = exec_count(specs@.take(j));
            &&& tail[k].0 == first + k + 1
            &&& tail[k].1@ == specs@[j]->command@
        }) by {
            lemma_exec_count_prefix(specs@, j);
            lemma_exec_count_prefix(specs@, j + 1);
            lemma_exec_count_mono(specs@, j + 1, specs@.len() as int);
        }
    }
    ms
}

proof fn lemma_exec_count_mono(specs: Seq<ModuleSpec>, i: int, j: int)
    requires
        0 <= i <= j <= specs.len(),
    ensures
        exec_count(specs.take(i)) <= exec_count(specs.take(j)),
    decreases j - i,
{
    if i < j {
        lemma_exec_count_mono(specs, i, j - 1);
        lemma_exec_count_step(specs, j - 1);
    }
}

impl Sections {
    /// Builds the configured modules. Exec modules are numbered 1, 2, … across left, center and
    /// right; the returned jobs list each exec module's id and shell command, for the caller to
    /// start the child processes whose output lines come back as `Event::Line`.
    pub fn from_config(cfg: &Config) -> (out: (Sections, Vec<(usize, String)>))
        requires
            cfg.bar.left@.len() + cfg.bar.center@.len() + cfg.bar.right@.len() <= usize::MAX,
        ensures
            section_built(out.0.left_modules(), cfg.bar.left@, 0),
            section_built(out.0.center_modules(), cfg.bar.center@, exec_count(cfg.bar.left@)),
            section_built(out.0.right_modules(), cfg.bar.right@, exec_count(cfg.bar.left@) + exec_count(cfg.bar.center@)),
            out.0.reserved_at() is None,
            out.0.reserved_width() == 0,
            out.1@.len() == exec_count(cfg.bar.left@) + exec_count(cfg.bar.center@) + exec_count(cfg.bar.right@),
            section_jobs(out.1@.take(exec_count(cfg.bar.left@)), cfg.bar.left@, 0),
            section_jobs(
                out.1@.subrange(exec_count(cfg.bar.left@), exec_count(cfg.bar.left@) + exec_count(cfg.bar.center@)),
                cfg.bar.center@,
                exec_count(cfg.bar.left@),
            ),
            section_jobs(out.1@.skip(exec_count(cfg.bar.left@) + exec_count(cfg.bar.center@)), cfg.bar.right@,
                exec_count(cfg.bar.left@) + exec_count(cfg.bar.center@)),
    {
        let mut jobs: Vec<(usize, String)> = Vec::new();
        proof {
            lemma_exec_count_prefix(cfg.bar.left@, cfg.bar.left@.len() as int);
            lemma_exec_count_prefix(cfg.bar.center@, cfg.bar.center@.len() as int);
            lemma_exec_count_prefix(cfg.bar.right@, cfg.bar.right@.len() as int);
            assert(cfg.bar.left@.take(cfg.bar.left@.len() as int) =~= cfg.bar.left@);
            assert(cfg.bar.center@.take(cfg.bar.center@.len() as int) =~= cfg.bar.center@);
            assert(cfg.bar.right@.take(cfg.bar.right@.len() as int) =~= cfg.bar.right@);
        }
        let left = build(&cfg.bar.left, 0, &mut jobs);
        let ghost after_left = jobs@;
        let first_center = jobs.len();
        let center = build(&cfg.bar.center, first_center, &mut jobs);
        let ghost after_center = jobs@;
        let first_right = jobs.len();
        let right = build(&cfg.bar.right, first_right, &mut jobs);
        proof {
            let el = after_left.len() as int;
            let ec = after_center.len() as int;
            assert(after_left.skip(0) =~= after_left);
            assert(jobs@.take(el) =~= after_center.take(ec).take(el));
            assert(jobs@.take(el) =~= after_left);
            assert(jobs@.subrange(el, ec) =~= after_center.skip(el));
        }
        (Sections { left, center, right, notif_at: None, notif_width: 0 }, jobs)
    }

    pub closed spec fn left_modules(&self) -> Seq<BarModule> {
        self.left@
    }

    pub closed spec fn center_modules(&self) -> Seq<BarModule> {
        self.center@
    }

    pub closed spec fn right_modules(&self) -> Seq<BarModule> {
        self.right@
    }

    /// Where a module with an externally supplied width sits, if any.
    pub closed spec fn reserved_at(&self) -> Option<(usize, usize)> {
        self.notif_at
    }

    pub closed spec fn reserved_width(&self) -> int {
        self.notif_width as int
    }

    pub fn notif_at(&self) -> (at: Option<(usize, usize)>)
        ensures
            at == self.reserved_at(),
    {
        self.notif_at
    }

    pub fn notif_width(&self) -> (w: i32)
        ensures
            w == self.reserved_width(),
    {
        self.notif_width
    }

    /// Sets the reserved width; negative widths reserve nothing.
    pub fn set_notif_width(&mut self, w: i32)
        ensures
            final(self).reserved_width() == if w >= 0 { w as int } else { 0 },
            final(self).reserved_at() == old(self).reserved_at(),
            final(self).left_modules() == old(self).left_modules(),
            final(self).center_modules() == old(self).center_modules(),
            final(self).right_modules() == old(self).right_modules(),
    {
        self.notif_width = if w >= 0 { w } else { 0 };
    }

    /// Passes the event to every module; returns whether any module's text changed.
    pub fn update(&mut self, ev: &Event) -> (dirty: bool)
        ensures
            final(self).reserved_at() == old(self).reserved_at(),
            final(self).reserved_width() == old(self).reserved_width(),
            section_updated(old(self).left_modules(), final(self).left_modules(), *ev),
            section_updated(old(self).center_modules(), final(self).center_modules(), *ev),
            section_updated(old(self).right_modules(), final(self).right_modules(), *ev),
            dirty == (section_changed(old(self).left_modules(), final(self).left_modules()) || section_changed(
                old(self).center_modules(),
                final(self).center_modules(),
            ) || section_changed(old(self).right_modules(), final(self).right_modules())),
    {
        let a = update_section(&mut self.left, ev);
        let b = update_section(&mut self.center, ev);
        let c = update_section(&mut self.right, ev);
        a || b || c
    }
}

/// Every module of a section reacted to the event.
pub open spec fn section_updated(before: Seq<BarModule>, after: Seq<BarModule>, ev: Event) -> bool {
    &&& before.len() == after.len()
    &&& forall|i: int| 0 <= i < before.len() ==> updated(#[trigger] before[i], after[i], ev)
}

/// Some module of a section now shows a different text.
pub open spec fn section_changed(before: Seq<BarModule>, after: Seq<BarModule>) -> bool {
    exists|i: int| 0 <= i < before.len() && shown_text(#[trigger] before[i]) != shown_text(after[i])
}

fn update_section(ms: &mut Vec<BarModule>, ev: &Event) -> (dirty: bool)
    ensures
        section_updated(old(ms)@, final(ms)@, *ev),
        dirty == section_changed(old(ms)@, final(ms)@),
{
    let mut dirty = false;
    let mut i: usize = 0;
    let n = ms.len();
    while i < n
        invariant
            n == ms@.len(),
            n == old(ms)@.len(),
            i <= n,
            forall|j: int| 0 <= j < i ==> updated(#[trigger] old(ms)@[j], ms@[j], *ev),
            forall|j: int| i <= j < n ==> ms@[j] == old(ms)@[j],
            dirty == exists|j: int| 0 <= j < i && shown_text(#[trigger] old(ms)@[j]) != shown_text(ms@[j]),
        decreases n - i,
    {
        let mut m = ms.remove(i);
        let changed = m.update(ev);
        ms.insert(i, m);
        if changed {
            dirty = true;
        }
        i = i + 1;
    }
    dirty
}

impl BarLayout {
    /// The rect the module at `(section, index)` was laid out into (0 = left, 1 = center, 2 =
    /// right).
    pub fn slot(&self, at: (usize, usize)) -> (r: Option<Rect>)
        ensures
            ({
                let v = if at.0 == SEC_LEFT {
                    self.left@
                } else if at.0 == SEC_CENTER {
                    self.center@
                } else {
                    self.right@
                };
                r == if at.1 < v.len() { Some(v[at.1 as int]) } else { None }
            }),
    {
        let v = if at.0 == SEC_LEFT {
            &self.left
        } else if at.0 == SEC_CENTER {
            &self.center
        } else {
            &self.right
        };
        if at.1 < v.len() {
            Some(v[at.1])
        } else {
            None
        }
    }
}

/// Optical inset for a pill-shaped end of the given radius: content is pushed in to the corner's
/// 45° keyline, `r − r/√2`, rounded. A square end (radius 0 or less) needs none. The result is
/// `r − m` with `m` the integer nearest `r/√2`, i.e. `(2m − 1)² < 2r² < (2m + 1)²`.
pub fn end_inset(radius: i32) -> (i: i32)
    ensures
        is_inset(radius as int, i as int),
{
    if radius <= 0 {
        return 0;
    }
    let r = radius as u128;
    proof {
        assert(2 * r * r <= 0x8000_0000_0000_0000) by (nonlinear_arith)
            requires
                1 <= r <= 0x8000_0000,
        ;
        assert((2 * r + 1) * (2 * r + 1) > 2 * r * r) by (nonlinear_arith)
            requires
                r >= 1,
        ;
    }
    let target = 2 * r * r;
    let mut lo: u128 = 0;
    let mut hi: u128 = r;
    while lo < hi
        invariant
            1 <= r <= 0x8000_0000,
            r == radius,
            target == 2 * r * r,
            lo <= hi <= r,
            (2 * hi + 1) * (2 * hi + 1) > target,
            lo == 0 || (2 * lo - 1) * (2 * lo - 1) <= target,
        decreases hi - lo,
    {
        let mid = lo + (hi - lo) / 2;
        proof {
            assert((2 * mid + 1) * (2 * mid + 1) <= 0x2_0000_0000_0000_0000) by (nonlinear_arith)
                requires
                    mid <= 0x8000_0000,
            ;
        }
        if (2 * mid + 1) * (2 * mid + 1) > target {
            hi = mid;
        } else {
            lo = mid + 1;
        }
    }
    proof {
        if lo == 0 {
            assert(1 < 2 * r * r) by (nonlinear_arith)
                requires
                    r >= 1,
            ;
        } else {
            // An odd square never equals an even number.
            let l = lo as int;
            assert((2 * l - 1) * (2 * l - 1) == 4 * (l * l) - 4 * l + 1) by (nonlinear_arith);
            assert(target == 2 * ((r as int) * (r as int))) by (nonlinear_arith)
                requires
                    target == 2 * r * r,
            ;
            assert((2 * l - 1) * (2 * l - 1) != target);
        }
        let m = lo as int;
        let rr = radius as int;
        let t = target as int;
        assert(t == 2 * rr * rr);
        assert((2 * m - 1) * (2 * m - 1) < t) by {
            if m == 0 {
                assert((2 * m - 1) * (2 * m - 1) == 1) by (nonlinear_arith)
                    requires
                        m == 0,
                ;
            } else {
                assert((2 * m - 1) * (2 * m - 1) <= t);
            }
        }
        assert(2 * rr * rr < (2 * m + 1) * (2 * m + 1));
        assert(0 <= m <= rr);
    }
    let i = radius - lo as i32;
    assert(radius - i == lo as int);
    i
}

proof fn lemma_insert_empty(ws: Seq<i32>, k: int, s: int, j: int)
    requires
        0 <= k <= j <= ws.len(),
    ensures
        advance(ws.insert(k, 0).take(j + 1), s) == advance(ws.take(j), s),
        width_sum(ws.insert(k, 0).take(j + 1)) == width_sum(ws.take(j)),
        filled(ws.insert(k, 0).take(j + 1)) == filled(ws.take(j)),
    decreases j - k,
{
    let ws2 = ws.insert(k, 0);
    if j == k {
        assert(ws2.take(j + 1).drop_last() =~= ws.take(j));
        assert(ws2.take(j + 1).last() == 0);
    } else {
        lemma_insert_empty(ws, k, s, j - 1);
        assert(ws2.take(j + 1).drop_last() =~= ws2.take(j));
        assert(ws.take(j).drop_last() =~= ws.take(j - 1));
        assert(ws2.take(j + 1).last() == ws.take(j).last());
    }
}

/// Within a run, a module of width 0 inserted at `k` is laid out at the pen position of index
/// `k` with width 0, and every other module keeps its rect; the run's extent is unchanged.
proof fn lemma_run_with_empty(ws: Seq<i32>, k: int, start: int, s: int, h: int)
    requires
        0 <= k <= ws.len(),
    ensures
        extent(ws.insert(k, 0), s) == extent(ws, s),
        run_rect(ws.insert(k, 0), start, s, h, k).w == 0,
        run_rect(ws.insert(k, 0), start, s, h, k).x == (start + advance(ws.take(k), s)) as i32,
        forall|j: int| 0 <= j < k ==> #[trigger] run_rect(ws.insert(k, 0), start, s, h, j) == run_rect(ws, start, s, h, j),
        forall|j: int| k < j <= ws.len() ==> #[trigger] run_rect(ws.insert(k, 0), start, s, h, j) == run_rect(ws, start, s, h, j - 1),
{
    let ws2 = ws.insert(k, 0);
    lemma_insert_empty(ws, k, s, ws.len() as int);
    assert(ws2.take(ws.len() + 1int) =~= ws2);
    assert(ws.take(ws.len() as int) =~= ws);
    assert(ws2.take(k) =~= ws.take(k));
    assert forall|j: int| 0 <= j < k implies #[trigger] run_rect(ws2, start, s, h, j) == run_rect(ws, start, s, h, j) by {
        assert(ws2.take(j) =~= ws.take(j));
    }
    assert forall|j: int| k < j <= ws.len() implies #[trigger] run_rect(ws2, start, s, h, j) == run_rect(ws, start, s, h, j - 1) by {
        lemma_insert_empty(ws, k, s, j - 1);
    }
}

/// A left module that draws nothing takes no gap and shifts nothing: inserting one at `k`
/// leaves every other rect of the bar where it was, and it gets width 0.
pub proof fn lemma_empty_left_module(w: SectionWidths, w2: SectionWidths, output_w: int, theme: Theme, k: int)
    requires
        0 <= k <= w.left@.len(),
        w2.left@ == w.left@.insert(k, 0),
        w2.center@ == w.center@,
        w2.right@ == w.right@,
    ensures
        left_rect(w2, output_w, theme, k).w == 0,
        forall|j: int| 0 <= j < k ==> #[trigger] left_rect(w2, output_w, theme, j) == left_rect(w, output_w, theme, j),
        forall|j: int| k < j <= w.left@.len() ==> #[trigger] left_rect(w2, output_w, theme, j) == left_rect(w, output_w, theme, j - 1),
        forall|j: int| #[trigger] center_rect(w2, output_w, theme, j) == center_rect(w, output_w, theme, j),
        forall|j: int| #[trigger] right_rect(w2, output_w, theme, j) == right_rect(w, output_w, theme, j),
{
    lemma_run_with_empty(w.left@, k, pad_of(theme), gap_of(theme), theme.height as int);
    assert forall|j: int| 0 <= j < k implies #[trigger] left_rect(w2, output_w, theme, j) == left_rect(w, output_w, theme, j) by {
        assert(run_rect(w2.left@, pad_of(theme), gap_of(theme), theme.height as int, j) == run_rect(w.left@, pad_of(theme), gap_of(theme), theme.height as int, j));
    }
    assert forall|j: int| k < j <= w.left@.len() implies #[trigger] left_rect(w2, output_w, theme, j) == left_rect(w, output_w, theme, j - 1) by {
        assert(run_rect(w2.left@, pad_of(theme), gap_of(theme), theme.height as int, j) == run_rect(w.left@, pad_of(theme), gap_of(theme), theme.height as int, j - 1));
    }
}

/// A center module that draws nothing takes no gap and shifts nothing (the center block keeps
/// its extent, so the sides keep their limits).
pub proof fn lemma_empty_center_module(w: SectionWidths, w2: SectionWidths, output_w: int, theme: Theme, k: int)
    requires
        0 <= k <= w.center@.len(),
        w.center@.len() > 0,
        w2.center@ == w.center@.insert(k, 0),
        w2.left@ == w.left@,
        w2.right@ == w.right@,
    ensures
        center_rect(w2, output_w, theme, k).w == 0,
        forall|j: int| 0 <= j < k ==> #[trigger] center_rect(w2, output_w, theme, j) == center_rect(w, output_w, theme, j),
        forall|j: int| k < j <= w.center@.len() ==> #[trigger] center_rect(w2, output_w, theme, j) == center_rect(w, output_w, theme, j - 1),
        forall|j: int| #[trigger] left_rect(w2, output_w, theme, j) == left_rect(w, output_w, theme, j),
        forall|j: int| #[trigger] right_rect(w2, output_w, theme, j) == right_rect(w, output_w, theme, j),
{
    lemma_run_with_empty(w.center@, k, center_left(w, output_w, theme), gap_of(theme), theme.height as int);
    assert(center_left(w2, output_w, theme) == center_left(w, output_w, theme));
    assert(left_limit(w2, output_w, theme) == left_limit(w, output_w, theme));
    assert(right_limit(w2, output_w, theme) == right_limit(w, output_w, theme));
}

/// A right module that draws nothing takes no gap and shifts nothing: the right run keeps its
/// extent, so it starts where it did.
pub proof fn lemma_empty_right_module(w: SectionWidths, w2: SectionWidths, output_w: int, theme: Theme, k: int)
    requires
        0 <= k <= w.right@.len(),
        w2.right@ == w.right@.insert(k, 0),
        w2.left@ == w.left@,
        w2.center@ == w.center@,
    ensures
        right_rect(w2, output_w, theme, k).w == 0,
        forall|j: int| 0 <= j < k ==> #[trigger] right_rect(w2, output_w, theme, j) == right_rect(w, output_w, theme, j),
        forall|j: int| k < j <= w.right@.len() ==> #[trigger] right_rect(w2, output_w, theme, j) == right_rect(w, output_w, theme, j - 1),
        forall|j: int| #[trigger] left_rect(w2, output_w, theme, j) == left_rect(w, output_w, theme, j),
        forall|j: int| #[trigger] center_rect(w2, output_w, theme, j) == center_rect(w, output_w, theme, j),
{
    lemma_run_with_empty(w.right@, k, right_start(w, output_w, theme), gap_of(theme), theme.height as int);
    assert(right_start(w2, output_w, theme) == right_start(w, output_w, theme));
    assert forall|j: int| 0 <= j < k implies #[trigger] right_rect(w2, output_w, theme, j) == right_rect(w, output_w, theme, j) by {
        assert(run_rect(w2.right@, right_start(w, output_w, theme), gap_of(theme), theme.height as int, j) == run_rect(w.right@, right_start(w, output_w, theme), gap_of(theme), theme.height as int, j));
    }
    assert forall|j: int| k < j <= w.right@.len() implies #[trigger] right_rect(w2, output_w, theme, j) == right_rect(w, output_w, theme, j - 1) by {
        assert(run_rect(w2.right@, right_start(w, output_w, theme), gap_of(theme), theme.height as int, j) == run_rect(w.right@, right_start(w, output_w, theme), gap_of(theme), theme.height as int, j - 1));
    }
}

/// `i` is the optical inset of a pill end of radius `radius` (see `end_inset`).
pub open spec fn is_inset(radius: int, i: int) -> bool {
    if radius <= 0 {
        i == 0
    } else {
        let m = radius - i;
        0 <= m <= radius && (2 * m - 1) * (2 * m - 1) < 2 * radius * radius < (2 * m + 1) * (2 * m + 1)
    }
}

/// The inset stays a corner correction, not a margin: it is never negative and never more than a
/// third of the radius plus one pixel; a square end has none.
pub proof fn lemma_inset_is_a_corner_correction(radius: int, i: int)
    requires
        is_inset(radius, i),
    ensures
        radius <= 0 ==> i == 0,
        0 <= i <= (if radius > 0 { radius } else { 0 }) / 3 + 1,
{
    if radius > 0 {
        let m = radius - i;
        if 3 * m < 2 * radius - 3 {
            assert((2 * m + 1) * (2 * m + 1) <= 2 * radius * radius) by (nonlinear_arith)
                requires
                    3 * m < 2 * radius - 3,
                    m >= 0,
                    radius > 0,
            ;
        }
    }
}

/// A wider radius never gets a smaller inset.
pub proof fn lemma_inset_grows_with_radius(r1: int, i1: int, r2: int, i2: int)
    requires
        is_inset(r1, i1),
        is_inset(r2, i2),
        r1 <= r2,
    ensures
        i1 <= i2,
{
    lemma_inset_is_a_corner_correction(r1, i1);
    lemma_inset_is_a_corner_correction(r2, i2);
    if r1 > 0 {
        let m1 = r1 - i1;
        let m2 = r2 - i2;
        let d = r2 - r1;
        if m2 - m1 >= d + 1 {
            // 2·m2 − 1 ≥ (2·m1 + 1) + 2d, while 2·m1 + 1 > √2·r1 ≥ r1.
            let a = 2 * m1 + 1;
            assert(a * a > 2 * r1 * r1);
            assert(a >= r1) by (nonlinear_arith)
                requires
                    a * a > 2 * r1 * r1,
                    a > 0,
                    r1 > 0,
            ;
            assert((a + 2 * d) * (a + 2 * d) <= (2 * m2 - 1) * (2 * m2 - 1)) by (nonlinear_arith)
                requires
                    2 * m2 - 1 >= a + 2 * d,
                    a + 2 * d >= 0,
            ;
            assert((a + 2 * d) * (a + 2 * d) >= 2 * (r1 + d) * (r1 + d)) by (nonlinear_arith)
                requires
                    a * a > 2 * r1 * r1,
                    a >= r1,
                    d >= 0,
            ;
        }
    }
}

} // verus!
