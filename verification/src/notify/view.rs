//! Independent notification cards: sizes, column positions, motion state and hit testing. Drawing
//! and the floating-point spring curves belong to the renderer.

use vstd::prelude::*;

use crate::anim::{tween_done, Tween};
use crate::config::NotificationPosition;
use crate::geom::{contains_fits, fits32, fits_i32, overlap, overlap_fits, rect_fits, rect_has, Color, Rect};
use crate::notify::queue::{Notification, Urgency, MAX_BODY_LINES};
use crate::text::{chars_of, first_line, first_line_of, has_ink, lines, split_lines, trims_to_something};
use crate::theme::{tdiv, Theme};
use crate::widget::{copy_action, Action};

verus! {

pub open spec fn urgency_color_spec(u: Urgency, theme: Theme) -> Color {
    match u {
        Urgency::Low | Urgency::Normal => theme.foreground,
        Urgency::Critical => Color { r: 0xff, g: 0x5f, b: 0x56, a: 0xff },
    }
}

/// The headline colour: critical notifications are red, the rest use the foreground.
pub fn urgency_color(u: Urgency, theme: &Theme) -> (c: Color)
    ensures
        c == urgency_color_spec(u, *theme),
{
    match u {
        Urgency::Low | Urgency::Normal => theme.foreground,
        Urgency::Critical => Color::rgba(0xff, 0x5f, 0x56, 0xff),
    }
}

/// Body rows a card shows: the body's lines, at most five.
pub open spec fn body_rows(n: Notification) -> int {
    if n.body@.len() == 0 {
        0
    } else if lines(n.body@).len() > MAX_BODY_LINES {
        MAX_BODY_LINES as int
    } else {
        lines(n.body@).len() as int
    }
}

/// Whether some action has a label whose first line is not blank.
pub open spec fn shows_actions(n: Notification) -> bool {
    exists|i: int| 0 <= i < n.actions@.len() && has_ink(first_line_of(#[trigger] n.actions@[i].1@))
}

pub open spec fn divider_h(theme: Theme) -> int {
    if tdiv(theme.card_gap as int, 3) >= 1 {
        tdiv(theme.card_gap as int, 3)
    } else {
        1
    }
}

/// The card's content stack, measured from its top before centring: total height, then the
/// offsets of the divider, the body and the action row.
pub open spec fn content(n: Notification, theme: Theme) -> (int, Option<int>, Option<int>, Option<int>) {
    let line = theme.line_height as int;
    let rows = body_rows(n);
    let acts = shows_actions(n);
    if rows > 0 || acts {
        let divider = line + tdiv(theme.card_gap as int, 2);
        let after_divider = divider + divider_h(theme);
        let after_body = after_divider + rows * line;
        let action_at = if rows > 0 { after_body + tdiv(theme.card_gap as int, 2) } else { after_body };
        let end = if acts { action_at + line } else { after_body };
        (
            end,
            Some(divider),
            if rows > 0 { Some(after_divider) } else { None },
            if acts { Some(action_at) } else { None },
        )
    } else {
        (line, None, None, None)
    }
}

/// A card is as tall as its content plus padding, and never shorter than the theme's minimum.
pub open spec fn card_height(n: Notification, theme: Theme) -> int {
    let by_content = content(n, theme).0 + theme.card_padding * 2;
    if theme.min_card_height() >= by_content {
        theme.min_card_height()
    } else {
        by_content
    }
}

/// Offset of card `i` from the first card's top: the heights of the cards above it, each followed
/// by one gap.
pub open spec fn card_top(ns: Seq<Notification>, theme: Theme, i: int) -> int
    decreases i,
{
    if i <= 0 {
        0
    } else {
        card_top(ns, theme, i - 1) + card_height(ns[i - 1], theme) + theme.card_gap
    }
}

pub open spec fn shifted(o: Option<int>, shift: int) -> Option<i32> {
    match o {
        Some(y) => Some((y + shift) as i32),
        None => None,
    }
}

#[derive(Clone, Copy, Debug, PartialEq, Eq, Structural)]
pub struct Card {
    pub id: u32,
    /// Local pixel geometry of the surface buffer.
    pub rect: Rect,
    /// Offset from the first card's top edge within the notification column.
    pub top: i32,
    pub summary: i32,
    pub body: Option<i32>,
    pub divider: Option<i32>,
    pub actions: Option<i32>,
}

/// The card for one notification at offset `top` of the column: fixed width, content height,
/// content centred vertically.
pub open spec fn card_at(n: Notification, theme: Theme, top: int) -> Card {
    let (end, divider, body, actions) = content(n, theme);
    let height = card_height(n, theme);
    let shift = tdiv(height - end, 2);
    Card {
        id: n.id,
        rect: Rect { x: 0, y: 0, w: theme.card_w, h: height as i32 },
        top: top as i32,
        summary: shift as i32,
        body: shifted(body, shift),
        divider: shifted(divider, shift),
        actions: shifted(actions, shift),
    }
}

/// The card laid out for notification `i` of the column.
pub open spec fn card_spec(ns: Seq<Notification>, theme: Theme, i: int) -> Card {
    card_at(ns[i], theme, card_top(ns, theme, i))
}

/// The running offsets of the card's content stack fit in an `i32`.
pub open spec fn content_fits(n: Notification, theme: Theme) -> bool {
    let line = theme.line_height as int;
    let gap = theme.card_gap as int;
    let rows = body_rows(n);
    let acts = shows_actions(n);
    let c1 = line + tdiv(gap, 2);
    let c2 = c1 + divider_h(theme);
    let c3 = c2 + rows * line;
    let c4 = if rows > 0 { c3 + tdiv(gap, 2) } else { c3 };
    (rows > 0 || acts) ==> {
        &&& fits32(c1)
        &&& fits32(c2)
        &&& (rows > 0 ==> fits32(rows * line) && fits32(c3))
        &&& (acts ==> fits32(c4) && fits32(c4 + line))
    }
}

/// Every value laying out this card computes fits in an `i32`: the running content offsets, the
/// minimum height, the height, and each offset once centred.
pub open spec fn card_inner_fits(n: Notification, theme: Theme) -> bool {
    let line = theme.line_height as int;
    let pad2 = theme.card_padding * 2;
    let (end, divider, body, actions) = content(n, theme);
    let shift = tdiv(card_height(n, theme) - end, 2);
    &&& content_fits(n, theme)
    &&& fits32(theme.height * 5)
    &&& fits32(pad2)
    &&& fits32(line + pad2)
    &&& fits32(end + pad2)
    &&& fits32(card_height(n, theme) - end)
    &&& (divider matches Some(y) ==> fits32(y + shift))
    &&& (body matches Some(y) ==> fits32(y + shift))
    &&& (actions matches Some(y) ==> fits32(y + shift))
}

/// Laying out the column overflows nothing: every card fits, and so does each step to the next
/// top, the card's height plus one gap, and the next top itself.
pub open spec fn column_fits(ns: Seq<Notification>, theme: Theme) -> bool {
    forall|i: int|
        0 <= i < ns.len() ==> {
            &&& card_inner_fits(#[trigger] ns[i], theme)
            &&& fits32(card_height(ns[i], theme) + theme.card_gap)
            &&& fits32(card_top(ns, theme, i) + card_height(ns[i], theme) + theme.card_gap)
        }
}

/// The tops of the cards of a column that fits are `i32` values.
proof fn lemma_tops_fit(ns: Seq<Notification>, theme: Theme, i: int)
    requires
        column_fits(ns, theme),
        0 <= i <= ns.len(),
    ensures
        fits32(card_top(ns, theme, i)),
    decreases i,
{
    if i > 0 {
        assert(card_inner_fits(ns[i - 1], theme));
    }
}

/// How many body rows a card shows for this notification.
pub fn body_lines(n: &Notification) -> (rows: usize)
    ensures
        rows == body_rows(*n),
{
    let chars = chars_of(n.body.as_str());
    if chars.len() == 0 {
        return 0;
    }
    let rows = split_lines(&chars);
    proof {
        assert(crate::text::char_rows(rows@).len() == rows@.len());
    }
    if rows.len() > MAX_BODY_LINES {
        MAX_BODY_LINES
    } else {
        rows.len()
    }
}

/// Whether the card has an action row: some label's first line is not blank.
pub fn has_actions(n: &Notification) -> (b: bool)
    ensures
        b == shows_actions(*n),
{
    let mut i: usize = 0;
    while i < n.actions.len()
        invariant
            i <= n.actions@.len(),
            forall|j: int| 0 <= j < i ==> !has_ink(first_line_of(#[trigger] n.actions@[j].1@)),
        decreases n.actions.len() - i,
    {
        let label = first_line(n.actions[i].1.as_str());
        if trims_to_something(label) {
            return true;
        }
        i = i + 1;
    }
    false
}

proof fn lemma_top_nonneg(ns: Seq<Notification>, theme: Theme, i: int)
    requires
        0 <= theme.card_gap,
        0 <= theme.line_height,
        0 <= theme.card_padding,
        0 <= theme.height,
    ensures
        0 <= card_top(ns, theme, i),
    decreases i,
{
    if i > 0 {
        lemma_top_nonneg(ns, theme, i - 1);
        lemma_content_sizes(ns[i - 1], theme);
    }
}

proof fn lemma_content_sizes(n: Notification, theme: Theme)
    requires
        0 <= theme.card_gap,
        0 <= theme.line_height,
        0 <= theme.card_padding,
        0 <= theme.height,
    ensures
        theme.line_height <= content(n, theme).0,
        content(n, theme).0 <= 7 * theme.line_height + 2 * theme.card_gap + 1,
        card_height(n, theme) >= content(n, theme).0 + theme.card_padding * 2,
        card_height(n, theme) >= 0,
        0 <= body_rows(n) <= 5,
{
    let rows = body_rows(n);
    assert(rows * theme.line_height <= 5 * theme.line_height) by (nonlinear_arith)
        requires
            0 <= rows <= 5,
            theme.line_height >= 0,
    ;
    assert(rows * theme.line_height >= 0) by (nonlinear_arith)
        requires
            0 <= rows,
            theme.line_height >= 0,
    ;
}

/// The content stack of one card (see `content`); `None` when an offset would not fit in an
/// `i32`.
fn content_checked(notification: &Notification, theme: &Theme) -> (out: Option<(i64, Option<i64>, Option<i64>, Option<i64>)>)
    ensures
        out is Some <==> content_fits(*notification, *theme),
        out matches Some(o) ==> ({
            let c = content(*notification, *theme);
            &&& o.0 == c.0
            &&& (match o.1 { Some(y) => c.1 == Some(y as int), None => c.1 is None })
            &&& (match o.2 { Some(y) => c.2 == Some(y as int), None => c.2 is None })
            &&& (match o.3 { Some(y) => c.3 == Some(y as int), None => c.3 is None })
            &&& fits32(o.0 as int)
            &&& (o.1 matches Some(y) ==> fits32(y as int))
            &&& (o.2 matches Some(y) ==> fits32(y as int))
            &&& (o.3 matches Some(y) ==> fits32(y as int))
        }),
{
    let line = theme.line_height as i64;
    let gap = theme.card_gap as i64;
    let rows = body_lines(notification);
    let actions = has_actions(notification);
    assert(rows <= 5);
    if !(rows > 0 || actions) {
        return Some((line, None, None, None));
    }
    let c1 = line + gap / 2;
    if !fits_i32(c1) {
        return None;
    }
    let dh: i64 = if gap / 3 >= 1 { gap / 3 } else { 1 };
    let c2 = c1 + dh;
    if !fits_i32(c2) {
        return None;
    }
    let mut c3 = c2;
    if rows > 0 {
        proof {
            assert(-5 * 0x8000_0000 <= rows as int * line <= 5 * 0x8000_0000) by (nonlinear_arith)
                requires
                    0 < rows <= 5,
                    -0x8000_0000 <= line <= 0x8000_0000,
            ;
        }
        let grow = rows as i64 * line;
        if !fits_i32(grow) {
            return None;
        }
        c3 = c2 + grow;
        if !fits_i32(c3) {
            return None;
        }
    } else {
        assert(body_rows(*notification) * theme.line_height == 0) by (nonlinear_arith)
            requires
                body_rows(*notification) == 0,
        ;
    }
    let body = if rows > 0 { Some(c2) } else { None };
    if !actions {
        return Some((c3, Some(c1), body, None));
    }
    let c4 = if rows > 0 { c3 + gap / 2 } else { c3 };
    if !fits_i32(c4) {
        return None;
    }
    let c5 = c4 + line;
    if !fits_i32(c5) {
        return None;
    }
    Some((c5, Some(c1), body, Some(c4)))
}

/// Lays out the card for one notification at offset `top` of the column; `None` when a value of
/// the layout would not fit in an `i32`.
fn card_checked(notification: &Notification, theme: &Theme, top: i32) -> (card: Option<Card>)
    ensures
        card is Some <==> card_inner_fits(*notification, *theme),
        card matches Some(c) ==> c == card_at(*notification, *theme, top as int),
{
    let (cursor, divider, body, action) = match content_checked(notification, theme) {
        Some(o) => o,
        None => return None,
    };
    let line = theme.line_height as i64;
    let h5 = theme.height as i64 * 5;
    let pad2 = theme.card_padding as i64 * 2;
    if !fits_i32(h5) || !fits_i32(pad2) || !fits_i32(line + pad2) {
        return None;
    }
    let by_height = h5 / 2;
    let by_line = line + pad2;
    let min_h = if by_height >= by_line { by_height } else { by_line };
    assert(min_h == theme.min_card_height());
    let by_content = cursor + pad2;
    if !fits_i32(by_content) {
        return None;
    }
    let height = if min_h >= by_content { min_h } else { by_content };
    assert(height == card_height(*notification, *theme));
    let diff = height - cursor;
    if !fits_i32(diff) {
        return None;
    }
    let shift = diff / 2;
    let body_at = match body {
        Some(y) => {
            if !fits_i32(y + shift) {
                return None;
            }
            Some((y + shift) as i32)
        },
        None => None,
    };
    let divider_at = match divider {
        Some(y) => {
            if !fits_i32(y + shift) {
                return None;
            }
            Some((y + shift) as i32)
        },
        None => None,
    };
    let action_at = match action {
        Some(y) => {
            if !fits_i32(y + shift) {
                return None;
            }
            Some((y + shift) as i32)
        },
        None => None,
    };
    Some(
        Card {
            id: notification.id,
            rect: Rect::new(0, 0, theme.card_w, height as i32),
            top,
            summary: shift as i32,
            body: body_at,
            divider: divider_at,
            actions: action_at,
        },
    )
}

/// Lays out one card per visible notification, newest first, stacked with one gap between them.
pub fn cards(visible: &[Notification], theme: &Theme) -> (out: Vec<Card>)
    requires
        column_fits(visible@, *theme),
    ensures
        out@.len() == visible@.len(),
        forall|i: int| 0 <= i < visible@.len() ==> out@[i] == card_spec(visible@, *theme, i),
{
    let mut out: Vec<Card> = Vec::new();
    let mut top: i32 = 0;
    let mut i: usize = 0;
    while i < visible.len()
        invariant
            i <= visible@.len(),
            column_fits(visible@, *theme),
            top == card_top(visible@, *theme, i as int),
            out@.len() == i,
            forall|j: int| 0 <= j < i ==> out@[j] == card_spec(visible@, *theme, j),
        decreases visible.len() - i,
    {
        let notification = &visible[i];
        assert(card_inner_fits(visible@[i as int], *theme));
        let card = match card_checked(notification, theme, top) {
            Some(c) => c,
            None => {
                assert(false);
                return out;
            },
        };
        let height = card.rect.h;
        assert(card == card_spec(visible@, *theme, i as int));
        out.push(card);
        top = top + (height + theme.card_gap);
        i = i + 1;
    }
    out
}

/// The cards for the visible notifications, or `None` when a value of the layout would not fit in
/// an `i32`.
pub fn checked_cards(visible: &[Notification], theme: &Theme) -> (out: Option<Vec<Card>>)
    ensures
        match out {
            Some(cs) => column_fits(visible@, *theme) && cs@.len() == visible@.len() && forall|i: int|
                0 <= i < visible@.len() ==> cs@[i] == card_spec(visible@, *theme, i),
            None => !column_fits(visible@, *theme),
        },
{
    let mut out: Vec<Card> = Vec::new();
    let mut top: i32 = 0;
    let mut i: usize = 0;
    while i < visible.len()
        invariant
            i <= visible@.len(),
            top == card_top(visible@, *theme, i as int),
            out@.len() == i,
            forall|j: int| 0 <= j < i ==> out@[j] == card_spec(visible@, *theme, j),
            forall|j: int|
                0 <= j < i ==> {
                    &&& card_inner_fits(#[trigger] visible@[j], *theme)
                    &&& fits32(card_height(visible@[j], *theme) + theme.card_gap)
                    &&& fits32(card_top(visible@, *theme, j) + card_height(visible@[j], *theme) + theme.card_gap)
                },
        decreases visible.len() - i,
    {
        let notification = &visible[i];
        let card = match card_checked(notification, theme, top) {
            Some(c) => c,
            None => {
                return None;
            },
        };
        assert(card == card_spec(visible@, *theme, i as int));
        let step = card.rect.h as i64 + theme.card_gap as i64;
        let next = top as i64 + step;
        if !fits_i32(step) || !fits_i32(next) {
            return None;
        }
        out.push(card);
        top = next as i32;
        i = i + 1;
    }
    Some(out)
}

/// Every card is the theme's width and at least its minimum height, and each card starts one gap
/// below the previous one: the cards never overlap. A card with body rows or actions has its
/// divider half a gap below the summary line; a card with neither has no divider. With no negative
/// sizes in the theme, the column starts at 0 and grows downwards.
pub proof fn lemma_column_stacks(ns: Seq<Notification>, theme: Theme, i: int)
    requires
        column_fits(ns, theme),
        0 <= i < ns.len(),
    ensures
        card_spec(ns, theme, i).rect.w == theme.card_w,
        card_spec(ns, theme, i).rect.h >= theme.min_card_height(),
        card_spec(ns, theme, 0).top == 0,
        (body_rows(ns[i]) > 0 || shows_actions(ns[i])) ==> card_spec(ns, theme, i).divider == Some(
            (card_spec(ns, theme, i).summary + theme.line_height + tdiv(theme.card_gap as int, 2)) as i32,
        ),
        !(body_rows(ns[i]) > 0 || shows_actions(ns[i])) ==> card_spec(ns, theme, i).divider is None,
        (0 <= theme.height && 0 <= theme.line_height && 0 <= theme.card_gap && 0 <= theme.card_padding)
            ==> card_spec(ns, theme, i).top >= 0,
        i + 1 < ns.len() ==> card_spec(ns, theme, i + 1).top == card_spec(ns, theme, i).top + card_spec(
            ns,
            theme,
            i,
        ).rect.h + theme.card_gap,
{
    lemma_tops_fit(ns, theme, i);
    lemma_tops_fit(ns, theme, i + 1);
    assert(card_inner_fits(ns[i], theme));
    if 0 <= theme.height && 0 <= theme.line_height && 0 <= theme.card_gap && 0 <= theme.card_padding {
        lemma_top_nonneg(ns, theme, i);
    }
}

/// A card has an action row exactly when some action of its notification, whichever it is, has a
/// label whose first line is not blank; it has a divider exactly when it has body rows or an
/// action row.
pub proof fn lemma_action_row_when_some_label_shows(n: Notification, theme: Theme, top: int)
    ensures
        card_at(n, theme, top).actions is Some <==> exists|i: int|
            0 <= i < n.actions@.len() && has_ink(first_line_of(#[trigger] n.actions@[i].1@)),
        card_at(n, theme, top).divider is Some <==> (body_rows(n) > 0 || exists|i: int|
            0 <= i < n.actions@.len() && has_ink(first_line_of(#[trigger] n.actions@[i].1@))),
        forall|i: int|
            0 <= i < n.actions@.len() && has_ink(first_line_of(#[trigger] n.actions@[i].1@)) ==> card_at(
                n,
                theme,
                top,
            ).actions is Some,
{
}

/// The first card's offset below the top of the screen: the bar's margin and height, then one gap.
pub fn top_margin(theme: &Theme, bar_margin: i32) -> (m: i32)
    requires
        i32::MIN <= bar_margin + theme.height <= i32::MAX,
        i32::MIN <= bar_margin + theme.height + theme.card_gap <= i32::MAX,
    ensures
        m == bar_margin + theme.height + theme.card_gap,
{
    bar_margin + theme.height + theme.card_gap
}

/// A card surface's top margin: the column's top margin plus the card's offset in the column.
pub fn surface_top(theme: &Theme, bar_margin: i32, card_top: i32) -> (t: i32)
    requires
        i32::MIN <= bar_margin + theme.height <= i32::MAX,
        i32::MIN <= bar_margin + theme.height + theme.card_gap <= i32::MAX,
        i32::MIN <= bar_margin + theme.height + theme.card_gap + card_top <= i32::MAX,
    ensures
        t == bar_margin + theme.height + theme.card_gap + card_top,
{
    top_margin(theme, bar_margin) + card_top
}

/// Left and right columns keep two gaps from the screen edge.
pub fn side_margin(theme: &Theme) -> (m: i32)
    requires
        i32::MIN <= theme.card_gap * 2 <= i32::MAX,
    ensures
        m == theme.card_gap * 2,
{
    theme.card_gap * 2
}

/// A card surface's layer margins, in `set_margin` order (top, right, bottom, left): below the bar
/// at the card's column offset, and inset from the screen edge on the side the column hugs.
pub fn surface_margins(theme: &Theme, bar_margin: i32, card_top: i32, position: NotificationPosition) -> (m: (i32, i32, i32, i32))
    requires
        i32::MIN <= bar_margin + theme.height <= i32::MAX,
        i32::MIN <= bar_margin + theme.height + theme.card_gap <= i32::MAX,
        i32::MIN <= bar_margin + theme.height + theme.card_gap + card_top <= i32::MAX,
        i32::MIN <= theme.card_gap * 2 <= i32::MAX,
    ensures
        m.0 == bar_margin + theme.height + theme.card_gap + card_top,
        m.1 == if position == NotificationPosition::Right { theme.card_gap * 2 } else { 0 },
        m.2 == 0,
        m.3 == if position == NotificationPosition::Left { theme.card_gap * 2 } else { 0 },
{
    let top = surface_top(theme, bar_margin, card_top);
    let side = side_margin(theme);
    let right = match position {
        NotificationPosition::Right => side,
        _ => 0,
    };
    let left = match position {
        NotificationPosition::Left => side,
        _ => 0,
    };
    (top, right, 0, left)
}

/// Index of the first hit rect containing the point, or -1.
pub open spec fn first_hit(hits: Seq<(Rect, Action)>, x: int, y: int) -> int
    decreases hits.len(),
{
    if hits.len() == 0 {
        -1
    } else {
        let k = first_hit(hits.drop_last(), x, y);
        if k >= 0 {
            k
        } else if rect_has(hits.last().0, x, y) {
            hits.len() - 1
        } else {
            -1
        }
    }
}

/// Each rect up to the first one that holds the point can be tested without overflow (see
/// `contains_fits`).
pub open spec fn hits_testable(hits: Seq<(Rect, Action)>, x: int, y: int) -> bool {
    forall|i: int| 0 <= i < hits.len() && first_hit(hits.take(i), x, y) < 0 ==> contains_fits(#[trigger] hits[i].0, x, y)
}

/// The action of the first hit rect that contains the point: earlier rects (actions) win over
/// later ones (the card body).
#[verifier::rlimit(30)]
pub fn hit(hits: &[(Rect, Action)], x: i32, y: i32) -> (a: Option<Action>)
    requires
        hits_testable(hits@, x as int, y as int),
    ensures
        match a {
            Some(a) => first_hit(hits@, x as int, y as int) >= 0 && a == hits@[first_hit(hits@, x as int, y as int)].1,
            None => first_hit(hits@, x as int, y as int) < 0,
        },
{
    let mut i: usize = 0;
    while i < hits.len()
        invariant
            i <= hits@.len(),
            hits_testable(hits@, x as int, y as int),
            first_hit(hits@.take(i as int), x as int, y as int) == -1,
        decreases hits.len() - i,
    {
        assert(hits@.take(i + 1).drop_last() =~= hits@.take(i as int));
        if hits[i].0.contains(x, y) {
            proof {
                assert(hits@.take(i + 1).last() == hits@[i as int]);
                lemma_first_hit_prefix(hits@, x as int, y as int, i + 1);
            }
            return Some(copy_action(&hits[i].1));
        }
        i = i + 1;
    }
    assert(hits@.take(hits@.len() as int) =~= hits@);
    None
}

proof fn lemma_first_hit_prefix(hits: Seq<(Rect, Action)>, x: int, y: int, i: int)
    requires
        0 < i <= hits.len(),
        first_hit(hits.take(i), x, y) >= 0,
    ensures
        first_hit(hits, x, y) == first_hit(hits.take(i), x, y),
    decreases hits.len() - i,
{
    if i < hits.len() {
        assert(hits.take(i + 1).drop_last() =~= hits.take(i));
        lemma_first_hit_prefix(hits, x, y, i + 1);
    } else {
        assert(hits.take(i) =~= hits);
    }
}

/// The overlap of two rects.
pub open spec fn overlap_rect(a: Rect, b: Rect) -> Rect {
    let (x, y, w, h) = overlap(a, b);
    Rect { x: x as i32, y: y as i32, w: w as i32, h: h as i32 }
}

/// The action targets clipped to what is shown of the card; those clipped away entirely are dropped.
pub open spec fn clipped_hits(hits: Seq<(Rect, Action)>, shown: Rect) -> Seq<(Rect, Action)>
    decreases hits.len(),
{
    if hits.len() == 0 {
        seq![]
    } else {
        let rest = clipped_hits(hits.drop_last(), shown);
        let r = overlap_rect(hits.last().0, shown);
        if r.w <= 0 || r.h <= 0 {
            rest
        } else {
            rest.push((r, hits.last().1))
        }
    }
}

/// A card's click targets as drawn: its action buttons clipped to the card's current rect
/// `shown`, then the whole of `shown`, which closes the card. Buttons come first, so they win over
/// the card body. A card that is exiting or fully transparent (`interactive` false) takes no
/// clicks at all.
pub fn input_hits(buttons: &Vec<(Rect, Action)>, shown: Rect, id: u32, interactive: bool) -> (out: Vec<(Rect, Action)>)
    requires
        rect_fits(shown),
        forall|i: int| 0 <= i < buttons@.len() ==> rect_fits(#[trigger] buttons@[i].0) && overlap_fits(buttons@[i].0, shown),
    ensures
        out@ == if interactive {
            clipped_hits(buttons@, shown).push((shown, Action::NotificationClose(id)))
        } else {
            Seq::<(Rect, Action)>::empty()
        },
{
    let mut out: Vec<(Rect, Action)> = Vec::new();
    if !interactive {
        return out;
    }
    let mut i: usize = 0;
    while i < buttons.len()
        invariant
            i <= buttons@.len(),
            rect_fits(shown),
            forall|j: int| 0 <= j < buttons@.len() ==> rect_fits(#[trigger] buttons@[j].0) && overlap_fits(buttons@[j].0, shown),
            out@ == clipped_hits(buttons@.take(i as int), shown),
        decreases buttons.len() - i,
    {
        assert(buttons@.take(i + 1).drop_last() =~= buttons@.take(i as int));
        let r = buttons[i].0.intersect(shown);
        if !r.is_empty() {
            out.push((r, copy_action(&buttons[i].1)));
        }
        i = i + 1;
    }
    assert(buttons@.take(buttons@.len() as int) =~= buttons@);
    out.push((shown, Action::NotificationClose(id)));
    out
}

/// Whether an action button still fits at `bx`: at least one line plus padding on both sides is
/// left before the card's inner edge `right`.
pub fn room_for_button(bx: i32, right: i32, line: i32, pad: i32) -> (b: bool)
    ensures
        b == (right - bx >= line + 2 * pad),
{
    (right as i64) - (bx as i64) >= (line as i64) + 2 * (pad as i64)
}

/// An action button at `(bx, ay)`: as wide as its label plus padding on both sides, cut at the
/// card's inner edge `right`, one line tall. It never reaches past `right`.
pub fn button_rect(bx: i32, ay: i32, label_w: i32, pad: i32, right: i32, line: i32) -> (b: Rect)
    requires
        bx <= right,
        label_w >= 0,
        pad >= 0,
        label_w + 2 * pad <= i32::MAX,
    ensures
        b.x == bx,
        b.y == ay,
        b.h == line,
        b.w as int == if label_w + 2 * pad <= right - bx { label_w + 2 * pad } else { right - bx },
        b.x + b.w <= right,
{
    let want = (label_w as i64) + 2 * (pad as i64);
    let room = (right as i64) - (bx as i64);
    let w = if want <= room { want } else { room };
    Rect::new(bx, ay, w as i32, line)
}

/// Linux input codes of the left and middle mouse buttons.
pub const BTN_LEFT: u32 = 0x110;

pub const BTN_MIDDLE: u32 = 0x112;

/// What a press does: a left click on a button invokes its action and closes the card; a left or
/// middle click on the card body closes it; anything else does nothing. The result is the id to
/// close and, for a button, the action key to report first.
pub open spec fn press_effect(a: Option<Action>, button: u32) -> Option<(u32, Option<String>)> {
    match a {
        Some(Action::NotificationAction { id, key }) => if button == BTN_LEFT {
            Some((id, Some(key)))
        } else {
            None
        },
        Some(Action::NotificationClose(id)) => if button == BTN_LEFT || button == BTN_MIDDLE {
            Some((id, None))
        } else {
            None
        },
        None => None,
    }
}

/// The target under the point: the first hit rect containing it.
pub open spec fn target_at(hits: Seq<(Rect, Action)>, x: int, y: int) -> Option<Action> {
    let k = first_hit(hits, x, y);
    if k >= 0 {
        Some(hits[k].1)
    } else {
        None
    }
}

/// The effect of pressing `button` at `(x, y)` on a card with these click targets.
pub fn press(hits: &[(Rect, Action)], x: i32, y: i32, button: u32) -> (o: Option<(u32, Option<String>)>)
    requires
        hits_testable(hits@, x as int, y as int),
    ensures
        o == press_effect(target_at(hits@, x as int, y as int), button),
{
    match hit(hits, x, y) {
        Some(Action::NotificationAction { id, key }) => if button == BTN_LEFT {
            Some((id, Some(key)))
        } else {
            None
        },
        Some(Action::NotificationClose(id)) => if button == BTN_LEFT || button == BTN_MIDDLE {
            Some((id, None))
        } else {
            None
        },
        None => None,
    }
}

/// Per-card motion state: entering, moving to a new column position, and exiting. Where a moving
/// card currently is depends on the spring curve, which the renderer evaluates; the transitions
/// here take that position as `current_top`.
#[derive(Clone, Copy, Debug, PartialEq, Eq, Structural)]
pub struct Motion {
    pub enter: Tween,
    pub move_to: Tween,
    pub from_top: i32,
    pub to_top: i32,
    pub exit: Option<Tween>,
    pub exit_top: i32,
}

pub open spec fn is_animating_spec(m: Motion, now: u64) -> bool {
    ||| (m.exit matches Some(e) && !tween_done(e, now))
    ||| !tween_done(m.enter, now)
    ||| !tween_done(m.move_to, now)
}

impl Motion {
    /// A card that starts entering at `now`, resting at `top`.
    pub fn new(now: u64, top: i32, enter_ms: u64) -> (m: Motion)
        ensures
            m == (Motion {
                enter: Tween { start: now, dur: enter_ms },
                move_to: Tween { start: now, dur: 0 },
                from_top: top,
                to_top: top,
                exit: None,
                exit_top: top,
            }),
    {
        Motion {
            enter: Tween::new(now, enter_ms),
            move_to: Tween::new(now, 0),
            from_top: top,
            to_top: top,
            exit: None,
            exit_top: top,
        }
    }

    /// Starts a move from where the card is now (`current_top`) to `top`. An exiting card, or one
    /// already headed for `top`, does not move; the result says whether it did.
    pub fn retarget(&mut self, now: u64, current_top: i32, top: i32, duration_ms: u64) -> (moved: bool)
        ensures
            moved == (old(self).exit is None && top != old(self).to_top),
            moved ==> *final(self) == (Motion {
                from_top: current_top,
                to_top: top,
                move_to: Tween { start: now, dur: duration_ms },
                ..*old(self)
            }),
            !moved ==> *final(self) == *old(self),
    {
        if self.exit.is_some() || top == self.to_top {
            return false;
        }
        self.from_top = current_top;
        self.to_top = top;
        self.move_to = Tween::new(now, duration_ms);
        true
    }

    /// Starts the exit from where the card is now; the card then stays at that position while it
    /// fades. A card already exiting is left alone.
    pub fn begin_exit(&mut self, now: u64, current_top: i32, duration_ms: u64)
        ensures
            old(self).exit is Some ==> *final(self) == *old(self),
            old(self).exit is None ==> *final(self) == (Motion {
                enter: Tween { start: now, dur: 0 },
                move_to: Tween { start: now, dur: 0 },
                from_top: current_top,
                to_top: current_top,
                exit: Some(Tween { start: now, dur: duration_ms }),
                exit_top: current_top,
            }),
    {
        if self.exit.is_some() {
            return;
        }
        self.enter = Tween::new(now, 0);
        self.move_to = Tween::new(now, 0);
        self.from_top = current_top;
        self.to_top = current_top;
        self.exit_top = current_top;
        self.exit = Some(Tween::new(now, duration_ms));
    }

    pub fn is_exiting(&self) -> (e: bool)
        ensures
            e == self.exit is Some,
    {
        self.exit.is_some()
    }

    pub fn is_animating(&self, now: u64) -> (a: bool)
        ensures
            a == is_animating_spec(*self, now),
    {
        let exiting = match self.exit {
            Some(exit) => !exit.is_done(now),
            None => false,
        };
        exiting || !self.enter.is_done(now) || !self.move_to.is_done(now)
    }
}

/// An exit settles: once its duration has passed the card is no longer animating, so its surface
/// can go; and a card that has begun exiting never starts moving again.
pub proof fn lemma_exit_settles(m: Motion, now: u64, current_top: i32, duration_ms: u64, later: u64)
    requires
        m.exit is None,
        now <= later,
        later - now >= duration_ms,
    ensures
        ({
            let e = Motion {
                enter: Tween { start: now, dur: 0 },
                move_to: Tween { start: now, dur: 0 },
                from_top: current_top,
                to_top: current_top,
                exit: Some(Tween { start: now, dur: duration_ms }),
                exit_top: current_top,
            };
            !is_animating_spec(e, later) && e.exit is Some
        }),
{
}

} // verus!
