//! The column of notification cards on screen. Each shown card keeps a copy of its notification,
//! its layout and its motion, so a card whose notification has left the queue can still animate
//! out. `Stack::sync` brings the column in line with the queue's visible notifications and reports
//! which surfaces the caller has to create, resize and drop.

use vstd::prelude::*;

use crate::notify::queue::{first_index, lemma_first_index, Notification};
use crate::notify::view::{card_spec, cards, column_fits, is_animating_spec, Card, Motion};
use crate::anim::Tween;
use crate::theme::Theme;

verus! {

/// Two notifications with the same content, field by field.
pub open spec fn same_notification(a: Notification, b: Notification) -> bool {
    &&& a.id == b.id
    &&& a.app_name@ == b.app_name@
    &&& a.summary@ == b.summary@
    &&& a.body@ == b.body@
    &&& a.urgency == b.urgency
    &&& a.expire == b.expire
    &&& a.actions@.len() == b.actions@.len()
    &&& forall|i: int|
        0 <= i < a.actions@.len() ==> (#[trigger] a.actions@[i]).0@ == b.actions@[i].0@ && a.actions@[i].1@
            == b.actions@[i].1@
    &&& a.created == b.created
}

/// A copy of a notification.
pub fn copy_notification(n: &Notification) -> (c: Notification)
    ensures
        same_notification(c, *n),
{
    let mut actions: Vec<(String, String)> = Vec::new();
    let mut i: usize = 0;
    while i < n.actions.len()
        invariant
            i <= n.actions@.len(),
            actions@.len() == i,
            forall|j: int|
                0 <= j < i ==> (#[trigger] actions@[j]).0@ == n.actions@[j].0@ && actions@[j].1@
                    == n.actions@[j].1@,
        decreases n.actions.len() - i,
    {
        let key = n.actions[i].0.clone();
        let label = n.actions[i].1.clone();
        actions.push((key, label));
        i = i + 1;
    }
    Notification {
        id: n.id,
        app_name: n.app_name.clone(),
        summary: n.summary.clone(),
        body: n.body.clone(),
        urgency: n.urgency,
        expire: n.expire,
        actions,
        created: n.created,
    }
}

/// Whether two notifications have the same content (the derived `==` of the type).
pub fn notification_eq(a: &Notification, b: &Notification) -> (e: bool)
    ensures
        e == same_notification(*a, *b),
{
    if a.id != b.id || a.app_name != b.app_name || a.summary != b.summary || a.body != b.body
        || a.urgency != b.urgency || a.created != b.created {
        return false;
    }
    let same_expire = match (a.expire, b.expire) {
        (Some(x), Some(y)) => x == y,
        (None, None) => true,
        _ => false,
    };
    if !same_expire {
        return false;
    }
    if a.actions.len() != b.actions.len() {
        return false;
    }
    let mut i: usize = 0;
    while i < a.actions.len()
        invariant
            i <= a.actions@.len(),
            a.actions@.len() == b.actions@.len(),
            forall|j: int|
                0 <= j < i ==> (#[trigger] a.actions@[j]).0@ == b.actions@[j].0@ && a.actions@[j].1@
                    == b.actions@[j].1@,
        decreases a.actions.len() - i,
    {
        if a.actions[i].0 != b.actions[i].0 || a.actions[i].1 != b.actions[i].1 {
            return false;
        }
        i = i + 1;
    }
    true
}


/// A card that starts entering at `now`, resting at `top` (what `Motion::new` builds).
pub open spec fn entering(now: u64, top: i32, enter_ms: u64) -> Motion {
    Motion {
        enter: Tween { start: now, dur: enter_ms },
        move_to: Tween { start: now, dur: 0 },
        from_top: top,
        to_top: top,
        exit: None,
        exit_top: top,
    }
}

/// The motion after `Motion::begin_exit(now, top, dur)`.
pub open spec fn exited(m: Motion, now: u64, top: i32, dur: u64) -> Motion {
    if m.exit is Some {
        m
    } else {
        Motion {
            enter: Tween { start: now, dur: 0 },
            move_to: Tween { start: now, dur: 0 },
            from_top: top,
            to_top: top,
            exit: Some(Tween { start: now, dur }),
            exit_top: top,
        }
    }
}

/// Whether `Motion::retarget` moves the card: it is not exiting and is headed elsewhere.
pub open spec fn moves(m: Motion, to: i32) -> bool {
    m.exit is None && to != m.to_top
}

/// The motion after `Motion::retarget(now, top, to, dur)`.
pub open spec fn retargeted(m: Motion, now: u64, top: i32, to: i32, dur: u64) -> Motion {
    if moves(m, to) {
        Motion { from_top: top, to_top: to, move_to: Tween { start: now, dur }, ..m }
    } else {
        m
    }
}

/// One card on screen: a copy of its notification, its layout and its motion.
pub struct Shown {
    pub notification: Notification,
    pub card: Card,
    pub motion: Motion,
}

/// Same content, same card, same motion.
pub open spec fn shown_like(a: Shown, b: Shown) -> bool {
    &&& same_notification(a.notification, b.notification)
    &&& a.card == b.card
    &&& a.motion == b.motion
}

/// A shown card after the column is brought up to date: a card whose notification is still
/// visible takes the notification's current content and layout and moves to its new place; the
/// others start their exit where they are. `top` is where the card currently is.
pub open spec fn refreshed(e: Shown, top: i32, visible: Seq<Notification>, theme: Theme, now: u64, enter_ms: u64, exit_ms: u64) -> Shown {
    let k = first_index(visible, e.card.id);
    if k < 0 {
        Shown { motion: exited(e.motion, now, top, exit_ms), ..e }
    } else {
        let card = card_spec(visible, theme, k);
        Shown { notification: visible[k], card, motion: retargeted(e.motion, now, top, card.top, enter_ms) }
    }
}

/// Whether refreshing this card counts as a change: an exit starts, the content differs, the card
/// changes size, or it moves.
pub open spec fn refresh_changes(e: Shown, visible: Seq<Notification>, theme: Theme) -> bool {
    let k = first_index(visible, e.card.id);
    if k < 0 {
        e.motion.exit is None
    } else {
        let card = card_spec(visible, theme, k);
        ||| !same_notification(e.notification, visible[k])
        ||| e.card.rect != card.rect
        ||| moves(e.motion, card.top)
    }
}

/// Visible notification `k` needs a new card: it is the first with its id, and no card on screen
/// has that id.
pub open spec fn is_fresh(old: Seq<Shown>, visible: Seq<Notification>, k: int) -> bool {
    &&& first_index(visible, visible[k].id) == k
    &&& forall|i: int| 0 <= i < old.len() ==> (#[trigger] old[i]).card.id != visible[k].id
}

/// New cards for the first `n` visible notifications that need one, in column order.
pub open spec fn fresh_cards(old: Seq<Shown>, visible: Seq<Notification>, theme: Theme, now: u64, enter_ms: u64, n: int) -> Seq<Shown>
    decreases n,
{
    if n <= 0 {
        seq![]
    } else {
        let prev = fresh_cards(old, visible, theme, now, enter_ms, n - 1);
        if is_fresh(old, visible, n - 1) {
            let card = card_spec(visible, theme, n - 1);
            prev.push(Shown { notification: visible[n - 1], card, motion: entering(now, card.top, enter_ms) })
        } else {
            prev
        }
    }
}

/// The column before finished cards are dropped: the refreshed cards, then the new ones.
pub open spec fn staged(old: Seq<Shown>, tops: Seq<i32>, visible: Seq<Notification>, theme: Theme, now: u64, enter_ms: u64, exit_ms: u64) -> Seq<Shown> {
    Seq::new(old.len(), |i: int| refreshed(old[i], tops[i], visible, theme, now, enter_ms, exit_ms))
        + fresh_cards(old, visible, theme, now, enter_ms, visible.len() as int)
}

/// A card whose exit has played out.
pub open spec fn finished(e: Shown, now: u64) -> bool {
    e.motion.exit is Some && !is_animating_spec(e.motion, now)
}

/// The cards that are not finished, in order.
pub open spec fn unfinished(s: Seq<Shown>, now: u64) -> Seq<Shown>
    decreases s.len(),
{
    if s.len() == 0 {
        seq![]
    } else {
        let rest = unfinished(s.drop_last(), now);
        if finished(s.last(), now) {
            rest
        } else {
            rest.push(s.last())
        }
    }
}

/// The ids of the finished cards, in order.
pub open spec fn finished_ids(s: Seq<Shown>, now: u64) -> Seq<u32>
    decreases s.len(),
{
    if s.len() == 0 {
        seq![]
    } else {
        let rest = finished_ids(s.drop_last(), now);
        if finished(s.last(), now) {
            rest.push(s.last().card.id)
        } else {
            rest
        }
    }
}

pub open spec fn ids_of(s: Seq<Shown>) -> Seq<u32> {
    s.map_values(|e: Shown| e.card.id)
}

/// The ids of the first `n` cards whose notification is still visible and whose card changes size.
pub open spec fn resized_ids(old: Seq<Shown>, visible: Seq<Notification>, theme: Theme, n: int) -> Seq<u32>
    decreases n,
{
    if n <= 0 {
        seq![]
    } else {
        let rest = resized_ids(old, visible, theme, n - 1);
        let e = old[n - 1];
        let k = first_index(visible, e.card.id);
        if k >= 0 && e.card.rect != card_spec(visible, theme, k).rect {
            rest.push(e.card.id)
        } else {
            rest
        }
    }
}

/// No two cards share an id.
pub open spec fn distinct_ids(s: Seq<Shown>) -> bool {
    forall|i: int, j: int| 0 <= i < j < s.len() ==> (#[trigger] s[i]).card.id != (#[trigger] s[j]).card.id
}


proof fn lemma_fresh_cards(old: Seq<Shown>, visible: Seq<Notification>, theme: Theme, now: u64, enter_ms: u64, n: int)
    requires
        0 <= n <= visible.len(),
    ensures
        ({
            let f = fresh_cards(old, visible, theme, now, enter_ms, n);
            &&& f.len() <= n
            &&& distinct_ids(f)
            &&& forall|m: int| 0 <= m < f.len() ==> 0 <= #[trigger] first_index(visible, f[m].card.id) < n
            &&& forall|m: int, i: int| 0 <= m < f.len() && 0 <= i < old.len() ==> (#[trigger] old[i]).card.id != (#[trigger] f[m]).card.id
        }),
    decreases n,
{
    if n > 0 {
        lemma_fresh_cards(old, visible, theme, now, enter_ms, n - 1);
        let prev = fresh_cards(old, visible, theme, now, enter_ms, n - 1);
        let f = fresh_cards(old, visible, theme, now, enter_ms, n);
        if is_fresh(old, visible, n - 1) {
            assert(f == prev.push(f.last()));
            assert(f.last().card.id == visible[n - 1].id);
            assert forall|m: int| 0 <= m < f.len() implies 0 <= #[trigger] first_index(visible, f[m].card.id) < n by {
                if m < prev.len() {
                    assert(f[m] == prev[m]);
                }
            }
            assert forall|i: int, j: int| 0 <= i < j < f.len() implies (#[trigger] f[i]).card.id != (#[trigger] f[j]).card.id by {
                if j < prev.len() {
                    assert(f[i] == prev[i] && f[j] == prev[j]);
                } else {
                    assert(f[i] == prev[i]);
                    assert(first_index(visible, prev[i].card.id) < n - 1);
                }
            }
            assert forall|m: int, i: int| 0 <= m < f.len() && 0 <= i < old.len() implies (#[trigger] old[i]).card.id != (#[trigger] f[m]).card.id by {
                if m < prev.len() {
                    assert(f[m] == prev[m]);
                }
            }
        }
    }
}

/// Refreshing keeps every card's id, and the staged column has no two cards with one id.
proof fn lemma_staged_ids(old: Seq<Shown>, tops: Seq<i32>, visible: Seq<Notification>, theme: Theme, now: u64, enter_ms: u64, exit_ms: u64)
    requires
        distinct_ids(old),
        tops.len() == old.len(),
    ensures
        forall|i: int| 0 <= i < old.len() ==> (#[trigger] refreshed(old[i], tops[i], visible, theme, now, enter_ms, exit_ms)).card.id == old[i].card.id,
        distinct_ids(staged(old, tops, visible, theme, now, enter_ms, exit_ms)),
{
    assert forall|i: int| 0 <= i < old.len() implies (#[trigger] refreshed(old[i], tops[i], visible, theme, now, enter_ms, exit_ms)).card.id == old[i].card.id by {
        lemma_first_index(visible, old[i].card.id);
    }
    lemma_fresh_cards(old, visible, theme, now, enter_ms, visible.len() as int);
    let st = staged(old, tops, visible, theme, now, enter_ms, exit_ms);
    let f = fresh_cards(old, visible, theme, now, enter_ms, visible.len() as int);
    let n = old.len() as int;
    assert forall|i: int, j: int| 0 <= i < j < st.len() implies (#[trigger] st[i]).card.id != (#[trigger] st[j]).card.id by {
        if j < n {
            assert(st[i] == refreshed(old[i], tops[i], visible, theme, now, enter_ms, exit_ms));
            assert(st[j] == refreshed(old[j], tops[j], visible, theme, now, enter_ms, exit_ms));
        } else if i < n {
            assert(st[i] == refreshed(old[i], tops[i], visible, theme, now, enter_ms, exit_ms));
            assert(st[j] == f[j - n]);
        } else {
            assert(st[i] == f[i - n] && st[j] == f[j - n]);
        }
    }
}

/// Refreshes every card (see `refreshed`), in order; also returns the ids that change size, the
/// ids of all cards, and whether any refresh counts as a change.
fn refresh_all(
    taken: Vec<Shown>,
    tops: &Vec<i32>,
    visible: &[Notification],
    cs: &Vec<Card>,
    theme: &Theme,
    now: u64,
    enter_ms: u64,
    exit_ms: u64,
) -> (out: (Vec<Shown>, Vec<u32>, Vec<u32>, bool))
    requires
        tops@.len() == taken@.len(),
        cs@.len() == visible@.len(),
        forall|k: int| 0 <= k < visible@.len() ==> cs@[k] == card_spec(visible@, *theme, k),
    ensures
        out.0@.len() == taken@.len(),
        forall|j: int| 0 <= j < taken@.len() ==> shown_like(#[trigger] out.0@[j], refreshed(taken@[j], tops@[j], visible@, *theme, now, enter_ms, exit_ms)),
        out.1@ == resized_ids(taken@, visible@, *theme, taken@.len() as int),
        out.2@ == ids_of(taken@),
        out.3 == exists|i: int| 0 <= i < taken@.len() && refresh_changes(#[trigger] taken@[i], visible@, *theme),
{
    let ghost all = taken@;
    let mut pending = taken;
    assert(all.len() == pending.len());
    let mut mid: Vec<Shown> = Vec::new();
    let mut resized: Vec<u32> = Vec::new();
    let mut ids: Vec<u32> = Vec::new();
    let mut changed = false;
    let mut i: usize = 0;
    while pending.len() > 0
        invariant
            i + pending@.len() == all.len(),
            all.len() <= usize::MAX,
            pending@ == all.skip(i as int),
            tops@.len() == all.len(),
            cs@.len() == visible@.len(),
            forall|k: int| 0 <= k < visible@.len() ==> cs@[k] == card_spec(visible@, *theme, k),
            mid@.len() == i,
            forall|j: int| 0 <= j < i ==> shown_like(#[trigger] mid@[j], refreshed(all[j], tops@[j], visible@, *theme, now, enter_ms, exit_ms)),
            resized@ == resized_ids(all, visible@, *theme, i as int),
            ids@ == ids_of(all.take(i as int)),
            changed == exists|j: int| 0 <= j < i && refresh_changes(#[trigger] all[j], visible@, *theme),
        decreases pending.len(),
    {
        let e = pending.remove(0);
        assert(e == all[i as int]);
        let top = tops[i];
        let id = e.card.id;
        ids.push(id);
        let ghost was = changed;
        match visible_index(visible, id) {
            None => {
                let starts = !e.motion.is_exiting();
                let mut m = e.motion;
                m.begin_exit(now, top, exit_ms);
                if starts {
                    changed = true;
                }
                mid.push(Shown { notification: e.notification, card: e.card, motion: m });
            },
            Some(k) => {
                let card = cs[k];
                let differs = !notification_eq(&e.notification, &visible[k]);
                let grows = e.card.rect != card.rect;
                let mut m = e.motion;
                let moved = m.retarget(now, top, card.top, enter_ms);
                if grows {
                    resized.push(id);
                }
                if differs || grows || moved {
                    changed = true;
                }
                mid.push(Shown { notification: copy_notification(&visible[k]), card, motion: m });
            },
        }
        proof {
            assert(refresh_changes(all[i as int], visible@, *theme) ==> changed);
            if changed && !was {
                assert(refresh_changes(all[i as int], visible@, *theme));
            }
            assert(ids_of(all.take(i + 1)) =~= ids@);
            assert(mid@[i as int] == mid@.last());
        }
        i = i + 1;
        assert(pending@ =~= all.skip(i as int));
    }
    assert(all.take(all.len() as int) =~= all);
    (mid, resized, ids, changed)
}

/// Appends a new card for each visible notification that needs one (see `is_fresh`), in column
/// order; returns their ids and whether there were any.
fn add_fresh(
    mid: &mut Vec<Shown>,
    old_ids: &Vec<u32>,
    visible: &[Notification],
    cs: &Vec<Card>,
    theme: &Theme,
    now: u64,
    enter_ms: u64,
    Ghost(old_cards): Ghost<Seq<Shown>>,
) -> (out: (Vec<u32>, bool))
    requires
        old_ids@ == ids_of(old_cards),
        cs@.len() == visible@.len(),
        forall|k: int| 0 <= k < visible@.len() ==> cs@[k] == card_spec(visible@, *theme, k),
    ensures
        ({
            let f = fresh_cards(old_cards, visible@, *theme, now, enter_ms, visible@.len() as int);
            &&& final(mid)@.len() == old(mid)@.len() + f.len()
            &&& forall|j: int| 0 <= j < old(mid)@.len() ==> #[trigger] final(mid)@[j] == old(mid)@[j]
            &&& forall|j: int| 0 <= j < f.len() ==> shown_like(#[trigger] final(mid)@[old(mid)@.len() + j], f[j])
            &&& out.0@ == ids_of(f)
            &&& out.1 == (f.len() > 0)
        }),
{
    let ghost base = mid@.len();
    let mut created: Vec<u32> = Vec::new();
    let mut k: usize = 0;
    while k < visible.len()
        invariant
            k <= visible@.len(),
            old_ids@ == ids_of(old_cards),
            cs@.len() == visible@.len(),
            forall|k2: int| 0 <= k2 < visible@.len() ==> cs@[k2] == card_spec(visible@, *theme, k2),
            base == old(mid)@.len(),
            mid@.len() == base + fresh_cards(old_cards, visible@, *theme, now, enter_ms, k as int).len(),
            forall|j: int| 0 <= j < base ==> #[trigger] mid@[j] == old(mid)@[j],
            forall|j: int| 0 <= j < fresh_cards(old_cards, visible@, *theme, now, enter_ms, k as int).len()
                ==> shown_like(#[trigger] mid@[base + j], fresh_cards(old_cards, visible@, *theme, now, enter_ms, k as int)[j]),
            created@ == ids_of(fresh_cards(old_cards, visible@, *theme, now, enter_ms, k as int)),
        decreases visible.len() - k,
    {
        let id = visible[k].id;
        let first = match visible_index(visible, id) {
            Some(j) => j == k,
            None => false,
        };
        let mut unseen = true;
        let mut j: usize = 0;
        while j < old_ids.len()
            invariant
                j <= old_ids@.len(),
                old_ids@ == ids_of(old_cards),
                unseen == forall|t: int| 0 <= t < j ==> old_ids@[t] != id,
            decreases old_ids.len() - j,
        {
            if old_ids[j] == id {
                unseen = false;
            }
            j = j + 1;
        }
        let ghost prev = fresh_cards(old_cards, visible@, *theme, now, enter_ms, k as int);
        proof {
            assert(unseen == forall|t: int| 0 <= t < old_cards.len() ==> (#[trigger] old_cards[t]).card.id != visible@[k as int].id) by {
                if !unseen {
                    let t = choose|t: int| 0 <= t < old_ids@.len() && old_ids@[t] == id;
                    assert(old_cards[t].card.id == old_ids@[t]);
                } else {
                    assert forall|t: int| 0 <= t < old_cards.len() implies (#[trigger] old_cards[t]).card.id != visible@[k as int].id by {
                        assert(old_ids@[t] == old_cards[t].card.id);
                    }
                }
            }
            assert(first == (first_index(visible@, visible@[k as int].id) == k));
        }
        if first && unseen {
            let card = cs[k];
            mid.push(Shown { notification: copy_notification(&visible[k]), card, motion: Motion::new(now, card.top, enter_ms) });
            created.push(id);
            proof {
                let f = fresh_cards(old_cards, visible@, *theme, now, enter_ms, k + 1);
                assert(f == prev.push(f.last()));
                assert(ids_of(f) =~= created@);
                assert forall|t: int| 0 <= t < f.len() implies shown_like(#[trigger] mid@[base + t], f[t]) by {
                    if t < prev.len() {
                        assert(f[t] == prev[t]);
                    }
                }
            }
        } else {
            proof {
                let f = fresh_cards(old_cards, visible@, *theme, now, enter_ms, k + 1);
                assert(f == prev);
            }
        }
        k = k + 1;
    }
    let any = created.len() > 0;
    (created, any)
}

/// Drops the finished cards; returns the rest, the dropped ids, and whether any kept card is
/// animating. `st` is what `mid` stands for, card by card.
fn drop_finished(mid: Vec<Shown>, now: u64, Ghost(st): Ghost<Seq<Shown>>) -> (out: (Vec<Shown>, Vec<u32>, bool))
    requires
        mid@.len() == st.len(),
        forall|j: int| 0 <= j < st.len() ==> shown_like(#[trigger] mid@[j], st[j]),
        distinct_ids(st),
    ensures
        out.0@.len() == unfinished(st, now).len(),
        forall|j: int| 0 <= j < out.0@.len() ==> shown_like(#[trigger] out.0@[j], unfinished(st, now)[j]),
        distinct_ids(out.0@),
        out.1@ == finished_ids(st, now),
        out.2 == exists|j: int| 0 <= j < out.0@.len() && is_animating_spec((#[trigger] out.0@[j]).motion, now),
{
    let ghost all = mid@;
    let mut pending = mid;
    assert(all.len() == pending.len());
    let mut kept: Vec<Shown> = Vec::new();
    let mut removed: Vec<u32> = Vec::new();
    let mut animating = false;
    let mut i: usize = 0;
    while pending.len() > 0
        invariant
            i + pending@.len() == st.len(),
            all.len() == st.len(),
            all.len() <= usize::MAX,
            pending@ == all.skip(i as int),
            forall|j: int| 0 <= j < st.len() ==> shown_like(#[trigger] all[j], st[j]),
            distinct_ids(st),
            kept@.len() == unfinished(st.take(i as int), now).len(),
            forall|j: int| 0 <= j < kept@.len() ==> shown_like(#[trigger] kept@[j], unfinished(st.take(i as int), now)[j]),
            forall|j: int| 0 <= j < kept@.len() ==> exists|u: int| 0 <= u < i && (#[trigger] kept@[j]).card.id == st[u].card.id,
            distinct_ids(kept@),
            removed@ == finished_ids(st.take(i as int), now),
            animating == exists|j: int| 0 <= j < kept@.len() && is_animating_spec((#[trigger] kept@[j]).motion, now),
        decreases pending.len(),
    {
        let e = pending.remove(0);
        assert(e == all[i as int]);
        assert(shown_like(e, st[i as int]));
        assert(st.take(i + 1).drop_last() =~= st.take(i as int));
        assert(st.take(i + 1).last() == st[i as int]);
        let exiting = e.motion.is_exiting();
        let moving = e.motion.is_animating(now);
        if exiting && !moving {
            removed.push(e.card.id);
        } else {
            let ghost before = kept@;
            if moving {
                animating = true;
            }
            kept.push(e);
            proof {
                assert forall|j: int| 0 <= j < kept@.len() implies exists|u: int| 0 <= u < i + 1 && (#[trigger] kept@[j]).card.id == st[u].card.id by {
                    if j < before.len() {
                        assert(kept@[j] == before[j]);
                        let u = choose|u: int| 0 <= u < i && before[j].card.id == st[u].card.id;
                        assert(0 <= u < i + 1 && kept@[j].card.id == st[u].card.id);
                    } else {
                        assert(kept@[j].card.id == st[i as int].card.id);
                    }
                }
                assert forall|a: int, b: int| 0 <= a < b < kept@.len() implies (#[trigger] kept@[a]).card.id != (#[trigger] kept@[b]).card.id by {
                    if b < before.len() {
                        assert(kept@[a] == before[a] && kept@[b] == before[b]);
                    } else {
                        assert(kept@[a] == before[a]);
                        let u = choose|u: int| 0 <= u < i && before[a].card.id == st[u].card.id;
                        assert(st[u].card.id != st[i as int].card.id);
                    }
                }
                assert forall|j: int| 0 <= j < kept@.len() implies shown_like(#[trigger] kept@[j], unfinished(st.take(i + 1), now)[j]) by {
                    if j < before.len() {
                        assert(kept@[j] == before[j]);
                    }
                }
                if animating {
                    if moving {
                        assert(is_animating_spec(kept@[kept@.len() - 1].motion, now));
                    } else {
                        let w = choose|j: int| 0 <= j < before.len() && is_animating_spec(before[j].motion, now);
                        assert(kept@[w] == before[w]);
                    }
                } else {
                    assert forall|j: int| 0 <= j < kept@.len() implies !is_animating_spec((#[trigger] kept@[j]).motion, now) by {
                        if j < before.len() {
                            assert(kept@[j] == before[j]);
                        }
                    }
                }
            }
        }
        i = i + 1;
        assert(pending@ =~= all.skip(i as int));
    }
    assert(st.take(st.len() as int) =~= st);
    (kept, removed, animating)
}

/// A card whose notification is still visible takes the new content and place but does not play
/// its entrance again: a replacement updates a card in place.
pub proof fn lemma_refresh_keeps_entrance(e: Shown, top: i32, visible: Seq<Notification>, theme: Theme, now: u64, enter_ms: u64, exit_ms: u64)
    requires
        first_index(visible, e.card.id) >= 0,
    ensures
        ({
            let r = refreshed(e, top, visible, theme, now, enter_ms, exit_ms);
            let k = first_index(visible, e.card.id);
            &&& r.motion.enter == e.motion.enter
            &&& r.motion.exit == e.motion.exit
            &&& r.card == card_spec(visible, theme, k)
            &&& r.notification == visible[k]
            &&& r.card.id == e.card.id
        }),
{
    lemma_first_index(visible, e.card.id);
}

/// A card whose notification has left the list keeps its own copy of the notification and its
/// layout, and is exiting.
pub proof fn lemma_leaving_card_keeps_its_copy(e: Shown, top: i32, visible: Seq<Notification>, theme: Theme, now: u64, enter_ms: u64, exit_ms: u64)
    requires
        first_index(visible, e.card.id) < 0,
    ensures
        ({
            let r = refreshed(e, top, visible, theme, now, enter_ms, exit_ms);
            &&& r.notification == e.notification
            &&& r.card == e.card
            &&& r.motion.exit is Some
            &&& (e.motion.exit is None ==> r.motion.exit_top == top && r.motion.exit == Some(Tween { start: now, dur: exit_ms }))
        }),
{
}

proof fn lemma_unfinished_keeps(s: Seq<Shown>, now: u64, j: int)
    requires
        0 <= j < s.len(),
        !finished(s[j], now),
    ensures
        exists|t: int| 0 <= t < unfinished(s, now).len() && #[trigger] unfinished(s, now)[t] == s[j],
    decreases s.len(),
{
    let rest = unfinished(s.drop_last(), now);
    if j < s.len() - 1 {
        lemma_unfinished_keeps(s.drop_last(), now, j);
        let t = choose|t: int| 0 <= t < rest.len() && #[trigger] rest[t] == s.drop_last()[j];
        assert(s.drop_last()[j] == s[j]);
        if !finished(s.last(), now) {
            assert(unfinished(s, now) == rest.push(s.last()));
            assert(unfinished(s, now)[t] == rest[t]);
        } else {
            assert(unfinished(s, now) == rest);
        }
        assert(unfinished(s, now)[t] == s[j]);
    } else {
        assert(unfinished(s, now)[rest.len() as int] == s[j]);
    }
}

/// Every visible notification (the first with its id) has a card on screen after a sync that
/// shows its content in its column place, unless the card for that id was already exiting.
pub proof fn lemma_visible_notifications_get_cards(
    old: Seq<Shown>,
    tops: Seq<i32>,
    visible: Seq<Notification>,
    theme: Theme,
    now: u64,
    enter_ms: u64,
    exit_ms: u64,
    k: int,
)
    requires
        distinct_ids(old),
        tops.len() == old.len(),
        0 <= k < visible.len(),
        first_index(visible, visible[k].id) == k,
        forall|i: int| 0 <= i < old.len() && (#[trigger] old[i]).card.id == visible[k].id ==> old[i].motion.exit is None,
    ensures
        exists|t: int|
            0 <= t < unfinished(staged(old, tops, visible, theme, now, enter_ms, exit_ms), now).len() && {
                let c = #[trigger] unfinished(staged(old, tops, visible, theme, now, enter_ms, exit_ms), now)[t];
                &&& c.card == card_spec(visible, theme, k)
                &&& c.notification == visible[k]
                &&& c.motion.exit is None
            },
{
    let st = staged(old, tops, visible, theme, now, enter_ms, exit_ms);
    let n = old.len() as int;
    if exists|i: int| 0 <= i < old.len() && (#[trigger] old[i]).card.id == visible[k].id {
        let i = choose|i: int| 0 <= i < old.len() && (#[trigger] old[i]).card.id == visible[k].id;
        lemma_refresh_keeps_entrance(old[i], tops[i], visible, theme, now, enter_ms, exit_ms);
        assert(st[i] == refreshed(old[i], tops[i], visible, theme, now, enter_ms, exit_ms));
        lemma_unfinished_keeps(st, now, i);
    } else {
        lemma_fresh_is_listed(old, visible, theme, now, enter_ms, visible.len() as int, k);
        let f = fresh_cards(old, visible, theme, now, enter_ms, visible.len() as int);
        let m = choose|m: int| 0 <= m < f.len() && #[trigger] f[m] == (Shown {
            notification: visible[k],
            card: card_spec(visible, theme, k),
            motion: entering(now, card_spec(visible, theme, k).top, enter_ms),
        });
        assert(st[n + m] == f[m]);
        lemma_unfinished_keeps(st, now, n + m);
    }
}

proof fn lemma_fresh_is_listed(old: Seq<Shown>, visible: Seq<Notification>, theme: Theme, now: u64, enter_ms: u64, n: int, k: int)
    requires
        0 <= k < n <= visible.len(),
        is_fresh(old, visible, k),
    ensures
        exists|m: int| 0 <= m < fresh_cards(old, visible, theme, now, enter_ms, n).len() && #[trigger] fresh_cards(old, visible, theme, now, enter_ms, n)[m] == (Shown {
            notification: visible[k],
            card: card_spec(visible, theme, k),
            motion: entering(now, card_spec(visible, theme, k).top, enter_ms),
        }),
    decreases n,
{
    let prev = fresh_cards(old, visible, theme, now, enter_ms, n - 1);
    let f = fresh_cards(old, visible, theme, now, enter_ms, n);
    if k < n - 1 {
        lemma_fresh_is_listed(old, visible, theme, now, enter_ms, n - 1, k);
        let m = choose|m: int| 0 <= m < prev.len() && #[trigger] prev[m] == (Shown {
            notification: visible[k],
            card: card_spec(visible, theme, k),
            motion: entering(now, card_spec(visible, theme, k).top, enter_ms),
        });
        assert(f[m] == prev[m]);
    } else {
        assert(f[prev.len() as int] == f.last());
    }
}

/// Whether the card `e` on screen changes size for the first visible notification with its id.
spec fn size_changes(e: Shown, visible: Seq<Notification>, theme: Theme) -> bool {
    let k = first_index(visible, e.card.id);
    k >= 0 && e.card.rect != card_spec(visible, theme, k).rect
}

proof fn lemma_resized_ids_contain(old: Seq<Shown>, visible: Seq<Notification>, theme: Theme, n: int)
    requires
        0 <= n <= old.len(),
    ensures
        forall|id: u32|
            #[trigger] resized_ids(old, visible, theme, n).contains(id) <==> exists|i: int|
                0 <= i < n && (#[trigger] old[i]).card.id == id && size_changes(old[i], visible, theme),
    decreases n,
{
    if n > 0 {
        lemma_resized_ids_contain(old, visible, theme, n - 1);
        let rest = resized_ids(old, visible, theme, n - 1);
        let e = old[n - 1];
        assert forall|id: u32|
            #[trigger] resized_ids(old, visible, theme, n).contains(id) <==> exists|i: int|
                0 <= i < n && (#[trigger] old[i]).card.id == id && size_changes(old[i], visible, theme) by {
            if size_changes(e, visible, theme) {
                assert(resized_ids(old, visible, theme, n) == rest.push(e.card.id));
                if rest.push(e.card.id).contains(id) {
                    if id == e.card.id {
                        assert(old[n - 1].card.id == id);
                    } else {
                        let t = choose|t: int| 0 <= t < rest.push(e.card.id).len() && rest.push(e.card.id)[t] == id;
                        assert(rest[t] == id);
                        assert(rest.contains(id));
                    }
                }
                if exists|i: int| 0 <= i < n && (#[trigger] old[i]).card.id == id && size_changes(old[i], visible, theme) {
                    let i = choose|i: int| 0 <= i < n && (#[trigger] old[i]).card.id == id && size_changes(old[i], visible, theme);
                    if i < n - 1 {
                        assert(rest.contains(id));
                        let t = choose|t: int| 0 <= t < rest.len() && rest[t] == id;
                        assert(rest.push(e.card.id)[t] == id);
                    } else {
                        assert(rest.push(e.card.id)[rest.len() as int] == id);
                    }
                }
            } else {
                assert(resized_ids(old, visible, theme, n) == rest);
                if exists|i: int| 0 <= i < n && (#[trigger] old[i]).card.id == id && size_changes(old[i], visible, theme) {
                    let i = choose|i: int| 0 <= i < n && (#[trigger] old[i]).card.id == id && size_changes(old[i], visible, theme);
                    assert(i != n - 1);
                }
            }
        }
    } else {
        assert forall|id: u32| !(#[trigger] resized_ids(old, visible, theme, n).contains(id)) by {}
    }
}

proof fn lemma_resized_card(old: Seq<Shown>, visible: Seq<Notification>, theme: Theme, i: int)
    requires
        distinct_ids(old),
        0 <= i < old.len(),
    ensures
        resized_ids(old, visible, theme, old.len() as int).contains(old[i].card.id) <==> size_changes(old[i], visible, theme),
{
    let n = old.len() as int;
    let id = old[i].card.id;
    lemma_resized_ids_contain(old, visible, theme, n);
    if resized_ids(old, visible, theme, n).contains(id) {
        let i2 = choose|i2: int| 0 <= i2 < n && (#[trigger] old[i2]).card.id == id && size_changes(old[i2], visible, theme);
        if i2 != i {
            if i < i2 {
                assert(old[i].card.id != old[i2].card.id);
            } else {
                assert(old[i2].card.id != old[i].card.id);
            }
        }
    } else {
        if size_changes(old[i], visible, theme) {
            assert(old[i].card.id == id);
        }
    }
}

/// A sync reports a card as resized exactly when its notification is still visible and the card
/// for the first visible notification with its id has a different rect from the one on screen,
/// whether the card grows or shrinks; a card whose notification has gone is never reported, and
/// every reported id is a card that was on screen.
pub proof fn lemma_resized_exactly_when_size_changes(old: Seq<Shown>, visible: Seq<Notification>, theme: Theme)
    requires
        distinct_ids(old),
    ensures
        forall|i: int|
            0 <= i < old.len() ==> {
                let id = (#[trigger] old[i]).card.id;
                let k = first_index(visible, id);
                &&& (resized_ids(old, visible, theme, old.len() as int).contains(id) <==> k >= 0 && old[i].card.rect
                    != card_spec(visible, theme, k).rect)
                &&& (k >= 0 && old[i].card.rect.h != card_spec(visible, theme, k).rect.h ==> resized_ids(
                    old,
                    visible,
                    theme,
                    old.len() as int,
                ).contains(id))
                &&& (k < 0 ==> !resized_ids(old, visible, theme, old.len() as int).contains(id))
            },
        forall|id: u32|
            #[trigger] resized_ids(old, visible, theme, old.len() as int).contains(id) ==> exists|i: int|
                0 <= i < old.len() && (#[trigger] old[i]).card.id == id,
{
    let n = old.len() as int;
    assert forall|id: u32|
        #[trigger] resized_ids(old, visible, theme, n).contains(id) implies exists|i: int|
            0 <= i < old.len() && (#[trigger] old[i]).card.id == id by {
        lemma_resized_ids_contain(old, visible, theme, n);
    }
    assert forall|i: int| 0 <= i < old.len() implies {
        let id = (#[trigger] old[i]).card.id;
        let k = first_index(visible, id);
        &&& (resized_ids(old, visible, theme, n).contains(id) <==> k >= 0 && old[i].card.rect != card_spec(visible, theme, k).rect)
        &&& (k >= 0 && old[i].card.rect.h != card_spec(visible, theme, k).rect.h ==> resized_ids(old, visible, theme, n).contains(id))
        &&& (k < 0 ==> !resized_ids(old, visible, theme, n).contains(id))
    } by {
        lemma_resized_card(old, visible, theme, i);
    }
}

/// The index of the first visible notification with this id.
fn visible_index(visible: &[Notification], id: u32) -> (k: Option<usize>)
    ensures
        match k {
            Some(i) => first_index(visible@, id) == i as int && i < visible@.len(),
            None => first_index(visible@, id) < 0,
        },
{
    proof {
        lemma_first_index(visible@, id);
    }
    let mut i: usize = 0;
    while i < visible.len()
        invariant
            i <= visible@.len(),
            forall|j: int| 0 <= j < i ==> visible@[j].id != id,
            -1 <= first_index(visible@, id) < visible@.len(),
            first_index(visible@, id) >= 0 ==> visible@[first_index(visible@, id)].id == id,
            forall|j: int|
                0 <= j < visible@.len() && (first_index(visible@, id) < 0 || j < first_index(visible@, id))
                    ==> visible@[j].id != id,
        decreases visible.len() - i,
    {
        if visible[i].id == id {
            return Some(i);
        }
        i = i + 1;
    }
    None
}

/// What a sync asks of the caller.
pub struct SyncReport {
    /// Something on screen changed: redraw.
    pub changed: bool,
    /// Ids of the new cards, in column order: their surfaces are to be created.
    pub created: Vec<u32>,
    /// Ids of the cards that changed size: their buffers are to be remade.
    pub resized: Vec<u32>,
    /// Ids of the cards that are gone: their surfaces are to be dropped.
    pub removed: Vec<u32>,
    /// Some card is still animating: keep the frame timer running.
    pub animating: bool,
}

pub struct Stack {
    shown: Vec<Shown>,
}

impl Stack {
    /// The cards on screen.
    pub closed spec fn cards(&self) -> Seq<Shown> {
        self.shown@
    }

    /// Each card has a surface of its own, keyed by the card's id.
    pub closed spec fn wf(&self) -> bool {
        distinct_ids(self.shown@)
    }

    pub fn new() -> (s: Stack)
        ensures
            s.wf(),
            s.cards() == Seq::<Shown>::empty(),
    {
        Stack { shown: Vec::new() }
    }

    /// Brings the column in line with the visible notifications. `tops[i]` is where card `i`
    /// currently is (the spring curve is evaluated by the renderer). `timing` is the configured
    /// (enter, exit) duration in milliseconds; without it no cards are shown at all. Cards are
    /// keyed by id: when the list holds an id twice, the first of them is the one shown.
    pub fn sync(
        &mut self,
        tops: &Vec<i32>,
        visible: &[Notification],
        theme: &Theme,
        now: u64,
        timing: Option<(u64, u64)>,
    ) -> (r: SyncReport)
        requires
            old(self).wf(),
            tops@.len() == old(self).cards().len(),
            timing is Some ==> column_fits(visible@, *theme),
        ensures
            final(self).wf(),
            match timing {
                None => {
                    &&& final(self).cards().len() == 0
                    &&& r.changed == (old(self).cards().len() > 0)
                    &&& r.created@.len() == 0
                    &&& r.resized@.len() == 0
                    &&& r.removed@ == ids_of(old(self).cards())
                    &&& !r.animating
                },
                Some((enter_ms, exit_ms)) => {
                    let old_cards = old(self).cards();
                    let st = staged(old_cards, tops@, visible@, *theme, now, enter_ms, exit_ms);
                    let keep = unfinished(st, now);
                    let fin = final(self).cards();
                    &&& fin.len() == keep.len()
                    &&& forall|j: int| 0 <= j < keep.len() ==> shown_like(#[trigger] fin[j], keep[j])
                    &&& r.created@ == ids_of(fresh_cards(old_cards, visible@, *theme, now, enter_ms, visible@.len() as int))
                    &&& r.resized@ == resized_ids(old_cards, visible@, *theme, old_cards.len() as int)
                    &&& r.removed@ == finished_ids(st, now)
                    &&& r.changed == ((exists|i: int| 0 <= i < old_cards.len() && refresh_changes(#[trigger] old_cards[i], visible@, *theme))
                        || r.created@.len() > 0 || r.removed@.len() > 0)
                    &&& r.animating == exists|j: int| 0 <= j < fin.len() && is_animating_spec((#[trigger] fin[j]).motion, now)
                },
            },
    {
        let mut taken: Vec<Shown> = Vec::new();
        std::mem::swap(&mut taken, &mut self.shown);
        let (enter_ms, exit_ms) = match timing {
            None => {
                let mut removed: Vec<u32> = Vec::new();
                let mut i: usize = 0;
                while i < taken.len()
                    invariant
                        i <= taken@.len(),
                        removed@ == ids_of(taken@.take(i as int)),
                    decreases taken.len() - i,
                {
                    removed.push(taken[i].card.id);
                    i = i + 1;
                    assert(ids_of(taken@.take(i as int)) =~= removed@);
                }
                assert(taken@.take(taken@.len() as int) =~= taken@);
                let changed = taken.len() > 0;
                return SyncReport { changed, created: Vec::new(), resized: Vec::new(), removed, animating: false };
            },
            Some(t) => t,
        };
        let ghost old_cards = taken@;
        let cs = cards(visible, theme);
        let (mut mid, resized, old_ids, refresh_changed) = refresh_all(taken, tops, visible, &cs, theme, now, enter_ms, exit_ms);
        let (created, any_created) = add_fresh(&mut mid, &old_ids, visible, &cs, theme, now, enter_ms, Ghost(old_cards));
        proof {
            lemma_staged_ids(old_cards, tops@, visible@, *theme, now, enter_ms, exit_ms);
        }
        let ghost st = staged(old_cards, tops@, visible@, *theme, now, enter_ms, exit_ms);
        proof {
            let f = fresh_cards(old_cards, visible@, *theme, now, enter_ms, visible@.len() as int);
            let n = old_cards.len() as int;
            assert forall|j: int| 0 <= j < st.len() implies shown_like(#[trigger] mid@[j], st[j]) by {
                if j < n {
                    assert(st[j] == refreshed(old_cards[j], tops@[j], visible@, *theme, now, enter_ms, exit_ms));
                } else {
                    assert(st[j] == f[j - n]);
                    assert(mid@[n + (j - n)] == mid@[j]);
                }
            }
        }
        let (kept, removed, animating) = drop_finished(mid, now, Ghost(st));
        self.shown = kept;
        SyncReport { changed: refresh_changed || any_created || removed.len() > 0, created, resized, removed, animating }
    }

    /// Forgets the card with this id (its surface went away), so the next sync builds it afresh.
    pub fn forget(&mut self, id: u32)
        requires
            old(self).wf(),
        ensures
            final(self).wf(),
            forall|j: int| 0 <= j < final(self).cards().len() ==> (#[trigger] final(self).cards()[j]).card.id != id,
            forall|e: Shown| old(self).cards().contains(e) && e.card.id != id <==> final(self).cards().contains(e),
    {
        let mut i: usize = 0;
        while i < self.shown.len()
            invariant
                i <= self.shown@.len(),
                distinct_ids(self.shown@),
                self.shown@ == old(self).shown@,
                forall|j: int| 0 <= j < i ==> (#[trigger] self.shown@[j]).card.id != id,
            decreases self.shown.len() - i,
        {
            if self.shown[i].card.id == id {
                let ghost before = self.shown@;
                self.shown.remove(i);
                proof {
                    assert forall|j: int| 0 <= j < self.shown@.len() implies (#[trigger] self.shown@[j]).card.id != id by {
                        if j < i {
                            assert(self.shown@[j] == before[j]);
                        } else {
                            assert(self.shown@[j] == before[j + 1]);
                        }
                    }
                    assert forall|e: Shown| before.contains(e) && e.card.id != id <==> self.shown@.contains(e) by {
                        if before.contains(e) && e.card.id != id {
                            let j = choose|j: int| 0 <= j < before.len() && before[j] == e;
                            if j < i {
                                assert(self.shown@[j] == e);
                            } else {
                                assert(j != i);
                                assert(self.shown@[j - 1] == e);
                            }
                        }
                        if self.shown@.contains(e) {
                            let j = choose|j: int| 0 <= j < self.shown@.len() && self.shown@[j] == e;
                            if j < i {
                                assert(before[j] == e);
                            } else {
                                assert(before[j + 1] == e);
                            }
                        }
                    }
                    assert forall|a: int, b: int| 0 <= a < b < self.shown@.len() implies (#[trigger] self.shown@[a]).card.id != (#[trigger] self.shown@[b]).card.id by {
                        let a0 = if a < i { a } else { a + 1 };
                        let b0 = if b < i { b } else { b + 1 };
                        assert(self.shown@[a] == before[a0] && self.shown@[b] == before[b0]);
                    }
                }
                return;
            }
            i = i + 1;
        }
        assert forall|e: Shown| old(self).shown@.contains(e) && e.card.id != id <==> self.shown@.contains(e) by {
            if self.shown@.contains(e) {
                let j = choose|j: int| 0 <= j < self.shown@.len() && self.shown@[j] == e;
                assert(e.card.id != id);
            }
        }
    }

    /// The cards on screen.
    pub fn shown(&self) -> (v: &[Shown])
        ensures
            v@ == self.cards(),
    {
        self.shown.as_slice()
    }
}

} // verus!
