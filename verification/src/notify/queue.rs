//! Notification queue: the state machine behind the notification daemon, with no D-Bus and no
//! rendering. Times are milliseconds on one monotonic clock.

use vstd::prelude::*;

use crate::text::{chars_of, lines, split_lines, string_of};

verus! {

#[derive(Clone, Copy, PartialEq, Eq, Debug, Structural)]
pub enum Urgency {
    Low,
    Normal,
    Critical,
}

#[derive(Clone, Debug)]
pub struct Notification {
    pub id: u32,
    pub app_name: String,
    pub summary: String,
    pub body: String,
    pub urgency: Urgency,
    /// Milliseconds after `created` at which the notification expires; `None` = never.
    pub expire: Option<u64>,
    /// `(key, label)` pairs.
    pub actions: Vec<(String, String)>,
    /// Millisecond timestamp of the request that posted (or last replaced) it.
    pub created: u64,
}

#[derive(Clone, Debug)]
pub enum Request {
    Notify {
        id: u32,
        app_name: String,
        replaces_id: u32,
        summary: String,
        body: String,
        actions: Vec<(String, String)>,
        urgency: Urgency,
        expire_timeout: i32,
    },
    Close { id: u32 },
}

#[derive(Clone, PartialEq, Eq, Debug, Structural)]
pub enum Outcome {
    Added(u32),
    Replaced(u32),
    CloseRequested(u32),
    Ignored,
}

pub const MAX_BODY_LINES: usize = 5;

pub const MAX_BODY_CHARS: usize = 300;

pub open spec fn default_timeout_spec(u: Urgency) -> Option<u64> {
    match u {
        Urgency::Low => Some(4000),
        Urgency::Normal => Some(6000),
        Urgency::Critical => None,
    }
}

/// Default lifetime by urgency, in milliseconds: low 4 s, normal 6 s, critical never expires.
pub fn default_timeout(u: Urgency) -> (t: Option<u64>)
    ensures
        t == default_timeout_spec(u),
{
    match u {
        Urgency::Low => Some(4000),
        Urgency::Normal => Some(6000),
        Urgency::Critical => None,
    }
}

/// The `urgency` hint of a notify call: 0 is low, 2 is critical, anything else (or none) normal.
pub open spec fn urgency_of_hint(hint: Option<u8>) -> Urgency {
    match hint {
        Some(0) => Urgency::Low,
        Some(2) => Urgency::Critical,
        _ => Urgency::Normal,
    }
}

pub fn urgency_from_hint(hint: Option<u8>) -> (u: Urgency)
    ensures
        u == urgency_of_hint(hint),
{
    match hint {
        Some(0) => Urgency::Low,
        Some(2) => Urgency::Critical,
        _ => Urgency::Normal,
    }
}

/// The `actions` argument of a notify call is a flat list `key, label, key, label, …`; a trailing
/// key without a label is dropped.
pub fn pair_actions(flat: &Vec<String>) -> (pairs: Vec<(String, String)>)
    ensures
        pairs@.len() == flat@.len() / 2,
        forall|i: int| 0 <= i < pairs@.len() ==> (#[trigger] pairs@[i]).0 == flat@[2 * i] && pairs@[i].1 == flat@[2 * i + 1],
{
    let mut pairs: Vec<(String, String)> = Vec::new();
    let mut i: usize = 0;
    while i + 1 < flat.len()
        invariant
            i % 2 == 0,
            i <= flat@.len(),
            pairs@.len() == i / 2,
            forall|j: int| 0 <= j < pairs@.len() ==> (#[trigger] pairs@[j]).0 == flat@[2 * j] && pairs@[j].1 == flat@[2 * j + 1],
        decreases flat.len() - i,
    {
        pairs.push((flat[i].clone(), flat[i + 1].clone()));
        i = i + 2;
    }
    pairs
}

/// `expire_timeout` as the notification protocol reads it: negative means the urgency's default,
/// zero means never, a positive value is used as-is (milliseconds).
pub open spec fn expiry_for(u: Urgency, expire_timeout: i32) -> Option<u64> {
    if expire_timeout < 0 {
        default_timeout_spec(u)
    } else if expire_timeout == 0 {
        None
    } else {
        Some(expire_timeout as u64)
    }
}

/// Lines joined with `\n`.
pub open spec fn join_lines(ls: Seq<Seq<char>>) -> Seq<char>
    decreases ls.len(),
{
    if ls.len() == 0 {
        seq![]
    } else if ls.len() == 1 {
        ls[0]
    } else {
        join_lines(ls.drop_last()).push('\n') + ls.last()
    }
}

/// At most five lines (an ellipsis marks dropped lines), then at most 300 characters (an
/// ellipsis marks the cut).
pub open spec fn truncated_body(s: Seq<char>) -> Seq<char> {
    let ls = lines(s);
    let kept = join_lines(ls.take(if ls.len() > 5 { 5 } else { ls.len() as int }));
    let marked = if ls.len() > 5 { kept.push('…') } else { kept };
    if marked.len() > 300 {
        marked.take(300).push('…')
    } else {
        marked
    }
}

/// This is a trust boundary: a client (or a script) can stuff in a whole document.
pub fn truncate_body(body: &str) -> (out: String)
    ensures
        out@ == truncated_body(body@),
{
    let chars = chars_of(body);
    let rows = split_lines(&chars);
    let ghost ls = lines(body@);
    let keep: usize = if rows.len() > MAX_BODY_LINES { MAX_BODY_LINES } else { rows.len() };
    let mut out: Vec<char> = Vec::new();
    let mut i: usize = 0;
    while i < keep
        invariant
            keep <= rows.len(),
            crate::text::char_rows(rows@) == ls,
            i <= keep,
            out@ == join_lines(ls.take(i as int)),
        decreases keep - i,
    {
        if i > 0 {
            out.push('\n');
        }
        let row = &rows[i];
        let mut j: usize = 0;
        let ghost before = out@;
        while j < row.len()
            invariant
                j <= row.len(),
                out@ == before + row@.take(j as int),
            decreases row.len() - j,
        {
            out.push(row[j]);
            j = j + 1;
            assert(out@ =~= before + row@.take(j as int));
        }
        proof {
            assert(row@.take(row.len() as int) =~= row@);
            assert(ls[i as int] == row@);
            assert(ls.take(i + 1).drop_last() =~= ls.take(i as int));
            if i == 0 {
                assert(ls.take(1) =~= seq![row@]);
                assert(join_lines(ls.take(1)) == row@);
            }
        }
        i = i + 1;
        assert(out@ =~= join_lines(ls.take(i as int)));
    }
    if rows.len() > MAX_BODY_LINES {
        out.push('…');
    }
    if out.len() > MAX_BODY_CHARS {
        out.truncate(MAX_BODY_CHARS);
        out.push('…');
    }
    string_of(&out)
}

/// Index of the first entry with this id, or -1.
pub open spec fn first_index(s: Seq<Notification>, id: u32) -> int
    decreases s.len(),
{
    if s.len() == 0 {
        -1
    } else {
        let k = first_index(s.drop_last(), id);
        if k >= 0 {
            k
        } else if s.last().id == id {
            s.len() - 1
        } else {
            -1
        }
    }
}

/// `first_index` characterised directly: -1 when no entry carries the id, otherwise the smallest
/// index that does.
pub proof fn lemma_first_index(s: Seq<Notification>, id: u32)
    ensures
        -1 <= first_index(s, id) < s.len(),
        first_index(s, id) >= 0 ==> s[first_index(s, id)].id == id,
        forall|j: int| 0 <= j < s.len() && (first_index(s, id) < 0 || j < first_index(s, id))
            ==> s[j].id != id,
    decreases s.len(),
{
    if s.len() > 0 {
        lemma_first_index(s.drop_last(), id);
        assert forall|j: int| 0 <= j < s.len() - 1 implies s.drop_last()[j] == s[j] by {}
    }
}

/// What the queue holds for a posted request: the request's fields, the body truncated, the
/// expiry resolved and the request time as its creation time.
pub open spec fn posted(
    n: Notification,
    id: u32,
    app_name: String,
    summary: String,
    body: Seq<char>,
    actions: Vec<(String, String)>,
    urgency: Urgency,
    expire_timeout: i32,
    now: u64,
) -> bool {
    &&& n.id == id
    &&& n.app_name == app_name
    &&& n.summary == summary
    &&& n.body@ == truncated_body(body)
    &&& n.urgency == urgency
    &&& n.expire == expiry_for(urgency, expire_timeout)
    &&& n.actions == actions
    &&& n.created == now
}

/// How many notifications the queue keeps: four times the visible count.
pub open spec fn capacity(max_visible: nat) -> nat {
    if 4 * max_visible > usize::MAX {
        usize::MAX as nat
    } else {
        4 * max_visible
    }
}

/// The notification's deadline, if it has one.
pub open spec fn deadline(n: Notification) -> Option<int> {
    match n.expire {
        Some(d) => Some(n.created + d),
        None => None,
    }
}

/// Whether the notification has expired at `now`.
pub open spec fn is_due(n: Notification, now: u64) -> bool {
    match n.expire {
        Some(d) => (if now >= n.created { now - n.created } else { 0 }) >= d,
        None => false,
    }
}

/// Ids of the expired entries, in queue order.
pub open spec fn due_ids(s: Seq<Notification>, now: u64) -> Seq<u32>
    decreases s.len(),
{
    if s.len() == 0 {
        seq![]
    } else {
        let rest = due_ids(s.drop_last(), now);
        if is_due(s.last(), now) {
            rest.push(s.last().id)
        } else {
            rest
        }
    }
}

/// The entries whose id is not listed, in queue order.
pub open spec fn without_ids(s: Seq<Notification>, ids: Seq<u32>) -> Seq<Notification>
    decreases s.len(),
{
    if s.len() == 0 {
        seq![]
    } else {
        let rest = without_ids(s.drop_last(), ids);
        if ids.contains(s.last().id) {
            rest
        } else {
            rest.push(s.last())
        }
    }
}

/// Every deadline is a representable time (a `u64` of milliseconds).
pub open spec fn deadlines_representable(s: Seq<Notification>) -> bool {
    forall|i: int| 0 <= i < s.len() ==> (#[trigger] deadline(s[i]) matches Some(t) ==> t <= u64::MAX)
}

/// The earliest deadline among the entries.
pub open spec fn earliest_deadline(s: Seq<Notification>) -> Option<int>
    decreases s.len(),
{
    if s.len() == 0 {
        None
    } else {
        let rest = earliest_deadline(s.drop_last());
        match (rest, deadline(s.last())) {
            (Some(a), Some(b)) => Some(if b < a { b } else { a }),
            (None, d) => d,
            (r, None) => r,
        }
    }
}

pub struct Queue {
    /// new → old
    items: Vec<Notification>,
    max_visible: usize,
}

impl Queue {
    /// The queued notifications, newest first.
    pub closed spec fn entries(&self) -> Seq<Notification> {
        self.items@
    }

    /// How many of the newest notifications are shown.
    pub closed spec fn shown(&self) -> nat {
        self.max_visible as nat
    }

    /// At least one notification is shown, and the queue holds at most `capacity` of them.
    pub closed spec fn wf(&self) -> bool {
        &&& self.max_visible >= 1
        &&& self.items.len() <= capacity(self.max_visible as nat)
    }

    pub fn new(max_visible: usize) -> (q: Queue)
        ensures
            q.wf(),
            q.entries() == Seq::<Notification>::empty(),
            q.shown() == if max_visible >= 1 { max_visible as nat } else { 1 },
    {
        Queue { items: Vec::new(), max_visible: if max_visible >= 1 { max_visible } else { 1 } }
    }

    /// The shown notifications: the newest `max_visible`, newest first.
    pub fn visible(&self) -> (v: &[Notification])
        ensures
            v@ == self.entries().take(
                if self.entries().len() < self.shown() { self.entries().len() as int } else { self.shown() as int },
            ),
    {
        let n = if self.items.len() < self.max_visible { self.items.len() } else { self.max_visible };
        vstd::slice::slice_subrange(self.items.as_slice(), 0, n)
    }

    fn index_of(&self, id: u32) -> (k: Option<usize>)
        ensures
            match k {
                Some(i) => first_index(self.entries(), id) == i as int && i < self.entries().len(),
                None => first_index(self.entries(), id) < 0,
            },
    {
        let mut i: usize = 0;
        proof {
            lemma_first_index(self.items@, id);
        }
        while i < self.items.len()
            invariant
                i <= self.items.len(),
                forall|j: int| 0 <= j < i ==> self.items@[j].id != id,
                -1 <= first_index(self.items@, id) < self.items@.len(),
                first_index(self.items@, id) >= 0 ==> self.items@[first_index(self.items@, id)].id == id,
                forall|j: int| 0 <= j < self.items@.len() && (first_index(self.items@, id) < 0 || j < first_index(self.items@, id))
                    ==> self.items@[j].id != id,
            decreases self.items.len() - i,
        {
            if self.items[i].id == id {
                return Some(i);
            }
            i = i + 1;
        }
        None
    }

    /// The first queued notification with this id.
    pub fn get(&self, id: u32) -> (n: Option<&Notification>)
        ensures
            match n {
                Some(n) => first_index(self.entries(), id) >= 0 && *n == self.entries()[first_index(
                    self.entries(),
                    id,
                )],
                None => first_index(self.entries(), id) < 0,
            },
    {
        match self.index_of(id) {
            Some(i) => Some(&self.items[i]),
            None => None,
        }
    }

    pub fn is_empty(&self) -> (e: bool)
        ensures
            e == (self.entries().len() == 0),
    {
        self.items.len() == 0
    }

    /// Takes the first notification with this id out of the queue.
    pub fn remove(&mut self, id: u32) -> (n: Option<Notification>)
        requires
            old(self).wf(),
        ensures
            final(self).wf(),
            final(self).shown() == old(self).shown(),
            ({
                let k = first_index(old(self).entries(), id);
                match n {
                    Some(n) => k >= 0 && n == old(self).entries()[k] && final(self).entries()
                        == old(self).entries().remove(k),
                    None => k < 0 && final(self).entries() == old(self).entries(),
                }
            }),
    {
        match self.index_of(id) {
            Some(i) => {
                let n = self.items.remove(i);
                Some(n)
            },
            None => None,
        }
    }

    /// Applies a daemon request. A `Notify` that names a queued id in `replaces_id` updates that
    /// entry in place (same id, same position); otherwise the notification goes in at the front,
    /// and the oldest entry is dropped when the queue is full. A `Close` only reports whether the
    /// id is queued; the caller removes it and emits the signal once.
    pub fn apply(&mut self, req: Request, now: u64) -> (out: Outcome)
        requires
            old(self).wf(),
        ensures
            final(self).wf(),
            final(self).shown() == old(self).shown(),
            ({
                let before = old(self).entries();
                let after = final(self).entries();
                match req {
                    Request::Notify {
                        id,
                        app_name,
                        replaces_id,
                        summary,
                        body,
                        actions,
                        urgency,
                        expire_timeout,
                    } => {
                        let k = first_index(before, replaces_id);
                        if replaces_id != 0 && k >= 0 {
                            &&& out == Outcome::Replaced(replaces_id)
                            &&& after.len() == before.len()
                            &&& forall|j: int| 0 <= j < before.len() && j != k ==> after[j] == before[j]
                            &&& posted(after[k], replaces_id, app_name, summary, body@, actions, urgency, expire_timeout, now)
                        } else {
                            &&& out == Outcome::Added(id)
                            &&& after.len() == if before.len() + 1 > capacity(old(self).shown()) {
                                before.len() as int
                            } else {
                                (before.len() + 1) as int
                            }
                            &&& posted(after[0], id, app_name, summary, body@, actions, urgency, expire_timeout, now)
                            &&& forall|j: int| 1 <= j < after.len() ==> after[j] == before[j - 1]
                            &&& (before.len() + 1 <= 4 * old(self).shown() && before.len() + 1 <= usize::MAX
                                ==> after.len() == before.len() + 1)
                        }
                    },
                    Request::Close { id } => {
                        &&& after == before
                        &&& out == if first_index(before, id) >= 0 {
                            Outcome::CloseRequested(id)
                        } else {
                            Outcome::Ignored
                        }
                    },
                }
            }),
    {
        match req {
            Request::Notify {
                id,
                app_name,
                replaces_id,
                summary,
                body,
                actions,
                urgency,
                expire_timeout,
            } => {
                let expire = if expire_timeout < 0 {
                    default_timeout(urgency)
                } else if expire_timeout == 0 {
                    None
                } else {
                    Some(expire_timeout as u64)
                };
                let text = truncate_body(body.as_str());
                let slot = if replaces_id != 0 {
                    self.index_of(replaces_id)
                } else {
                    None
                };
                match slot {
                    Some(k) => {
                        let updated = Notification {
                            id: replaces_id,
                            app_name,
                            summary,
                            body: text,
                            urgency,
                            expire,
                            actions,
                            created: now,
                        };
                        self.items.set(k, updated);
                        Outcome::Replaced(replaces_id)
                    },
                    None => {
                        let added = Notification {
                            id,
                            app_name,
                            summary,
                            body: text,
                            urgency,
                            expire,
                            actions,
                            created: now,
                        };
                        self.items.insert(0, added);
                        let cap: usize = if self.max_visible <= usize::MAX / 4 {
                            self.max_visible * 4
                        } else {
                            usize::MAX
                        };
                        if self.items.len() > cap {
                            self.items.truncate(cap);
                        }
                        Outcome::Added(id)
                    },
                }
            },
            Request::Close { id } => {
                // Report presence only and let the caller remove it once; removing it here too
                // would make the caller's removal find nothing and swallow the close signal.
                if self.index_of(id).is_some() {
                    Outcome::CloseRequested(id)
                } else {
                    Outcome::Ignored
                }
            },
        }
    }

    /// Removes the notifications that have expired at `now` and returns their ids, in queue order
    /// (the close reason is always 1).
    pub fn expire(&mut self, now: u64) -> (ids: Vec<u32>)
        requires
            old(self).wf(),
        ensures
            final(self).wf(),
            final(self).shown() == old(self).shown(),
            ids@ == due_ids(old(self).entries(), now),
            final(self).entries() == without_ids(old(self).entries(), ids@),
    {
        let mut ids: Vec<u32> = Vec::new();
        let mut i: usize = 0;
        while i < self.items.len()
            invariant
                i <= self.items.len(),
                ids@ == due_ids(self.items@.take(i as int), now),
            decreases self.items.len() - i,
        {
            let n = &self.items[i];
            let due = match n.expire {
                Some(d) => now.saturating_sub(n.created) >= d,
                None => false,
            };
            assert(self.items@.take(i + 1).drop_last() =~= self.items@.take(i as int));
            if due {
                ids.push(n.id);
            }
            i = i + 1;
        }
        assert(self.items@.take(self.items.len() as int) =~= self.items@);
        let ghost all = self.items@;
        let mut pending: Vec<Notification> = Vec::new();
        std::mem::swap(&mut pending, &mut self.items);
        let mut kept: Vec<Notification> = Vec::new();
        let mut done: usize = 0;
        while pending.len() > 0
            invariant
                done + pending@.len() == all.len(),
                all.len() <= usize::MAX,
                pending@ == all.skip(done as int),
                kept@ == without_ids(all.take(done as int), ids@),
                kept@.len() <= done,
            decreases pending.len(),
        {
            let n = pending.remove(0);
            assert(n == all[done as int]);
            assert(all.take(done + 1).drop_last() =~= all.take(done as int));
            let mut listed = false;
            let mut k: usize = 0;
            while k < ids.len()
                invariant
                    k <= ids.len(),
                    listed == exists|m: int| 0 <= m < k && ids@[m] == n.id,
                decreases ids.len() - k,
            {
                if ids[k] == n.id {
                    listed = true;
                }
                k = k + 1;
            }
            assert(listed == ids@.contains(n.id));
            if !listed {
                kept.push(n);
            }
            done = done + 1;
            assert(pending@ =~= all.skip(done as int));
        }
        assert(all.take(done as int) =~= all);
        self.items = kept;
        ids
    }

    /// Whether every deadline in the queue is a representable time, as `next_expiry` needs.
    pub fn deadlines_fit(&self) -> (b: bool)
        ensures
            b == deadlines_representable(self.entries()),
    {
        let mut i: usize = 0;
        while i < self.items.len()
            invariant
                i <= self.items.len(),
                forall|j: int| 0 <= j < i ==> (#[trigger] deadline(self.items@[j]) matches Some(t) ==> t <= u64::MAX),
            decreases self.items.len() - i,
        {
            let n = &self.items[i];
            match n.expire {
                Some(d) => {
                    if d > u64::MAX - n.created {
                        assert(deadline(self.items@[i as int]) == Some(n.created + d));
                        return false;
                    }
                },
                None => {},
            }
            i = i + 1;
        }
        true
    }

    /// The earliest deadline of any queued notification.
    pub fn next_expiry(&self) -> (t: Option<u64>)
        requires
            self.wf(),
            deadlines_representable(self.entries()),
        ensures
            match t {
                Some(v) => earliest_deadline(self.entries()) == Some(v as int),
                None => earliest_deadline(self.entries()) is None,
            },
    {
        let mut best: Option<u64> = None;
        let mut i: usize = 0;
        while i < self.items.len()
            invariant
                i <= self.items.len(),
                self.wf(),
                deadlines_representable(self.items@),
                match best {
                    Some(v) => earliest_deadline(self.items@.take(i as int)) == Some(v as int),
                    None => earliest_deadline(self.items@.take(i as int)) is None,
                },
            decreases self.items.len() - i,
        {
            let n = &self.items[i];
            assert(self.items@.take(i + 1).drop_last() =~= self.items@.take(i as int));
            assert(deadline(self.items@[i as int]) matches Some(t) ==> t <= u64::MAX);
            match n.expire {
                Some(d) => {
                    let at = n.created + d;
                    best = match best {
                        Some(b) => Some(if at < b { at } else { b }),
                        None => Some(at),
                    };
                },
                None => {},
            }
            i = i + 1;
        }
        assert(self.items@.take(self.items.len() as int) =~= self.items@);
        best
    }
}

/// The queue never holds more than four times its visible count.
pub proof fn lemma_capacity_bound(q: &Queue)
    requires
        q.wf(),
    ensures
        q.entries().len() <= capacity(q.shown()),
        q.shown() >= 1,
{
}

/// The queue holds four screens of notifications: the capacity is four times the visible count
/// (or as many as a `usize` counts, should that be fewer).
pub proof fn lemma_capacity_is_four_screens(shown: nat)
    ensures
        4 * shown <= usize::MAX ==> capacity(shown) == 4 * shown,
        4 * shown > usize::MAX ==> capacity(shown) == usize::MAX,
{
}

/// Posting a notification drops nothing while the queue holds fewer than four screens: the new
/// entry goes in front, every earlier entry is kept in order behind it, and every id that was
/// queued can still be found.
pub proof fn lemma_posting_keeps_hidden_entries(before: Seq<Notification>, after: Seq<Notification>, shown: nat)
    requires
        after.len() == if before.len() + 1 > capacity(shown) { before.len() as int } else { (before.len() + 1) as int },
        forall|j: int| 1 <= j < after.len() ==> after[j] == before[j - 1],
        before.len() + 1 <= 4 * shown,
        before.len() + 1 <= usize::MAX,
    ensures
        after.len() == before.len() + 1,
        forall|j: int| 0 <= j < before.len() ==> after[j + 1] == before[j],
        forall|id: u32| first_index(before, id) >= 0 ==> first_index(after, id) >= 0,
{
    assert forall|id: u32| first_index(before, id) >= 0 implies first_index(after, id) >= 0 by {
        lemma_first_index(before, id);
        lemma_first_index(after, id);
        let k = first_index(before, id);
        assert(after[k + 1] == before[k]);
    }
}

/// A freshly added notification is the newest entry, so a lookup by its id finds it and it is
/// among the shown ones.
pub proof fn lemma_added_is_found_and_shown(after: Seq<Notification>, shown: nat, id: u32)
    requires
        after.len() > 0,
        after[0].id == id,
        shown >= 1,
    ensures
        first_index(after, id) == 0,
        after.take(if after.len() < shown { after.len() as int } else { shown as int })[0].id == id,
    decreases after.len(),
{
    if after.len() > 1 {
        assert(after.drop_last()[0] == after[0]);
        lemma_added_is_found_and_shown(after.drop_last(), shown, id);
    } else {
        assert(after.drop_last().len() == 0);
        assert(first_index(after.drop_last(), id) == -1);
        assert(after.last() == after[0]);
    }
}

/// After `expire`, nothing left in the queue is due, and an entry that is not due stays unless an
/// expired entry shares its id.
pub proof fn lemma_expire_leaves_nothing_due(s: Seq<Notification>, now: u64)
    ensures
        forall|j: int|
            0 <= j < without_ids(s, due_ids(s, now)).len() ==> !is_due(
                #[trigger] without_ids(s, due_ids(s, now))[j],
                now,
            ),
        forall|j: int|
            0 <= j < s.len() && !due_ids(s, now).contains(s[j].id) ==> without_ids(
                s,
                due_ids(s, now),
            ).contains(#[trigger] s[j]),
{
    let ids = due_ids(s, now);
    lemma_due_listed(s, now);
    lemma_without_ids_members(s, ids);
    let rest = without_ids(s, ids);
    assert forall|j: int| 0 <= j < rest.len() implies !is_due(#[trigger] rest[j], now) by {
        let m = choose|m: int| 0 <= m < s.len() && s[m] == rest[j];
        if is_due(rest[j], now) {
            assert(ids.contains(s[m].id));
        }
    }
}

proof fn lemma_due_listed(s: Seq<Notification>, now: u64)
    ensures
        forall|j: int| 0 <= j < s.len() && is_due(s[j], now) ==> due_ids(s, now).contains(
            #[trigger] s[j].id,
        ),
    decreases s.len(),
{
    if s.len() > 0 {
        lemma_due_listed(s.drop_last(), now);
        let rest = due_ids(s.drop_last(), now);
        assert forall|j: int| 0 <= j < s.len() && is_due(s[j], now) implies due_ids(s, now).contains(
            #[trigger] s[j].id,
        ) by {
            if j < s.len() - 1 {
                assert(s.drop_last()[j] == s[j]);
                let m = choose|m: int| 0 <= m < rest.len() && rest[m] == s[j].id;
                if is_due(s.last(), now) {
                    assert(rest.push(s.last().id)[m] == s[j].id);
                }
            } else {
                assert(due_ids(s, now) == rest.push(s.last().id));
                assert(due_ids(s, now)[rest.len() as int] == s[j].id);
            }
        }
    }
}

proof fn lemma_without_ids_members(s: Seq<Notification>, ids: Seq<u32>)
    ensures
        forall|j: int| 0 <= j < without_ids(s, ids).len() ==> !ids.contains(
            #[trigger] without_ids(s, ids)[j].id,
        ),
        forall|j: int| 0 <= j < without_ids(s, ids).len() ==> s.contains(
            #[trigger] without_ids(s, ids)[j],
        ),
        forall|j: int| 0 <= j < s.len() && !ids.contains(s[j].id) ==> without_ids(s, ids).contains(
            #[trigger] s[j],
        ),
    decreases s.len(),
{
    if s.len() > 0 {
        lemma_without_ids_members(s.drop_last(), ids);
        let rest = without_ids(s.drop_last(), ids);
        assert forall|j: int| 0 <= j < without_ids(s, ids).len() implies s.contains(
            #[trigger] without_ids(s, ids)[j],
        ) by {
            if j < rest.len() {
                assert(without_ids(s, ids)[j] == rest[j]);
                let m = choose|m: int| 0 <= m < s.drop_last().len() && s.drop_last()[m] == rest[j];
                assert(s[m] == rest[j]);
            } else {
                assert(without_ids(s, ids)[j] == s.last());
                assert(s[s.len() - 1] == s.last());
            }
        }
        assert forall|j: int| 0 <= j < s.len() && !ids.contains(s[j].id) implies without_ids(
            s,
            ids,
        ).contains(#[trigger] s[j]) by {
            if j < s.len() - 1 {
                assert(s.drop_last()[j] == s[j]);
                let m = choose|m: int| 0 <= m < rest.len() && rest[m] == s[j];
                assert(rest.push(s.last())[m] == s[j]);
            } else {
                assert(without_ids(s, ids) == rest.push(s.last()));
                assert(without_ids(s, ids)[rest.len() as int] == s[j]);
            }
        }
    }
}

} // verus!
