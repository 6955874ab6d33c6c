use cornice::notify::queue::{default_timeout, pair_actions, truncate_body, urgency_from_hint, Outcome, Queue, Request, Urgency};

fn notify(id: u32, replaces: u32) -> Request {
    Request::Notify {
        id,
        app_name: "test".into(),
        replaces_id: replaces,
        summary: format!("s{id}"),
        body: "b".into(),
        actions: vec![],
        urgency: Urgency::Normal,
        expire_timeout: -1,
    }
}

fn notify_t(id: u32, replaces: u32, expire_timeout: i32) -> Request {
    match notify(id, replaces) {
        Request::Notify { id, app_name, replaces_id, summary, body, actions, urgency, .. } => {
            Request::Notify { id, app_name, replaces_id, summary, body, actions, urgency, expire_timeout }
        }
        _ => unreachable!(),
    }
}

fn ids(q: &Queue) -> Vec<u32> {
    q.visible().iter().map(|n| n.id).collect()
}

#[test]
fn default_timeouts_by_urgency() {
    assert_eq!(default_timeout(Urgency::Low), Some(4_000));
    assert_eq!(default_timeout(Urgency::Normal), Some(6_000));
    assert_eq!(default_timeout(Urgency::Critical), None);
}

#[test]
fn expire_timeout_semantics() {
    let now = 10_000;
    let mut q = Queue::new(4);
    q.apply(notify_t(1, 0, 0), now);
    assert_eq!(q.next_expiry(), None);
    let mut q = Queue::new(4);
    q.apply(notify_t(2, 0, 1000), now);
    assert_eq!(q.next_expiry(), Some(now + 1000));
    let mut q = Queue::new(4);
    q.apply(notify_t(3, 0, -1), now);
    assert_eq!(q.next_expiry(), Some(now + 6_000));
}

#[test]
fn replaces_id_updates_in_place_without_new_id() {
    let now = 10_000;
    let mut q = Queue::new(4);
    assert_eq!(q.apply(notify(1, 0), now), Outcome::Added(1));
    assert_eq!(q.apply(notify(2, 0), now), Outcome::Added(2));
    let mut req = notify_t(9, 1, -1);
    if let Request::Notify { summary, .. } = &mut req {
        *summary = "new".into();
    }
    let out = q.apply(req, now);
    assert_eq!(out, Outcome::Replaced(1));
    assert_eq!(q.visible().len(), 2);
    assert_eq!(q.get(1).unwrap().summary, "new");
    assert_eq!(q.visible()[1].id, 1);
}

#[test]
fn replaces_id_for_unknown_id_creates_entry() {
    let now = 10_000;
    let mut q = Queue::new(4);
    assert_eq!(q.apply(notify(7, 999), now), Outcome::Added(7));
}

#[test]
fn max_visible_hides_but_keeps_in_queue() {
    let now = 10_000;
    let mut q = Queue::new(2);
    q.apply(notify(1, 0), now);
    q.apply(notify(2, 0), now);
    q.apply(notify(3, 0), now);
    assert_eq!(q.visible().len(), 2, "only the first two are visible");
    assert_eq!(q.get(3).unwrap().summary, "s3", "the third entry is still queued");
    q.remove(1);
    assert_eq!(ids(&q), vec![3, 2], "they slide in in turn as earlier ones disappear");
}

#[test]
fn expiry_reports_ids_and_drops_them() {
    let now = 10_000;
    let mut q = Queue::new(4);
    q.apply(notify_t(1, 0, 1000), now);
    assert!(q.expire(now + 999).is_empty());
    assert_eq!(q.expire(now + 1000), vec![1]);
    assert!(q.get(1).is_none());
}

#[test]
fn close_and_action_requests() {
    let now = 10_000;
    let mut q = Queue::new(4);
    q.apply(notify(5, 0), now);
    assert_eq!(q.apply(Request::Close { id: 5 }, now), Outcome::CloseRequested(5));
    assert_eq!(q.apply(Request::Close { id: 404 }, now), Outcome::Ignored);
}

#[test]
fn truncate_body_limits_lines_and_chars() {
    assert_eq!(truncate_body("a\nb\nc\nd\ne\nf\ng"), "a\nb\nc\nd\ne…");
    let long = "x".repeat(500);
    assert!(truncate_body(&long).chars().count() <= 301);
    assert!(truncate_body(&long).ends_with('…'));
    assert_eq!(truncate_body("short"), "short");
}

#[test]
fn truncate_body_edges() {
    // exactly five lines: nothing dropped, no mark
    assert_eq!(truncate_body("a\nb\nc\nd\ne"), "a\nb\nc\nd\ne");
    // a trailing newline does not make a sixth line
    assert_eq!(truncate_body("a\nb\nc\nd\ne\n"), "a\nb\nc\nd\ne");
    // CRLF line ends are lines too
    assert_eq!(truncate_body("a\r\nb\r\nc\r\nd\r\ne\r\nf"), "a\nb\nc\nd\ne…");
    let exact = "y".repeat(300);
    assert_eq!(truncate_body(&exact), exact);
    let over = "y".repeat(301);
    assert_eq!(truncate_body(&over), format!("{}…", "y".repeat(300)));
    assert_eq!(truncate_body(""), "");
}

#[test]
fn a_close_request_leaves_the_queue_alone() {
    let mut q = Queue::new(4);
    q.apply(notify(5, 0), 0);
    q.apply(Request::Close { id: 5 }, 0);
    assert_eq!(ids(&q), vec![5], "the caller removes it once and emits the signal");
    assert_eq!(q.remove(5).unwrap().id, 5);
    assert!(q.is_empty());
    assert!(q.remove(5).is_none());
}

#[test]
fn queue_is_capped_at_four_times_the_visible_count() {
    let mut q = Queue::new(1);
    for id in 1..=6 {
        q.apply(notify(id, 0), 0);
    }
    assert_eq!(ids(&q), vec![6]);
    assert!(q.get(2).is_none(), "the oldest entries were dropped");
    assert!(q.get(1).is_none());
    assert!(q.get(3).is_some());
    assert!(q.get(6).is_some());
}

#[test]
fn zero_visible_still_shows_one() {
    let mut q = Queue::new(0);
    q.apply(notify(1, 0), 0);
    q.apply(notify(2, 0), 0);
    assert_eq!(ids(&q), vec![2]);
}

#[test]
fn replacement_restarts_the_timer_and_resolves_urgency() {
    let mut q = Queue::new(4);
    q.apply(notify_t(1, 0, 1000), 0);
    let req = Request::Notify {
        id: 2,
        app_name: "t".into(),
        replaces_id: 1,
        summary: "x".into(),
        body: "y".into(),
        actions: vec![("k".into(), "Label".into())],
        urgency: Urgency::Low,
        expire_timeout: -1,
    };
    assert_eq!(q.apply(req, 500), Outcome::Replaced(1));
    let n = q.get(1).unwrap();
    assert_eq!(n.created, 500);
    assert_eq!(n.expire, Some(4_000));
    assert_eq!(n.urgency, Urgency::Low);
    assert_eq!(n.actions, vec![("k".to_string(), "Label".to_string())]);
    assert_eq!(q.next_expiry(), Some(4_500));
    assert!(q.get(2).is_none(), "a replacement keeps the replaced id");
}

#[test]
fn expiry_is_measured_from_creation_and_keeps_order() {
    let mut q = Queue::new(4);
    q.apply(notify_t(1, 0, 100), 0);
    q.apply(notify_t(2, 0, 0), 0);
    q.apply(notify_t(3, 0, 50), 20);
    assert_eq!(q.next_expiry(), Some(70));
    assert_eq!(q.expire(100), vec![3, 1]);
    assert_eq!(ids(&q), vec![2]);
    assert_eq!(q.next_expiry(), None);
    assert!(q.expire(u64::MAX).is_empty(), "a notification without a timeout never expires");
}

#[test]
fn a_clock_that_steps_back_expires_nothing() {
    let mut q = Queue::new(4);
    q.apply(notify_t(1, 0, 10), 1_000);
    assert!(q.expire(0).is_empty());
}

#[test]
fn the_body_is_truncated_on_the_way_in() {
    let mut q = Queue::new(4);
    let req = Request::Notify {
        id: 1,
        app_name: "t".into(),
        replaces_id: 0,
        summary: "s".into(),
        body: "1\n2\n3\n4\n5\n6".into(),
        actions: vec![],
        urgency: Urgency::Critical,
        expire_timeout: -1,
    };
    q.apply(req, 0);
    let n = q.get(1).unwrap();
    assert_eq!(n.body, "1\n2\n3\n4\n5…");
    assert_eq!(n.expire, None, "critical notifications do not expire by default");
}

#[test]
fn urgency_hints_and_action_pairs() {
    assert_eq!(urgency_from_hint(Some(0)), Urgency::Low);
    assert_eq!(urgency_from_hint(Some(1)), Urgency::Normal);
    assert_eq!(urgency_from_hint(Some(2)), Urgency::Critical);
    assert_eq!(urgency_from_hint(Some(7)), Urgency::Normal);
    assert_eq!(urgency_from_hint(None), Urgency::Normal);
    let flat: Vec<String> = ["default", "Open", "dismiss", "Dismiss", "dangling"].iter().map(|s| s.to_string()).collect();
    assert_eq!(
        pair_actions(&flat),
        vec![("default".to_string(), "Open".to_string()), ("dismiss".to_string(), "Dismiss".to_string())]
    );
    assert!(pair_actions(&vec![]).is_empty());
}

#[test]
fn any_time_is_accepted_and_an_unrepresentable_deadline_is_reported() {
    let mut q = Queue::new(1);
    let late = u64::MAX - 10;
    for id in 1..=6 {
        q.apply(notify_t(id, 0, 1000), late);
    }
    assert_eq!(ids(&q), vec![6]);
    assert!(q.get(2).is_none(), "still capped at four times the visible count");
    assert!(!q.deadlines_fit());
    let mut r = Queue::new(1);
    r.apply(notify_t(1, 0, 1000), 0);
    assert!(r.deadlines_fit());
    assert_eq!(r.next_expiry(), Some(1000));
}
