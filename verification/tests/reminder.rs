use task_ping::model::{Field, Task, Timestamp};
use task_ping::plan::{publish, reconcile, ChannelMessage, OutboundMessage, PingError};
use task_ping::render::{render, rendering_eq, Color, Rendering};
use task_ping::select::select;

fn ts(day: i64, sec: u32) -> Timestamp {
    Timestamp { day, sec }
}

fn task(day: i64, sec: u32, name: &str) -> Task {
    Task {
        due: ts(day, sec),
        field: Field { name: name.to_string(), value: format!("due day {day}"), inline: false },
    }
}

fn field_names(r: &Rendering) -> Vec<String> {
    r.fields.iter().map(|f| f.name.clone()).collect()
}

#[test]
fn select_keeps_exactly_the_window_subset_sorted() {
    let tasks = vec![
        task(5, 100, "late"),
        task(1, 0, "on lower bound"),
        task(3, 50, "inside b"),
        task(2, 10, "inside a"),
        task(9, 0, "far out"),
    ];
    let picked = select(&tasks, ts(1, 0), ts(5, 100));
    let names: Vec<String> = picked.iter().map(|t| t.field.name.clone()).collect();
    assert_eq!(names, vec!["inside a", "inside b", "late"]);
}

#[test]
fn select_is_stable_for_equal_due_times() {
    let tasks = vec![
        task(2, 30, "first"),
        task(1, 0, "early"),
        task(2, 30, "second"),
        task(2, 30, "third"),
    ];
    let picked = select(&tasks, ts(0, 0), ts(4, 0));
    let names: Vec<String> = picked.iter().map(|t| t.field.name.clone()).collect();
    assert_eq!(names, vec!["early", "first", "second", "third"]);
}

#[test]
fn select_includes_upper_bound_excludes_lower_bound() {
    let tasks = vec![task(1, 0, "at from"), task(2, 0, "at to")];
    let picked = select(&tasks, ts(1, 0), ts(2, 0));
    assert_eq!(picked.len(), 1);
    assert_eq!(picked[0].field.name, "at to");
}

#[test]
fn render_empty_gives_fixed_no_tasks_body() {
    let r = render(&Vec::new());
    assert_eq!(r.title, "タスク通知");
    assert_eq!(r.description, "明日のタスクはありません:tada:");
    assert_eq!(r.fields.len(), 0);
    assert!(matches!(r.color, Color::DarkGreen));
}

#[test]
fn render_nonempty_gives_one_field_per_task_in_order() {
    let tasks = vec![task(1, 0, "a"), task(1, 10, "b"), task(2, 0, "c")];
    let r = render(&tasks);
    assert_eq!(r.title, "タスク通知");
    assert_eq!(r.description, "明日のタスクをお知らせします！");
    assert!(matches!(r.color, Color::Red));
    assert_eq!(field_names(&r), vec!["a", "b", "c"]);
}

#[test]
fn rendering_equality_is_an_equivalence() {
    let tasks = vec![task(1, 0, "a")];
    let r1 = render(&tasks);
    let r2 = render(&tasks);
    let r3 = render(&tasks);
    // reflexive, and independent renders of the same tasks are equal
    assert!(rendering_eq(&r1, &r1));
    assert!(rendering_eq(&r1, &r2));
    // symmetric
    assert_eq!(rendering_eq(&r1, &r2), rendering_eq(&r2, &r1));
    // transitive
    assert!(rendering_eq(&r1, &r2) && rendering_eq(&r2, &r3) && rendering_eq(&r1, &r3));
}

#[test]
fn rendering_equality_detects_changed_fields() {
    let r1 = render(&vec![task(1, 0, "a")]);
    let r2 = render(&vec![task(1, 0, "b")]);
    let empty = render(&Vec::new());
    assert!(!rendering_eq(&r1, &r2));
    assert!(!rendering_eq(&r1, &empty));
}

#[test]
fn publish_one_task_due_tomorrow_mentions_role() {
    // now is today at midnight; one task due tomorrow at 10:00
    let tasks = vec![task(1, 36000, "tomorrow ten")];
    let msg = publish(ts(0, 0), Some(77), Some(42), &tasks).unwrap();
    assert_eq!(msg.channel, 77);
    assert_eq!(msg.mention, Some(42));
    assert!(!msg.update_notice);
    assert_eq!(msg.reference, None);
    assert_eq!(msg.rendering.fields.len(), 1);
    assert!(matches!(msg.rendering.color, Color::Red));
    assert_eq!(msg.rendering.fields[0].name, "tomorrow ten");
}

#[test]
fn publish_without_tasks_has_no_mention_and_no_fields() {
    // tasks exist, but none due tomorrow
    let tasks = vec![task(0, 36000, "today"), task(5, 0, "next week")];
    let msg = publish(ts(0, 0), Some(77), Some(42), &tasks).unwrap();
    assert_eq!(msg.mention, None);
    assert_eq!(msg.rendering.fields.len(), 0);
    assert!(matches!(msg.rendering.color, Color::DarkGreen));
    assert_eq!(msg.rendering.description, "明日のタスクはありません:tada:");
}

#[test]
fn publish_window_boundaries() {
    // due exactly at the upper bound (midnight of the day after tomorrow) is
    // included; due exactly at the lower bound (tomorrow's midnight) is not
    let at_to = vec![task(2, 0, "at to")];
    let msg = publish(ts(0, 0), Some(1), Some(2), &at_to).unwrap();
    assert_eq!(msg.rendering.fields.len(), 1);

    let at_from = vec![task(1, 0, "at from")];
    let msg = publish(ts(0, 0), Some(1), Some(2), &at_from).unwrap();
    assert_eq!(msg.rendering.fields.len(), 0);
}

#[test]
fn publish_fails_without_configuration() {
    let tasks = vec![task(1, 0, "a")];
    assert!(matches!(publish(ts(0, 0), None, Some(42), &tasks), Err(PingError::ConfigMissing)));
    assert!(matches!(publish(ts(0, 0), Some(77), None, &tasks), Err(PingError::ConfigMissing)));
    assert!(matches!(publish(ts(0, 0), None, None, &tasks), Err(PingError::ConfigMissing)));
}

const BOT: u64 = 900;

fn prior_message(id: u64, created: Timestamp, author: u64, tasks_then: &[Task]) -> ChannelMessage {
    let snapshot: Vec<Task> = tasks_then.iter().map(|t| t.clone()).collect();
    ChannelMessage { id, created, author, reference: None, rendering: render(&snapshot) }
}

fn unwrap_ok(r: Result<Vec<OutboundMessage>, PingError>) -> Vec<OutboundMessage> {
    match r {
        Ok(v) => v,
        Err(_) => panic!("reconcile failed"),
    }
}

#[test]
fn reconcile_posts_followup_when_task_was_added() {
    // the reminder was posted at day 0 for an empty window; a task due day 1
    // has since appeared
    let prior = prior_message(10, ts(0, 300), BOT, &[]);
    let tasks = vec![task(1, 36000, "new task")];
    let out = unwrap_ok(reconcile(ts(0, 500), Some(77), Some(42), BOT, vec![prior], &tasks));
    assert_eq!(out.len(), 1);
    assert_eq!(out[0].channel, 77);
    assert_eq!(out[0].mention, Some(42));
    assert!(out[0].update_notice);
    assert_eq!(out[0].reference, Some(10));
    assert_eq!(out[0].rendering.fields.len(), 1);
    assert_eq!(out[0].rendering.fields[0].name, "new task");
}

#[test]
fn reconcile_posts_nothing_when_window_unchanged() {
    let tasks = vec![task(1, 36000, "steady")];
    let prior = prior_message(10, ts(0, 300), BOT, &[task(1, 36000, "steady")]);
    let out = unwrap_ok(reconcile(ts(0, 500), Some(77), Some(42), BOT, vec![prior], &tasks));
    assert_eq!(out.len(), 0);
}

#[test]
fn reconcile_excludes_followup_replies() {
    // stale in content, but itself a reply: excluded whatever its age/author
    let mut prior = prior_message(10, ts(0, 300), BOT, &[]);
    prior.reference = Some(9);
    let tasks = vec![task(1, 36000, "new task")];
    let out = unwrap_ok(reconcile(ts(0, 500), Some(77), Some(42), BOT, vec![prior], &tasks));
    assert_eq!(out.len(), 0);
}

#[test]
fn reconcile_excludes_other_authors_and_old_messages() {
    let tasks = vec![task(3, 36000, "new task")];
    // written by someone else
    let foreign = prior_message(10, ts(2, 300), 1234, &[]);
    // created before yesterday relative to now = day 2; stale for its own
    // window, so only its age excludes it
    let too_old = prior_message(11, ts(0, 300), BOT, &[task(2, 0, "was here")]);
    // recent, bot-authored, stale: the only one acted on
    let live = prior_message(12, ts(2, 400), BOT, &[]);
    let out = unwrap_ok(
        reconcile(ts(2, 500), Some(77), Some(42), BOT, vec![foreign, too_old, live], &tasks),
    );
    assert_eq!(out.len(), 1);
    assert_eq!(out[0].reference, Some(12));
}

#[test]
fn reconcile_fails_without_configuration() {
    let r = reconcile(ts(0, 0), None, Some(42), BOT, Vec::new(), &Vec::new());
    assert!(matches!(r, Err(PingError::ConfigMissing)));
    let r = reconcile(ts(0, 0), Some(77), None, BOT, Vec::new(), &Vec::new());
    assert!(matches!(r, Err(PingError::ConfigMissing)));
}

#[test]
fn reconcile_processes_most_recent_candidate_first() {
    // two stale reminders; the follow-ups come most recent first
    let older = prior_message(10, ts(0, 100), BOT, &[]);
    let newer = prior_message(11, ts(0, 200), BOT, &[]);
    let tasks = vec![task(1, 36000, "new task")];
    let out = unwrap_ok(
        reconcile(ts(0, 500), Some(77), Some(42), BOT, vec![older, newer], &tasks),
    );
    assert_eq!(out.len(), 2);
    assert_eq!(out[0].reference, Some(11));
    assert_eq!(out[1].reference, Some(10));
}

#[test]
fn reconcile_breaks_creation_ties_in_reverse_fetch_order() {
    let first = prior_message(10, ts(0, 200), BOT, &[]);
    let second = prior_message(11, ts(0, 200), BOT, &[]);
    let tasks = vec![task(1, 36000, "new task")];
    let out = unwrap_ok(
        reconcile(ts(0, 500), Some(77), Some(42), BOT, vec![first, second], &tasks),
    );
    assert_eq!(out.len(), 2);
    assert_eq!(out[0].reference, Some(11));
    assert_eq!(out[1].reference, Some(10));
}

#[test]
fn timestamp_order_is_lexicographic() {
    assert!(ts(1, 5).lt(ts(2, 0)));
    assert!(ts(1, 5).lt(ts(1, 6)));
    assert!(!ts(1, 5).lt(ts(1, 5)));
    assert!(ts(1, 5).le(ts(1, 5)));
    assert!(!ts(2, 0).le(ts(1, 59)));
}
