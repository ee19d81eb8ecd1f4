use lifemaint::schema::{OnSpec, RawTask};
use lifemaint::{compute_status, date, Bucket, Completion, Date, Event, Punt, Task, TaskStatus};

fn task_with(every: &str, on: Option<&str>, lead_time: Option<&str>, start: Option<Date>) -> Task {
    Task::from_raw(RawTask {
        id: "t".to_string(),
        name: "T".to_string(),
        every: every.to_string(),
        on: on.map(|s| OnSpec::MonthDay(s.to_string())),
        lead_time: lead_time.map(str::to_string),
        prep: vec![],
        vendor: None,
        notes: None,
        start,
    })
    .unwrap()
}

fn monthly() -> Task {
    task_with("monthly", None, None, None)
}

fn parse_date(s: &str) -> Date {
    let y: i16 = s[0..4].parse().unwrap();
    let m: i8 = s[5..7].parse().unwrap();
    let d: i8 = s[8..10].parse().unwrap();
    date(y, m, d)
}

fn done(id: &str, on: &str) -> Event {
    Event::Completion(Completion {
        id: id.to_string(),
        done: parse_date(on),
        via: "test".to_string(),
        by: None,
        cost_cents: None,
        note: None,
    })
}

fn punt(id: &str, to: &str) -> Event {
    Event::Punt(Punt {
        id: id.to_string(),
        punt_to: parse_date(to),
        via: "test".to_string(),
    })
}

fn only(statuses: &[TaskStatus]) -> &TaskStatus {
    assert_eq!(statuses.len(), 1);
    &statuses[0]
}

fn run(tasks: Vec<Task>, events: Vec<Event>, today: Date) -> Vec<TaskStatus> {
    compute_status(&tasks, &events, today).unwrap()
}

#[test]
fn never_done_no_start_is_due_today() {
    let statuses = run(vec![monthly()], vec![], date(2026, 6, 6));
    let status = only(&statuses);
    assert_eq!(status.next_due, date(2026, 6, 6));
    assert_eq!(status.bucket, Bucket::Due);
    assert_eq!(status.last_done, None);
}

#[test]
fn relative_overdue() {
    let status = run(vec![monthly()], vec![done("t", "2026-01-01")], date(2026, 6, 6));
    let status = only(&status);
    assert_eq!(status.next_due, date(2026, 2, 1));
    assert_eq!(status.bucket, Bucket::Overdue);
}

#[test]
fn relative_ok() {
    let status = run(vec![monthly()], vec![done("t", "2026-06-01")], date(2026, 6, 6));
    let status = only(&status);
    assert_eq!(status.next_due, date(2026, 7, 1));
    assert_eq!(status.bucket, Bucket::Upcoming);
}

#[test]
fn max_done_wins() {
    let events = vec![done("t", "2026-01-01"), done("t", "2026-06-01")];
    let status = run(vec![monthly()], events, date(2026, 6, 6));
    let status = only(&status);
    assert_eq!(status.last_done, Some(date(2026, 6, 1)));
    assert_eq!(status.next_due, date(2026, 7, 1));
}

#[test]
fn prep_window_is_prep() {
    let tasks = vec![task_with("yearly", Some("10-15"), Some("2 weeks"), None)];
    let status = run(tasks, vec![], date(2026, 10, 5));
    let status = only(&status);
    assert_eq!(status.next_due, date(2026, 10, 15));
    assert_eq!(status.prep_due, Some(date(2026, 10, 1)));
    assert_eq!(status.bucket, Bucket::Prep);
}

#[test]
fn prep_not_reached_is_ok() {
    let tasks = vec![task_with("yearly", Some("10-15"), Some("2 weeks"), None)];
    let status = run(tasks, vec![], date(2026, 9, 1));
    let status = only(&status);
    assert_eq!(status.next_due, date(2026, 10, 15));
    assert_eq!(status.prep_due, Some(date(2026, 10, 1)));
    assert_eq!(status.bucket, Bucket::Upcoming);
}

#[test]
fn due_exactly() {
    let status = run(vec![monthly()], vec![done("t", "2026-05-06")], date(2026, 6, 6));
    let status = only(&status);
    assert_eq!(status.next_due, date(2026, 6, 6));
    assert_eq!(status.bucket, Bucket::Due);
}

#[test]
fn completion_for_other_id_ignored() {
    let status = run(vec![monthly()], vec![done("other", "2026-01-01")], date(2026, 6, 6));
    let status = only(&status);
    assert_eq!(status.last_done, None);
    assert_eq!(status.next_due, date(2026, 6, 6));
    assert_eq!(status.bucket, Bucket::Due);
}

#[test]
fn never_done_future_start_is_ok() {
    let tasks = vec![task_with("monthly", None, None, Some(date(2026, 12, 1)))];
    let status = run(tasks, vec![], date(2026, 6, 6));
    let status = only(&status);
    assert_eq!(status.next_due, date(2026, 12, 1));
    assert_eq!(status.bucket, Bucket::Upcoming);
}

#[test]
fn never_done_past_start_is_overdue() {
    let tasks = vec![task_with("monthly", None, None, Some(date(2026, 1, 1)))];
    let status = run(tasks, vec![], date(2026, 6, 6));
    let status = only(&status);
    assert_eq!(status.next_due, date(2026, 1, 1));
    assert_eq!(status.bucket, Bucket::Overdue);
}

#[test]
fn future_completion_honored() {
    let status = run(vec![monthly()], vec![done("t", "2026-08-01")], date(2026, 6, 6));
    let status = only(&status);
    assert_eq!(status.last_done, Some(date(2026, 8, 1)));
    assert_eq!(status.next_due, date(2026, 9, 1));
    assert_eq!(status.bucket, Bucket::Upcoming);
}

#[test]
fn punt_overrides_schedule() {
    let status = run(vec![monthly()], vec![punt("t", "2026-09-01")], date(2026, 6, 6));
    let status = only(&status);
    assert_eq!(status.next_due, date(2026, 9, 1));
    assert_eq!(status.bucket, Bucket::Upcoming);
}

#[test]
fn completion_after_punt_clears_it() {
    let events = vec![punt("t", "2026-09-01"), done("t", "2026-06-01")];
    let status = run(vec![monthly()], events, date(2026, 6, 6));
    let status = only(&status);
    assert_eq!(status.next_due, date(2026, 7, 1));
    assert_eq!(status.bucket, Bucket::Upcoming);
}

#[test]
fn punt_after_completion_wins() {
    let events = vec![done("t", "2026-06-01"), punt("t", "2026-12-01")];
    let status = run(vec![monthly()], events, date(2026, 6, 6));
    let status = only(&status);
    assert_eq!(status.next_due, date(2026, 12, 1));
}

#[test]
fn interleaved_completion_after_punt_uses_max_done() {
    let events = vec![
        done("t", "2026-06-01"),
        punt("t", "2026-09-01"),
        done("t", "2026-05-01"),
    ];
    let status = run(vec![monthly()], events, date(2026, 6, 6));
    let status = only(&status);
    assert_eq!(status.last_done, Some(date(2026, 6, 1)));
    assert_eq!(status.next_due, date(2026, 7, 1));
    assert_eq!(status.bucket, Bucket::Upcoming);
}

#[test]
fn punt_to_past_is_overdue() {
    let status = run(vec![monthly()], vec![punt("t", "2026-05-01")], date(2026, 6, 6));
    let status = only(&status);
    assert_eq!(status.next_due, date(2026, 5, 1));
    assert_eq!(status.bucket, Bucket::Overdue);
}

#[test]
fn punt_for_other_id_ignored() {
    let status = run(vec![monthly()], vec![punt("other", "2026-09-01")], date(2026, 6, 6));
    let status = only(&status);
    assert_eq!(status.next_due, date(2026, 6, 6));
    assert_eq!(status.bucket, Bucket::Due);
}

#[test]
fn fixed_task_advances_past_completion() {
    let tasks = vec![task_with("yearly", Some("10-15"), None, None)];
    let status = run(tasks, vec![done("t", "2026-10-15")], date(2026, 10, 20));
    let status = only(&status);
    assert_eq!(status.next_due, date(2027, 10, 15));
    assert_eq!(status.bucket, Bucket::Upcoming);
}

#[test]
fn prep_window_opens_before_due_and_bucket_names() {
    let tasks = vec![task_with("monthly", None, Some("10 days"), Some(date(2026, 3, 5)))];
    let status = run(tasks, vec![], date(2026, 2, 28));
    let status = only(&status);
    assert_eq!(status.prep_due, Some(date(2026, 2, 23)));
    assert_eq!(status.bucket, Bucket::Prep);
    assert_eq!(Bucket::Upcoming.name(), "ok");
    assert_eq!(Bucket::Overdue.name(), "overdue");
}

#[test]
fn other_task_events_anywhere_are_ignored() {
    let plain = run(vec![monthly()], vec![done("t", "2026-01-10")], date(2026, 3, 1));
    let noisy = run(
        vec![monthly()],
        vec![punt("x", "2026-12-01"), done("t", "2026-01-10"), done("y", "2026-02-20")],
        date(2026, 3, 1),
    );
    assert_eq!(only(&plain).next_due, only(&noisy).next_due);
    assert_eq!(only(&plain).bucket, only(&noisy).bucket);
}

#[test]
fn repeated_event_changes_nothing() {
    let once = run(vec![monthly()], vec![done("t", "2026-01-10")], date(2026, 3, 1));
    let twice = run(
        vec![monthly()],
        vec![done("t", "2026-01-10"), done("t", "2026-01-10")],
        date(2026, 3, 1),
    );
    assert_eq!(only(&once).next_due, only(&twice).next_due);
    assert_eq!(only(&once).last_done, only(&twice).last_done);
}

#[test]
fn bucket_moves_forward_with_today() {
    let task = || task_with("yearly", Some("10-15"), Some("2 weeks"), None);
    let rank = |b: Bucket| match b {
        Bucket::Upcoming => 0,
        Bucket::Prep => 1,
        Bucket::Due => 2,
        Bucket::Overdue => 3,
    };
    let events = vec![done("t", "2025-10-15")];
    let mut last = 0;
    for day in ["2026-09-01", "2026-10-01", "2026-10-10", "2026-10-15", "2026-10-20"] {
        let b = only(&run(vec![task()], events.clone(), parse_date(day))).bucket;
        assert!(rank(b) >= last, "{day}: {b:?}");
        last = rank(b);
    }
    assert_eq!(last, 3);
}

#[test]
fn bucket_for_moves_forward() {
    let due = date(2026, 10, 15);
    let prep = Some(date(2026, 10, 1));
    let order = [
        (date(2026, 9, 1), Bucket::Upcoming),
        (date(2026, 10, 1), Bucket::Prep),
        (date(2026, 10, 15), Bucket::Due),
        (date(2026, 10, 16), Bucket::Overdue),
    ];
    for (today, want) in order {
        assert_eq!(lifemaint::status::bucket_for(due, prep, today), want);
    }
}

#[test]
fn schedule_error_names_the_failing_task() {
    let tasks = vec![monthly(), task_with("yearly", Some("12-31"), None, None)];
    let events = vec![done("t", "9999-12-31")];
    match compute_status(&tasks, &events, date(2026, 1, 1)) {
        Err(e) => assert!(e.message().starts_with("cannot parse schedule: "), "{}", e.message()),
        Ok(_) => panic!("expected a schedule error"),
    }
}
