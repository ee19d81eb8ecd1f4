use lifemaint::schema::{OnSpec, RawCompletion, RawPunt, RawTask, RawVendor};
use lifemaint::{date, Completion, Punt, Schedule, Task, Vendor};

fn raw_task(id: &str, every: &str) -> RawTask {
    RawTask {
        id: id.to_string(),
        name: id.to_uppercase(),
        every: every.to_string(),
        on: None,
        lead_time: None,
        prep: vec![],
        vendor: None,
        notes: None,
        start: None,
    }
}

#[test]
fn task_from_raw_relative_with_lead_time() {
    let mut raw = raw_task("g", "6 months");
    raw.lead_time = Some("2 weeks".to_string());
    raw.prep = vec!["call vendor".to_string(), "clear area".to_string()];
    let task = Task::from_raw(raw).unwrap();
    assert!(matches!(task.schedule, Schedule::Relative(_)));
    assert!(task.lead_time.is_some());
    assert_eq!(
        task.prep,
        vec!["call vendor".to_string(), "clear area".to_string()]
    );
}

#[test]
fn task_from_raw_fixed() {
    let mut raw = raw_task("s", "yearly");
    raw.on = Some(OnSpec::MonthDay("10-15".to_string()));
    let task = Task::from_raw(raw).unwrap();
    assert!(matches!(task.schedule, Schedule::Fixed(_)));
}

#[test]
fn task_from_raw_no_lead_time_is_none() {
    let task = Task::from_raw(raw_task("x", "weekly")).unwrap();
    assert!(task.lead_time.is_none());
}

#[test]
fn task_from_raw_bad_interval_is_err() {
    assert!(Task::from_raw(raw_task("x", "fortnightly")).is_err());
}

#[test]
fn task_from_raw_bad_lead_time_is_reported_first() {
    let mut raw = raw_task("x", "fortnightly");
    raw.lead_time = Some("soon".to_string());
    match Task::from_raw(raw) {
        Err(e) => assert_eq!(e.message(), "cannot parse schedule: unrecognized interval: \"soon\""),
        Ok(t) => panic!("unexpected {t:?}"),
    }
}

#[test]
fn completion_from_raw_carries_fields() {
    let raw = RawCompletion {
        id: "g".to_string(),
        done: date(2026, 6, 5),
        via: "manual".to_string(),
        by: Some("Acme".to_string()),
        cost_cents: Some(28500),
        note: None,
    };
    let completion = Completion::from_raw(raw);
    assert_eq!(completion.done, date(2026, 6, 5));
    assert_eq!(completion.cost_cents, Some(28500));
    assert_eq!(completion.by, Some("Acme".to_string()));
}

#[test]
fn vendor_from_raw_carries_fields() {
    let raw = RawVendor {
        id: "acme".to_string(),
        name: "Acme".to_string(),
        phone: None,
        email: None,
        notes: None,
    };
    let vendor = Vendor::from_raw(raw);
    assert_eq!(vendor.name, "Acme");
    assert_eq!(vendor.phone, None);
}

#[test]
fn punt_from_raw_carries_fields() {
    let raw = RawPunt {
        id: "mow".to_string(),
        punt_to: date(2027, 4, 1),
        via: "cli".to_string(),
    };
    let punt = Punt::from_raw(raw);
    assert_eq!(punt.punt_to, date(2027, 4, 1));
    assert_eq!(punt.via, "cli");
}

#[test]
fn task_from_raw_carries_raw_recurrence_relative() {
    let task = Task::from_raw(raw_task("x", "6 months")).unwrap();
    assert_eq!(task.every, "6 months");
    assert_eq!(task.on, None);
}

#[test]
fn task_from_raw_carries_raw_recurrence_fixed_monthday() {
    let mut raw = raw_task("s", "yearly");
    raw.on = Some(OnSpec::MonthDay("10-15".to_string()));
    let task = Task::from_raw(raw).unwrap();
    assert_eq!(task.every, "yearly");
    assert_eq!(task.on, Some("10-15".to_string()));
}

#[test]
fn task_from_raw_carries_raw_recurrence_fixed_day() {
    let mut raw = raw_task("m", "monthly");
    raw.on = Some(OnSpec::Day(15));
    let task = Task::from_raw(raw).unwrap();
    assert_eq!(task.on, Some("15".to_string()));
}

#[test]
fn vendor_duplicate_keeps_every_field() {
    let v = Vendor::from_raw(RawVendor {
        id: "roto-rooter".to_string(),
        name: "Roto-Rooter".to_string(),
        phone: Some("(555) 123-4567".to_string()),
        email: None,
        notes: Some("24hr emergency line".to_string()),
    });
    assert_eq!(v.duplicate(), v);
}
