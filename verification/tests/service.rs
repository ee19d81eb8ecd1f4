use lifemaint::schema::{OnSpec, RawTask, RawVendor};
use lifemaint::{
    date, Bucket, Completion, DataDir, Date, Event, Punt, Report, ReportKind, Service, Task,
    TaskStatus, Vendor,
};

struct Sample {
    svc: Service,
    tasks: Vec<Task>,
    vendors: Vec<Vendor>,
    events: Vec<Event>,
}

fn sample_task(id: &str, name: &str, every: &str, on: Option<&str>, vendor: Option<&str>) -> Task {
    Task::from_raw(RawTask {
        id: id.to_string(),
        name: name.to_string(),
        every: every.to_string(),
        on: on.map(|s| OnSpec::MonthDay(s.to_string())),
        lead_time: None,
        prep: vec![],
        vendor: vendor.map(str::to_string),
        notes: None,
        start: None,
    })
    .unwrap()
}

fn sample_completion(id: &str, done: Date, cost_cents: Option<i64>) -> Event {
    Event::Completion(Completion {
        id: id.to_string(),
        done,
        via: "manual".to_string(),
        by: None,
        cost_cents,
        note: None,
    })
}

/// The standard sample data set: three tasks, one vendor, two completions.
fn service() -> Sample {
    let tasks = vec![
        sample_task("groceries", "Groceries", "weekly", None, None),
        sample_task("clean-drains", "Clean drains", "yearly", None, Some("roto-rooter")),
        sample_task("blow-out-sprinklers", "Blow out sprinklers", "yearly", Some("10-15"), None),
    ];
    let vendors = vec![Vendor::from_raw(RawVendor {
        id: "roto-rooter".to_string(),
        name: "Roto-Rooter".to_string(),
        phone: None,
        email: None,
        notes: None,
    })];
    let events = vec![
        sample_completion("groceries", date(2026, 6, 1), None),
        sample_completion("clean-drains", date(2025, 5, 1), Some(28500)),
    ];
    let svc = Service::new(DataDir::new("data".to_string()));
    Sample { svc, tasks, vendors, events }
}

const TODAY: Date = Date { year: 2026, month: 6, day: 6 };

fn ids(statuses: &[TaskStatus]) -> Vec<&str> {
    statuses.iter().map(|s| s.task.id.as_str()).collect()
}

#[test]
fn list_tasks_returns_all_three_ids() {
    let s = service();
    let statuses = s.svc.list_tasks(&s.tasks, &s.vendors, &s.events, TODAY, None, None).unwrap();
    assert_eq!(
        ids(&statuses),
        ["groceries", "clean-drains", "blow-out-sprinklers"]
    );
}

#[test]
fn list_tasks_query_matches_name() {
    let s = service();
    let statuses = s.svc.list_tasks(&s.tasks, &s.vendors, &s.events, TODAY, Some("drain"), None).unwrap();
    assert_eq!(ids(&statuses), ["clean-drains"]);
}

#[test]
fn list_tasks_query_matches_vendor_id() {
    let s = service();
    let statuses = s.svc.list_tasks(&s.tasks, &s.vendors, &s.events, TODAY, Some("roto"), None).unwrap();
    assert_eq!(ids(&statuses), ["clean-drains"]);
}

#[test]
fn list_tasks_only_overdue_filters_to_clean_drains() {
    let s = service();
    let statuses = s
        .svc
        .list_tasks(&s.tasks, &s.vendors, &s.events, TODAY, None, Some(&[Bucket::Overdue]))
        .unwrap();
    assert_eq!(ids(&statuses), ["clean-drains"]);
}

#[test]
fn due_includes_overdue_excludes_ok() {
    let s = service();
    let statuses = s.svc.due(&s.tasks, &s.vendors, &s.events, TODAY).unwrap();
    let got = ids(&statuses);
    assert!(got.contains(&"clean-drains"), "got: {got:?}");
    assert!(!got.contains(&"groceries"), "got: {got:?}");
}

#[test]
fn history_all_returns_two() {
    let s = service();
    let rows = s.svc.history(&s.events, None, None);
    assert_eq!(rows.len(), 2);
}

#[test]
fn history_by_task_id_filters_and_carries_cost() {
    let s = service();
    let rows = s.svc.history(&s.events, Some("clean-drains"), None);
    assert_eq!(rows.len(), 1);
    assert_eq!(rows[0].id, "clean-drains");
    assert_eq!(rows[0].cost_cents, Some(28500));
}

#[test]
fn history_since_keeps_only_recent() {
    let s = service();
    let rows = s.svc.history(&s.events, None, Some(date(2026, 1, 1)));
    let got: Vec<&str> = rows.iter().map(|c| c.id.as_str()).collect();
    assert_eq!(got, ["groceries"]);
}

#[test]
fn vendors_returns_directory() {
    let s = service();
    let vendors = s.svc.vendors(&s.tasks, s.vendors.clone()).unwrap();
    let got: Vec<&str> = vendors.iter().map(|v| v.id.as_str()).collect();
    assert_eq!(got, ["roto-rooter"]);
}

#[test]
fn export_carries_schema_version() {
    let s = service();
    let payload = s.svc.export(&s.tasks, &s.vendors, &s.events, TODAY).unwrap();
    assert_eq!(payload.schema_version, 1);
    assert_eq!(payload.generated_for, date(2026, 6, 6));
}

#[test]
fn export_clean_drains_row_is_denormalized() {
    let s = service();
    let payload = s.svc.export(&s.tasks, &s.vendors, &s.events, TODAY).unwrap();
    let row = payload
        .tasks
        .iter()
        .find(|t| t.id == "clean-drains")
        .expect("clean-drains row");
    assert_eq!(row.bucket.name(), "overdue");
    assert_eq!(row.vendor.as_ref().unwrap().name, "Roto-Rooter");
    assert_eq!(row.next_due, date(2026, 5, 1));
    assert_eq!(row.completions.len(), 1);
    assert_eq!(row.completions[0].cost_cents, Some(28500));
}

#[test]
fn export_task_without_vendor_has_null_vendor() {
    let s = service();
    let payload = s.svc.export(&s.tasks, &s.vendors, &s.events, TODAY).unwrap();
    let row = payload
        .tasks
        .iter()
        .find(|t| t.id == "groceries")
        .expect("groceries row");
    assert!(row.vendor.is_none());
}

#[test]
fn export_lists_completions_not_punts() {
    let mut s = service();
    s.events.push(Event::Punt(Punt {
        id: "groceries".to_string(),
        punt_to: date(2026, 9, 1),
        via: "cli".to_string(),
    }));
    let payload = s.svc.export(&s.tasks, &s.vendors, &s.events, TODAY).unwrap();
    let row = payload.tasks.iter().find(|t| t.id == "groceries").unwrap();
    assert_eq!(row.completions.len(), 1);
    assert_eq!(row.next_due, date(2026, 9, 1));
}

#[test]
fn complete_and_punt_validate_the_task_id() {
    let s = service();
    let c = s
        .svc
        .complete(&s.tasks, &s.vendors, "groceries", TODAY, "cli", "self", Some(4200), None)
        .unwrap();
    assert_eq!(c.id, "groceries");
    assert_eq!(c.by, Some("self".to_string()));
    assert_eq!(c.cost_cents, Some(4200));
    let err = s
        .svc
        .complete(&s.tasks, &s.vendors, "nope", TODAY, "cli", "self", None, None)
        .unwrap_err();
    assert_eq!(err.message(), "unknown task id nope");
    let p = s.svc.punt(&s.tasks, &s.vendors, "clean-drains", date(2026, 9, 1), "cli").unwrap();
    assert_eq!(p.punt_to, date(2026, 9, 1));
    assert!(s.svc.punt(&s.tasks, &s.vendors, "nope", date(2026, 9, 1), "cli").is_err());
}

#[test]
fn punt_then_list_defers_and_marks_ok() {
    let mut s = service();
    let p = s.svc.punt(&s.tasks, &s.vendors, "clean-drains", date(2026, 9, 1), "cli").unwrap();
    s.events.push(Event::Punt(p));
    let statuses = s
        .svc
        .list_tasks(&s.tasks, &s.vendors, &s.events, TODAY, Some("clean-drains"), None)
        .unwrap();
    assert_eq!(statuses.len(), 1);
    assert_eq!(statuses[0].next_due, date(2026, 9, 1));
    assert_eq!(statuses[0].bucket.name(), "ok");
}

#[test]
fn reports_sum_costs_and_count_buckets() {
    let mut s = service();
    s.events.push(sample_completion("clean-drains", date(2026, 2, 1), Some(1500)));
    match s.svc.report(&s.tasks, &s.vendors, &s.events, ReportKind::SpendByTask, TODAY).unwrap() {
        Report::SpendByTask(v) => assert_eq!(v, vec![("clean-drains".to_string(), 30000)]),
        other => panic!("unexpected {other:?}"),
    }
    match s.svc.report(&s.tasks, &s.vendors, &s.events, ReportKind::PerYear, TODAY).unwrap() {
        Report::PerYear(mut v) => {
            v.sort();
            assert_eq!(v, vec![(2025, 28500), (2026, 1500)]);
        }
        other => panic!("unexpected {other:?}"),
    }
    let base = service();
    match base
        .svc
        .report(&base.tasks, &base.vendors, &base.events, ReportKind::OverdueCount, TODAY)
        .unwrap()
    {
        Report::OverdueCount { overdue, due, prep } => {
            assert_eq!((overdue, due, prep), (1, 0, 0));
        }
        other => panic!("unexpected {other:?}"),
    }
}

#[test]
fn unknown_vendor_reference_is_rejected() {
    let mut s = service();
    s.vendors.clear();
    match s.svc.list_tasks(&s.tasks, &s.vendors, &s.events, TODAY, None, None) {
        Err(lifemaint::Error::UnknownVendor { task_id, vendor_id }) => {
            assert_eq!(task_id, "clean-drains");
            assert_eq!(vendor_id, "roto-rooter");
        }
        other => panic!("expected UnknownVendor, got {other:?}"),
    }
    match s.svc.vendors(&s.tasks, vec![]) {
        Err(lifemaint::Error::UnknownVendor { task_id, vendor_id }) => {
            assert_eq!((task_id.as_str(), vendor_id.as_str()), ("clean-drains", "roto-rooter"));
        }
        other => panic!("expected UnknownVendor, got {other:?}"),
    }
}

#[test]
fn show_returns_detail_with_resolved_vendor() {
    let s = service();
    let detail = s.svc.show(&s.tasks, &s.vendors, &s.events, TODAY, "clean-drains").unwrap();
    assert_eq!(detail.status.task.id, "clean-drains");
    assert_eq!(detail.status.bucket, Bucket::Overdue);
    let vendor = detail.vendor.expect("vendor resolved");
    assert_eq!(vendor.id, "roto-rooter");
    assert_eq!(vendor.name, "Roto-Rooter");
}

#[test]
fn show_task_without_vendor_has_none() {
    let s = service();
    let detail = s.svc.show(&s.tasks, &s.vendors, &s.events, TODAY, "groceries").unwrap();
    assert!(detail.vendor.is_none());
    assert_eq!(detail.status.task.every, "weekly");
    assert_eq!(detail.status.task.on, None);
}

#[test]
fn show_fixed_task_carries_on_anchor() {
    let s = service();
    let detail = s.svc.show(&s.tasks, &s.vendors, &s.events, TODAY, "blow-out-sprinklers").unwrap();
    assert_eq!(detail.status.task.on, Some("10-15".to_string()));
}

#[test]
fn show_unknown_id_is_data_file_error() {
    let s = service();
    match s.svc.show(&s.tasks, &s.vendors, &s.events, TODAY, "nope") {
        Err(lifemaint::Error::DataFile(msg)) => assert_eq!(msg, "unknown task id nope"),
        other => panic!("expected DataFile, got {other:?}"),
    }
}

#[test]
fn show_status_matches_list() {
    let s = service();
    let listed = s.svc.list_tasks(&s.tasks, &s.vendors, &s.events, TODAY, None, None).unwrap();
    for st in &listed {
        let detail = s.svc.show(&s.tasks, &s.vendors, &s.events, TODAY, &st.task.id).unwrap();
        assert_eq!(detail.status.bucket, st.bucket);
        assert_eq!(detail.status.next_due, st.next_due);
        assert_eq!(detail.status.last_done, st.last_done);
        assert_eq!(detail.status.prep_due, st.prep_due);
    }
}

#[test]
fn complete_then_list_resets_next_due() {
    let mut s = service();
    let c = s
        .svc
        .complete(&s.tasks, &s.vendors, "clean-drains", TODAY, "cli", "self", None, None)
        .unwrap();
    s.events.push(Event::Completion(c));
    let statuses = s
        .svc
        .list_tasks(&s.tasks, &s.vendors, &s.events, TODAY, Some("clean-drains"), None)
        .unwrap();
    assert_eq!(statuses.len(), 1);
    assert_eq!(statuses[0].last_done, Some(TODAY));
    assert_eq!(statuses[0].next_due, date(2027, 6, 6));
    assert_eq!(statuses[0].bucket, Bucket::Upcoming);
}

#[test]
fn complete_after_punt_reverts_to_schedule() {
    let mut s = service();
    let p = s.svc.punt(&s.tasks, &s.vendors, "clean-drains", date(2026, 9, 1), "cli").unwrap();
    s.events.push(Event::Punt(p));
    let c = s
        .svc
        .complete(&s.tasks, &s.vendors, "clean-drains", TODAY, "cli", "self", None, None)
        .unwrap();
    s.events.push(Event::Completion(c));
    let statuses = s
        .svc
        .list_tasks(&s.tasks, &s.vendors, &s.events, TODAY, Some("clean-drains"), None)
        .unwrap();
    assert_eq!(statuses[0].next_due, date(2027, 6, 6));
}

#[test]
fn overdue_count_and_ok_partition_the_tasks() {
    let s = service();
    let all = s.svc.list_tasks(&s.tasks, &s.vendors, &s.events, TODAY, None, None).unwrap();
    let ok = all.iter().filter(|st| st.bucket == Bucket::Upcoming).count();
    match s
        .svc
        .report(&s.tasks, &s.vendors, &s.events, ReportKind::OverdueCount, TODAY)
        .unwrap()
    {
        Report::OverdueCount { overdue, due, prep } => {
            assert_eq!(overdue + due + prep + ok, s.tasks.len());
        }
        other => panic!("unexpected {other:?}"),
    }
}

#[test]
fn due_keeps_every_urgent_status_and_nothing_else() {
    let s = service();
    let today = date(2026, 10, 5);
    let all = s.svc.list_tasks(&s.tasks, &s.vendors, &s.events, today, None, None).unwrap();
    let due = s.svc.due(&s.tasks, &s.vendors, &s.events, today).unwrap();
    let urgent: Vec<&str> = all
        .iter()
        .filter(|st| st.bucket != Bucket::Upcoming)
        .map(|st| st.task.id.as_str())
        .collect();
    assert_eq!(ids(&due), urgent);
    assert!(due.iter().all(|st| st.bucket != Bucket::Upcoming));
}

#[test]
fn list_query_is_case_insensitive() {
    let s = service();
    let statuses = s
        .svc
        .list_tasks(&s.tasks, &s.vendors, &s.events, TODAY, Some("DRAINS"), None)
        .unwrap();
    assert_eq!(ids(&statuses), vec!["clean-drains"]);
}
