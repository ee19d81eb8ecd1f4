use std::path::PathBuf;

use lifemaint::schema::{RawTask, RawVendor};
use lifemaint::store::{
    check_vendor_refs, classify_event_line, commit_files, completions_of, event_lines, task_id_list,
    tasks_from_raw, vendor_id_list, vendors_from_raw, DataDir, EventKind,
};
use lifemaint::{date, Completion, Error, Event, Punt};

fn bare_task(id: &str, every: &str, vendor: Option<&str>) -> RawTask {
    RawTask {
        id: id.to_string(),
        name: id.to_string(),
        every: every.to_string(),
        on: None,
        lead_time: None,
        prep: vec![],
        vendor: vendor.map(str::to_string),
        notes: None,
        start: None,
    }
}

#[test]
fn data_dir_paths() {
    let d = DataDir::new("/data".to_string());
    assert_eq!(PathBuf::from(d.tasks_path()), PathBuf::from("/data/tasks.yaml"));
    assert_eq!(PathBuf::from(d.vendors_path()), PathBuf::from("/data/vendors.yaml"));
    assert_eq!(
        PathBuf::from(d.events_path()),
        PathBuf::from("/data/completions.jsonl")
    );
}

#[test]
fn event_lines_skip_blanks_and_keep_numbers() {
    let text = "{\"a\":1}\n\n   \r\n{\"b\":2}\r\n{\"c\":3}";
    let lines = event_lines(text);
    let got: Vec<(usize, &str)> = lines.iter().map(|l| (l.number, l.text.as_str())).collect();
    assert_eq!(got, [(1, "{\"a\":1}"), (4, "{\"b\":2}"), (5, "{\"c\":3}")]);
    assert!(event_lines("").is_empty());
    assert_eq!(event_lines("x\n").len(), 1);
}

#[test]
fn classify_lines() {
    assert_eq!(
        classify_event_line("{\"id\":\"g\",\"done\":\"2026-06-01\"}", 1).unwrap(),
        EventKind::Completion
    );
    assert_eq!(
        classify_event_line("{\"id\":\"g\",\"punt_to\":\"2026-06-01\"}", 1).unwrap(),
        EventKind::Punt
    );
    match classify_event_line("NOT JSON", 2) {
        Err(Error::DataFile(msg)) => assert!(msg.starts_with("completions.jsonl: line 2: "), "{msg}"),
        other => panic!("unexpected {other:?}"),
    }
    match classify_event_line("[]", 1) {
        Err(Error::DataFile(msg)) => {
            assert_eq!(msg, "completions.jsonl: line 1: expected a JSON object")
        }
        other => panic!("unexpected {other:?}"),
    }
    match classify_event_line("{\"id\":\"x\"}", 3) {
        Err(Error::DataFile(msg)) => assert_eq!(
            msg,
            "completions.jsonl: line 3: unrecognized event (needs 'done' or 'punt_to')"
        ),
        other => panic!("unexpected {other:?}"),
    }
}

#[test]
fn raw_conversion_and_vendor_refs() {
    let tasks = tasks_from_raw(vec![
        bare_task("clean-drains", "yearly", Some("ghost")),
        bare_task("groceries", "weekly", None),
    ])
    .unwrap();
    assert_eq!(tasks.len(), 2);
    let vendors = vendors_from_raw(vec![RawVendor {
        id: "roto-rooter".to_string(),
        name: "Roto-Rooter".to_string(),
        phone: Some("555-1234".to_string()),
        email: None,
        notes: None,
    }]);
    match check_vendor_refs(&tasks, &vendors) {
        Err(Error::UnknownVendor { task_id, vendor_id }) => {
            assert_eq!(task_id, "clean-drains");
            assert_eq!(vendor_id, "ghost");
        }
        other => panic!("expected UnknownVendor, got {other:?}"),
    }
    match tasks_from_raw(vec![bare_task("x", "fortnightly", None)]) {
        Err(Error::DataFile(msg)) => assert!(msg.contains("tasks.yaml"), "msg: {msg}"),
        other => panic!("expected DataFile, got {other:?}"),
    }
}

#[test]
fn completions_exclude_punts() {
    let events = vec![
        Event::Completion(Completion {
            id: "groceries".to_string(),
            done: date(2026, 6, 1),
            via: "manual".to_string(),
            by: None,
            cost_cents: None,
            note: None,
        }),
        Event::Punt(Punt {
            id: "clean-drains".to_string(),
            punt_to: date(2026, 7, 1),
            via: "cli".to_string(),
        }),
    ];
    let cs = completions_of(&events);
    assert_eq!(cs.len(), 1);
    assert_eq!(cs[0].id, "groceries");
}

#[test]
fn id_lists_keep_file_order() {
    let tasks = tasks_from_raw(vec![
        bare_task("groceries", "weekly", None),
        bare_task("clean-drains", "yearly", None),
        bare_task("blow-out-sprinklers", "yearly", None),
    ])
    .unwrap();
    assert_eq!(
        task_id_list(&tasks),
        vec!["groceries", "clean-drains", "blow-out-sprinklers"]
    );
    let vendors = vendors_from_raw(vec![
        RawVendor {
            id: "roto-rooter".to_string(),
            name: "Roto-Rooter".to_string(),
            phone: None,
            email: None,
            notes: None,
        },
        RawVendor {
            id: "green-lawn".to_string(),
            name: "Green Lawn".to_string(),
            phone: None,
            email: None,
            notes: None,
        },
    ]);
    assert_eq!(vendor_id_list(&vendors), vec!["roto-rooter", "green-lawn"]);
    assert!(task_id_list(&vec![]).is_empty());
}

#[test]
fn commit_files_keeps_existing_in_order() {
    assert_eq!(
        commit_files(true, false, true),
        vec!["tasks.yaml", "completions.jsonl"]
    );
    assert_eq!(
        commit_files(true, true, true),
        vec!["tasks.yaml", "vendors.yaml", "completions.jsonl"]
    );
    assert!(commit_files(false, false, false).is_empty());
}
