use lifemaint::Error;

#[test]
fn schedule_display() {
    assert_eq!(
        Error::Schedule("bad".to_string()).message(),
        "cannot parse schedule: bad"
    );
}

#[test]
fn unknown_vendor_display_names_both_ids() {
    let e = Error::UnknownVendor {
        task_id: "clean-drains".to_string(),
        vendor_id: "roto".to_string(),
    };
    let s = e.message();
    assert!(s.contains("clean-drains"));
    assert!(s.contains("roto"));
}

#[test]
fn io_wraps_source() {
    let e = Error::Io {
        path: "tasks.yaml".to_string(),
        source: std::io::Error::new(std::io::ErrorKind::NotFound, "nope"),
    };
    assert!(e.message().contains("tasks.yaml"));
    assert!(e.source().is_some());
}

#[test]
fn error_messages_exact() {
    let e = Error::UnknownVendor {
        task_id: "clean-drains".to_string(),
        vendor_id: "roto".to_string(),
    };
    assert_eq!(e.message(), "task clean-drains references unknown vendor roto");
    assert_eq!(Error::DataFile("x: y".to_string()).message(), "x: y");
    let io = Error::Io {
        path: "tasks.yaml".to_string(),
        source: std::io::Error::new(std::io::ErrorKind::NotFound, "nope"),
    };
    assert_eq!(io.message(), "io error at tasks.yaml: nope");
    assert!(Error::DataFile("x".to_string()).source().is_none());
}
