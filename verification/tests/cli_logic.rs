use lifemaint::cli::{
    bucket_marker, cents_in_range, history_line, parse_cents, parse_date, status_line,
    vendor_line,
};
use lifemaint::schema::{RawTask, RawVendor};
use lifemaint::{date, Bucket, Completion, Task, TaskStatus, Vendor};

#[test]
fn parse_cents_table() {
    let ok_cases = [
        ("42.00", 4200),
        ("42", 4200),
        ("42.5", 4250),
        ("42.50", 4250),
        ("0", 0),
        ("0.01", 1),
        (" 42.00 ", 4200),
    ];
    for (input, expected) in ok_cases {
        assert_eq!(parse_cents(input), Ok(expected), "input: {input:?}");
    }

    let err_cases = [
        ("-5.00", "negative"),
        ("abc", "bad dollar amount"),
        ("1.234", "1 or 2 digits"),
        ("", "must not be empty"),
        ("1.2.3", "too many decimal points"),
        ("4.2a", "1 or 2 digits"),
    ];
    for (input, expected_substring) in err_cases {
        let err = parse_cents(input).expect_err(&format!("expected Err for {input:?}"));
        assert!(
            err.contains(expected_substring),
            "input {input:?}: expected message to contain {expected_substring:?}, got {err:?}"
        );
    }
}

#[test]
fn parse_cents_rejects_negative_with_message() {
    let err = parse_cents("-5.00").unwrap_err();
    assert!(err.contains("negative"), "msg: {err}");
}

#[test]
fn parse_cents_exact_messages() {
    assert_eq!(parse_cents("   "), Err("cost must not be empty".to_string()));
    assert_eq!(
        parse_cents("1.2.3"),
        Err("invalid cost \"1.2.3\": too many decimal points".to_string())
    );
    assert_eq!(parse_cents(".5"), Ok(50));
    assert_eq!(parse_cents(".50"), Ok(50));
    assert_eq!(parse_cents(" .05 "), Ok(5));
    assert_eq!(
        parse_cents("."),
        Err("invalid cost \".\": cents must be 1 or 2 digits".to_string())
    );
    assert_eq!(
        parse_cents("x.5"),
        Err("invalid cost \"x.5\": bad dollar amount".to_string())
    );
    assert_eq!(
        parse_cents("5."),
        Err("invalid cost \"5.\": cents must be 1 or 2 digits".to_string())
    );
    assert_eq!(parse_cents("+7.05"), Ok(705));
    assert_eq!(parse_cents("\t3.5\n"), Ok(350));
}

#[test]
fn cents_range_check() {
    assert!(cents_in_range("42.00"));
    assert!(cents_in_range("abc"));
    assert!(cents_in_range("92233720368547758.07"));
    assert!(!cents_in_range("92233720368547758.08"));
    assert!(!cents_in_range("9223372036854775807"));
    assert_eq!(parse_cents("92233720368547758.07"), Ok(i64::MAX));
}

#[test]
fn bucket_markers() {
    assert_eq!(bucket_marker(Bucket::Overdue), "!!");
    assert_eq!(bucket_marker(Bucket::Due), "->");
    assert_eq!(bucket_marker(Bucket::Prep), "..");
    assert_eq!(bucket_marker(Bucket::Upcoming), "  ");
}

#[test]
fn output_lines_have_documented_layout() {
    let task = Task::from_raw(RawTask {
        id: "clean-drains".to_string(),
        name: "Clean drains".to_string(),
        every: "yearly".to_string(),
        on: None,
        lead_time: None,
        prep: vec![],
        vendor: None,
        notes: None,
        start: None,
    })
    .unwrap();
    let status = TaskStatus {
        task,
        last_done: None,
        next_due: date(2026, 5, 1),
        prep_due: None,
        bucket: Bucket::Overdue,
    };
    assert_eq!(status_line(&status), "!! clean-drains  overdue  2026-05-01");
    let v = Vendor::from_raw(RawVendor {
        id: "roto-rooter".to_string(),
        name: "Roto-Rooter".to_string(),
        phone: Some("555-1234".to_string()),
        email: None,
        notes: None,
    });
    assert_eq!(vendor_line(&v), "roto-rooter  Roto-Rooter  555-1234");
    let c = Completion {
        id: "groceries".to_string(),
        done: date(2026, 6, 1),
        via: "cli".to_string(),
        by: Some("self".to_string()),
        cost_cents: None,
        note: None,
    };
    assert_eq!(history_line(&c), "2026-06-01  groceries  by self  ");
}

#[test]
fn date_arguments_parse_or_name_the_text() {
    assert_eq!(parse_date("2026-06-06"), Ok(date(2026, 6, 6)));
    assert_eq!(
        parse_date("06/06/2026"),
        Err("invalid date \"06/06/2026\": expected YYYY-MM-DD".to_string())
    );
    assert!(parse_date("2026-02-30").is_err());
}

#[test]
fn date_text_matches_jiff() {
    for d in [date(2026, 6, 6), date(5, 1, 9), date(-44, 3, 15), date(-9999, 1, 1), date(9999, 12, 31)] {
        let j = jiff::civil::date(d.year, d.month, d.day).to_string();
        assert_eq!(lifemaint::date::date_text(d), j);
        assert_eq!(parse_date(&j), Ok(d));
    }
    assert_eq!(lifemaint::date::date_text(date(-44, 3, 15)), "-000044-03-15");
}
