use lifemaint::schedule::{
    parse_interval, parse_lowered_interval, parse_lowered_schedule, parse_schedule,
};
use lifemaint::schema::OnSpec;
use lifemaint::{date, Error, Fixed, Interval, Schedule, SpanUnit};

fn relative(text: &str) -> Schedule {
    Schedule::Relative(parse_interval(text).unwrap())
}

#[test]
fn next_due_table() {
    let cases = [
        ("weekly", date(2026, 1, 1), date(2026, 1, 8)),
        ("monthly", date(2026, 1, 15), date(2026, 2, 15)),
        ("quarterly", date(2026, 1, 15), date(2026, 4, 15)),
        ("yearly", date(2026, 1, 15), date(2027, 1, 15)),
        ("6 months", date(2026, 1, 15), date(2026, 7, 15)),
        ("2 weeks", date(2026, 1, 1), date(2026, 1, 15)),
        ("10 days", date(2026, 1, 1), date(2026, 1, 11)),
        ("3 years", date(2026, 1, 1), date(2029, 1, 1)),
    ];

    for (text, anchor, expected) in cases {
        let got = relative(text).next_due(anchor).unwrap();
        assert_eq!(got, expected, "next_due({text}, {anchor:?})");
    }
}

#[test]
fn monthly_clamps_end_of_month() {
    let got = relative("monthly").next_due(date(2026, 1, 31)).unwrap();
    assert_eq!(got, date(2026, 2, 28));
}

#[test]
fn first_due_is_inclusive() {
    let got = relative("monthly").first_due(date(2026, 3, 1)).unwrap();
    assert_eq!(got, date(2026, 3, 1));
}

#[test]
fn rejects_invalid_intervals() {
    let bad = [
        "",
        "fortnightly",
        "2 fortnights",
        "monthlyy",
        "-1 days",
        "5",
        "0 days",
        "0 months",
    ];
    for input in bad {
        assert!(
            parse_interval(input).is_err(),
            "expected error for {input:?}"
        );
    }
}

#[test]
fn parse_is_case_and_whitespace_insensitive() {
    let anchor = date(2026, 1, 1);

    assert_eq!(
        relative("  Weekly ").next_due(anchor).unwrap(),
        relative("weekly").next_due(anchor).unwrap(),
    );
    assert_eq!(
        relative("3  Months").next_due(anchor).unwrap(),
        relative("3 months").next_due(anchor).unwrap(),
    );
}

#[test]
fn parse_interval_values_and_messages() {
    assert_eq!(
        parse_interval("quarterly").unwrap(),
        Interval { unit: SpanUnit::Months, count: 3 }
    );
    assert_eq!(
        parse_interval("1 day").unwrap(),
        Interval { unit: SpanUnit::Days, count: 1 }
    );
    assert_eq!(
        parse_interval("+4 Weeks").unwrap(),
        Interval { unit: SpanUnit::Weeks, count: 4 }
    );
    let msg = |text: &str| match parse_interval(text) {
        Err(Error::Schedule(m)) => m,
        other => panic!("expected a schedule error, got {other:?}"),
    };
    assert_eq!(msg("fortnightly"), "unrecognized interval: \"fortnightly\"");
    assert_eq!(msg("x days"), "invalid interval count: \"x\"");
    assert_eq!(msg("0 days"), "interval count must be >= 1, got 0");
    assert_eq!(msg("-1 days"), "interval count must be >= 1, got -1");
    assert_eq!(msg("2 fortnights"), "unknown interval unit: \"fortnights\"");
    assert!(parse_interval("7304485 days").is_err());
    assert!(parse_interval("7304484 days").is_ok());
    assert!(parse_interval("19999 years").is_err());
    assert!(parse_interval("99999999999999999999 days").is_err());
}

#[test]
fn fixed_yearly_next_and_first_due() {
    let sched = Schedule::Fixed(Fixed::Yearly { month: 10, day: 15 });
    assert_eq!(sched.next_due(date(2026, 6, 1)).unwrap(), date(2026, 10, 15));
    assert_eq!(sched.next_due(date(2026, 10, 15)).unwrap(), date(2027, 10, 15));
    assert_eq!(sched.next_due(date(2026, 11, 1)).unwrap(), date(2027, 10, 15));
    assert_eq!(sched.first_due(date(2026, 10, 15)).unwrap(), date(2026, 10, 15));
    assert_eq!(sched.first_due(date(2026, 10, 16)).unwrap(), date(2027, 10, 15));
}

#[test]
fn fixed_yearly_clamps_feb_29() {
    let sched = Schedule::Fixed(Fixed::Yearly { month: 2, day: 29 });
    assert_eq!(sched.next_due(date(2025, 1, 1)).unwrap(), date(2025, 2, 28));
    assert_eq!(sched.next_due(date(2027, 3, 1)).unwrap(), date(2028, 2, 29));
}

#[test]
fn fixed_monthly_next_due_and_clamp() {
    let sched = Schedule::Fixed(Fixed::Monthly { day: 31 });
    assert_eq!(sched.next_due(date(2026, 1, 15)).unwrap(), date(2026, 1, 31));
    assert_eq!(sched.next_due(date(2026, 1, 31)).unwrap(), date(2026, 2, 28));
    assert_eq!(sched.next_due(date(2026, 2, 28)).unwrap(), date(2026, 3, 31));
    assert_eq!(sched.next_due(date(2026, 12, 31)).unwrap(), date(2027, 1, 31));
}

#[test]
fn fixed_schedule_past_the_last_year_is_an_error() {
    let sched = Schedule::Fixed(Fixed::Yearly { month: 1, day: 1 });
    assert!(sched.next_due(date(9999, 6, 1)).is_err());
    assert!(relative("yearly").next_due(date(9999, 6, 1)).is_err());
}

#[test]
fn parse_schedule_forms() {
    assert_eq!(
        parse_schedule("yearly", Some(&OnSpec::MonthDay("10-15".to_string()))).unwrap(),
        Schedule::Fixed(Fixed::Yearly { month: 10, day: 15 })
    );
    assert_eq!(
        parse_schedule(" Yearly", Some(&OnSpec::MonthDay("2-9".to_string()))).unwrap(),
        Schedule::Fixed(Fixed::Yearly { month: 2, day: 9 })
    );
    assert_eq!(
        parse_schedule("monthly", Some(&OnSpec::Day(1))).unwrap(),
        Schedule::Fixed(Fixed::Monthly { day: 1 })
    );
    assert_eq!(
        parse_schedule("6 months", None).unwrap(),
        Schedule::Relative(Interval { unit: SpanUnit::Months, count: 6 })
    );
    let bad: [(&str, OnSpec); 6] = [
        ("weekly", OnSpec::MonthDay("10-15".to_string())),
        ("yearly", OnSpec::MonthDay("13-01".to_string())),
        ("yearly", OnSpec::MonthDay("10-40".to_string())),
        ("yearly", OnSpec::Day(3)),
        ("monthly", OnSpec::Day(0)),
        ("monthly", OnSpec::Day(32)),
    ];
    for (every, on) in bad {
        assert!(parse_schedule(every, Some(&on)).is_err(), "{every} {on:?}");
    }
    match parse_schedule("monthly", Some(&OnSpec::MonthDay("1".to_string()))) {
        Err(Error::Schedule(m)) => assert_eq!(m, "monthly `on` must be a day integer, got \"1\""),
        other => panic!("unexpected {other:?}"),
    }
    match parse_schedule("yearly", Some(&OnSpec::MonthDay("1015".to_string()))) {
        Err(Error::Schedule(m)) => assert_eq!(m, "yearly `on` must be 'MM-DD', got \"1015\""),
        other => panic!("unexpected {other:?}"),
    }
}

#[test]
fn inner_whitespace_does_not_matter() {
    assert_eq!(parse_interval("3  Months").unwrap(), parse_interval("3 months").unwrap());
    assert_eq!(parse_interval("  Weekly ").unwrap(), parse_interval("weekly").unwrap());
    let on = OnSpec::MonthDay("10-15".to_string());
    assert_eq!(
        parse_schedule(" YEARLY ", Some(&on)).unwrap(),
        parse_schedule("yearly", Some(&on)).unwrap()
    );
}

#[test]
fn lowered_parsers_read_the_normalised_text() {
    assert_eq!(
        parse_lowered_interval("6 Months", "6 months").unwrap(),
        Interval { unit: SpanUnit::Months, count: 6 }
    );
    match parse_lowered_interval("Soon", "soon") {
        Err(Error::Schedule(m)) => assert_eq!(m, "unrecognized interval: \"Soon\""),
        other => panic!("unexpected {other:?}"),
    }
    assert_eq!(
        parse_lowered_schedule("Monthly", "monthly", Some(&OnSpec::Day(31))).unwrap(),
        Schedule::Fixed(Fixed::Monthly { day: 31 })
    );
}
