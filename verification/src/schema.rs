//! Boundary types for the data files, as read from `tasks.yaml`,
//! `vendors.yaml` and `completions.jsonl` (the reading itself is done by the
//! application, which deserializes into copies of these types).

use vstd::prelude::*;

use crate::date::Date;

verus! {

/// The `on:` field of a task: a day-of-month int (monthly) or "MM-DD" (yearly).
#[derive(Debug, Clone, PartialEq, Eq)]
pub enum OnSpec {
    /// Day of month, 1..=31 (monthly fixed schedule).
    Day(i8),
    /// "MM-DD" (yearly fixed schedule).
    MonthDay(String),
}

/// The `on:` field as plain values.
pub enum OnSpecView {
    Day(i8),
    MonthDay(Seq<char>),
}

impl View for OnSpec {
    type V = OnSpecView;

    open spec fn view(&self) -> OnSpecView {
        match self {
            OnSpec::Day(n) => OnSpecView::Day(*n),
            OnSpec::MonthDay(s) => OnSpecView::MonthDay(s@),
        }
    }
}

/// A task entry of `tasks.yaml`, field for field.
#[derive(Debug, Clone)]
pub struct RawTask {
    pub id: String,
    pub name: String,
    pub every: String,
    pub on: Option<OnSpec>,
    pub lead_time: Option<String>,
    pub prep: Vec<String>,
    pub vendor: Option<String>,
    pub notes: Option<String>,
    pub start: Option<Date>,
}

/// A vendor entry of `vendors.yaml`, field for field.
#[derive(Debug, Clone)]
pub struct RawVendor {
    pub id: String,
    pub name: String,
    pub phone: Option<String>,
    pub email: Option<String>,
    pub notes: Option<String>,
}

/// A completion line of `completions.jsonl` (it carries a `done` key).
#[derive(Debug, Clone)]
pub struct RawCompletion {
    pub id: String,
    pub done: Date,
    pub via: String,
    pub by: Option<String>,
    pub cost_cents: Option<i64>,
    pub note: Option<String>,
}

/// A punt line of `completions.jsonl` (it carries a `punt_to` key).
#[derive(Debug, Clone)]
pub struct RawPunt {
    pub id: String,
    pub punt_to: Date,
    pub via: String,
}

} // verus!
