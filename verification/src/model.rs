//! Domain types, converted from the boundary types of the data files.

use vstd::prelude::*;

use crate::date::Date;
use crate::error::Error;
use crate::schedule::{
    interval_error, interval_of, parse_interval, parse_schedule, schedule_error, schedule_of,
    Interval, Schedule,
};
use crate::text::{decimal_text, int_to_string};
use crate::schema::{OnSpec, OnSpecView, RawCompletion, RawPunt, RawTask, RawVendor};

verus! {

/// A service vendor/contact referenced by tasks.
#[derive(Debug, Clone, PartialEq, Eq)]
pub struct Vendor {
    pub id: String,
    pub name: String,
    pub phone: Option<String>,
    pub email: Option<String>,
    pub notes: Option<String>,
}

impl Vendor {
    /// Build a `Vendor` from its raw boundary form.
    pub fn from_raw(raw: RawVendor) -> (res: Self)
        ensures
            res.id == raw.id,
            res.name == raw.name,
            res.phone == raw.phone,
            res.email == raw.email,
            res.notes == raw.notes,
    {
        Vendor { id: raw.id, name: raw.name, phone: raw.phone, email: raw.email, notes: raw.notes }
    }

    /// A vendor equal to this one, field by field.
    pub fn duplicate(&self) -> (res: Vendor)
        ensures
            res == *self,
    {
        Vendor {
            id: self.id.clone(),
            name: self.name.clone(),
            phone: copy_opt(&self.phone),
            email: copy_opt(&self.email),
            notes: copy_opt(&self.notes),
        }
    }
}

/// A maintenance task definition.
#[derive(Debug, Clone)]
pub struct Task {
    pub id: String,
    pub name: String,
    /// The `every:` cadence as written, for display.
    pub every: String,
    /// The `on:` anchor in its display form (`"15"` or `"10-15"`).
    pub on: Option<String>,
    pub schedule: Schedule,
    pub lead_time: Option<Interval>,
    pub prep: Vec<String>,
    pub vendor: Option<String>,
    pub notes: Option<String>,
    pub start: Option<Date>,
}

/// A task as plain values.
pub struct TaskView {
    pub id: Seq<char>,
    pub name: Seq<char>,
    pub every: Seq<char>,
    pub on: Option<Seq<char>>,
    pub schedule: Schedule,
    pub lead_time: Option<Interval>,
    pub prep: Seq<Seq<char>>,
    pub vendor: Option<Seq<char>>,
    pub notes: Option<Seq<char>>,
    pub start: Option<Date>,
}

impl View for Task {
    type V = TaskView;

    open spec fn view(&self) -> TaskView {
        TaskView {
            id: self.id@,
            name: self.name@,
            every: self.every@,
            on: self.on.deep_view(),
            schedule: self.schedule,
            lead_time: self.lead_time,
            prep: self.prep.deep_view(),
            vendor: self.vendor.deep_view(),
            notes: self.notes.deep_view(),
            start: self.start,
        }
    }
}

/// The view of an optional `on:` field held by value.
pub open spec fn on_view_owned(on: Option<OnSpec>) -> Option<OnSpecView> {
    match on {
        Some(o) => Some(o@),
        None => None,
    }
}

/// The display form of an `on:` anchor: the day's decimal text, or the
/// "MM-DD" text as written.
pub open spec fn on_text(on: OnSpecView) -> Seq<char> {
    match on {
        OnSpecView::Day(d) => decimal_text(d as int),
        OnSpecView::MonthDay(s) => s,
    }
}

/// The display form of an optional `on:` anchor.
pub open spec fn on_text_opt(on: Option<OnSpec>) -> Option<Seq<char>> {
    match on {
        Some(o) => Some(on_text(o@)),
        None => None,
    }
}

/// Render an `on:` anchor to its display form.
pub fn on_to_string(on: &OnSpec) -> (res: String)
    ensures
        res@ == on_text(on@),
{
    match on {
        OnSpec::Day(d) => int_to_string(*d as i64),
        OnSpec::MonthDay(s) => s.clone(),
    }
}

/// The lead time that a raw task's `lead_time` text parses to, if any.
pub open spec fn raw_lead_time(raw: RawTask) -> Option<Interval> {
    match raw.lead_time {
        Some(s) => interval_of(s@),
        None => None,
    }
}

/// The raw task's `lead_time`, when present, is a valid interval.
pub open spec fn raw_lead_time_ok(raw: RawTask) -> bool {
    match raw.lead_time {
        Some(s) => interval_of(s@) is Some,
        None => true,
    }
}

/// An optional string equal to the given one.
fn copy_opt(o: &Option<String>) -> (res: Option<String>)
    ensures
        res == *o,
{
    match o {
        Some(s) => Some(s.clone()),
        None => None,
    }
}

/// A list of strings equal to the given one.
fn copy_strings(v: &Vec<String>) -> (res: Vec<String>)
    ensures
        res.deep_view() == v.deep_view(),
{
    let mut out: Vec<String> = Vec::new();
    let mut i: usize = 0;
    while i < v.len()
        invariant
            i <= v@.len(),
            out@.len() == i,
            forall|k: int| 0 <= k < i ==> out@[k] == v@[k],
        decreases v@.len() - i,
    {
        out.push(v[i].clone());
        i = i + 1;
    }
    assert(out.deep_view() =~= v.deep_view());
    out
}

/// The raw task converts: its lead time (if any) and its schedule parse.
pub open spec fn raw_task_ok(raw: RawTask) -> bool {
    raw_lead_time_ok(raw) && schedule_of(raw.every@, on_view_owned(raw.on)) is Some
}

/// `t` is the task that `raw` converts to.
pub open spec fn task_converted(raw: RawTask, t: Task) -> bool {
    &&& t.id == raw.id
    &&& t.name == raw.name
    &&& t.every == raw.every
    &&& t.on.deep_view() == on_text_opt(raw.on)
    &&& schedule_of(raw.every@, on_view_owned(raw.on)) == Some(t.schedule)
    &&& t.lead_time == raw_lead_time(raw)
    &&& t.prep == raw.prep
    &&& t.vendor == raw.vendor
    &&& t.notes == raw.notes
    &&& t.start == raw.start
}

/// `e` is the error that converting `raw` fails with: the lead time's parse
/// error when the lead time is invalid, else the schedule's parse error.
pub open spec fn raw_task_error(raw: RawTask, e: Error) -> bool {
    if !raw_lead_time_ok(raw) {
        interval_error(raw.lead_time->0@, e)
    } else {
        schedule_error(raw.every@, on_view_owned(raw.on), e)
    }
}

impl Task {
    /// The task's schedule and lead time are valid, and its start date is a
    /// real date.
    pub open spec fn wf(self) -> bool {
        &&& self.schedule.wf()
        &&& (self.lead_time matches Some(i) ==> i.fits() && i.count >= 1)
        &&& (self.start matches Some(d) ==> d.wf())
    }

    /// Build a `Task` from its raw form, parsing the schedule and lead time.
    ///
    /// The lead time is parsed first; its error, if any, is returned. Then the
    /// schedule is parsed from `every` and `on`.
    pub fn from_raw(raw: RawTask) -> (res: Result<Self, Error>)
        ensures
            res is Ok <==> raw_task_ok(raw),
            res matches Ok(t) ==> task_converted(raw, t),
            res matches Err(e) ==> raw_task_error(raw, e),
            res matches Ok(t) ==> ((raw.start matches Some(d) ==> d.wf()) ==> t.wf()),
    {
        let lead_time: Option<Interval> = match &raw.lead_time {
            Some(s) => match parse_interval(s.as_str()) {
                Ok(i) => Some(i),
                Err(e) => {
                    return Err(e);
                },
            },
            None => None,
        };
        let on: Option<&OnSpec> = match &raw.on {
            Some(o) => Some(o),
            None => None,
        };
        let schedule: Schedule = match parse_schedule(raw.every.as_str(), on) {
            Ok(s) => s,
            Err(e) => {
                return Err(e);
            },
        };
        let on_display: Option<String> = match &raw.on {
            Some(o) => Some(on_to_string(o)),
            None => None,
        };
        Ok(
            Task {
                id: raw.id,
                name: raw.name,
                every: raw.every,
                on: on_display,
                schedule,
                lead_time,
                prep: raw.prep,
                vendor: raw.vendor,
                notes: raw.notes,
                start: raw.start,
            },
        )
    }

    /// A task equal to this one, field by field.
    pub fn duplicate(&self) -> (res: Task)
        ensures
            res@ == self@,
            res.schedule == self.schedule,
            res.lead_time == self.lead_time,
            res.start == self.start,
    {
        Task {
            id: self.id.clone(),
            name: self.name.clone(),
            every: self.every.clone(),
            on: copy_opt(&self.on),
            schedule: self.schedule,
            lead_time: self.lead_time,
            prep: copy_strings(&self.prep),
            vendor: copy_opt(&self.vendor),
            notes: copy_opt(&self.notes),
            start: self.start,
        }
    }
}

/// A completion event: a task was done on a date.
#[derive(Debug, Clone, PartialEq, Eq)]
pub struct Completion {
    pub id: String,
    pub done: Date,
    pub via: String,
    pub by: Option<String>,
    pub cost_cents: Option<i64>,
    pub note: Option<String>,
}

impl Completion {
    /// Build a `Completion` from its raw form.
    pub fn from_raw(raw: RawCompletion) -> (res: Self)
        ensures
            res.id == raw.id,
            res.done == raw.done,
            res.via == raw.via,
            res.by == raw.by,
            res.cost_cents == raw.cost_cents,
            res.note == raw.note,
    {
        Completion {
            id: raw.id,
            done: raw.done,
            via: raw.via,
            by: raw.by,
            cost_cents: raw.cost_cents,
            note: raw.note,
        }
    }

    /// A completion equal to this one, field by field.
    pub fn duplicate(&self) -> (res: Completion)
        ensures
            res == *self,
    {
        Completion {
            id: self.id.clone(),
            done: self.done,
            via: self.via.clone(),
            by: copy_opt(&self.by),
            cost_cents: self.cost_cents,
            note: copy_opt(&self.note),
        }
    }
}

/// A punt event: defer a task's next occurrence to an explicit date.
#[derive(Debug, Clone, PartialEq, Eq)]
pub struct Punt {
    pub id: String,
    pub punt_to: Date,
    pub via: String,
}

impl Punt {
    /// Build a `Punt` from its raw form.
    pub fn from_raw(raw: RawPunt) -> (res: Self)
        ensures
            res.id == raw.id,
            res.punt_to == raw.punt_to,
            res.via == raw.via,
    {
        Punt { id: raw.id, punt_to: raw.punt_to, via: raw.via }
    }
}

/// An entry in the append-only event log.
#[derive(Debug, Clone)]
pub enum Event {
    /// A completion event.
    Completion(Completion),
    /// A punt event.
    Punt(Punt),
}

impl Event {
    /// The id of the task the event is about.
    pub open spec fn task_id(self) -> Seq<char> {
        match self {
            Event::Completion(c) => c.id@,
            Event::Punt(p) => p.id@,
        }
    }

    /// The event's date is a real date.
    pub open spec fn wf(self) -> bool {
        match self {
            Event::Completion(c) => c.done.wf(),
            Event::Punt(p) => p.punt_to.wf(),
        }
    }
}

} // verus!
