//! The application service (controller): the operations of the `lm` commands
//! over the loaded data set. The caller loads the data files (through the
//! store) and performs the writes and commits; the service decides what is
//! listed, recorded and reported.

use vstd::prelude::*;

use crate::date::Date;
use crate::error::Error;
use crate::model::{Completion, Event, Punt, Task, Vendor};
use crate::status::{compute_status, status_failure, events_wf, status_matches, status_ordered, tasks_wf, Bucket, TaskStatus};
use crate::store::{bad_ref_error, check_vendor_refs, completions_in, completions_of, vendor_ids, vendor_ref_ok, DataDir};
use crate::report::{
    bucket_count, count_bucket, entries_are_id_map, entries_are_year_map, spend_by_task,
    spend_by_year, total_by_task, total_by_year, Report, ReportKind,
};
use crate::text::{chars_of, contains_chars, has_substring, lowercase, to_lowercase};
use crate::status::same_text;

verus! {

/// The application service (controller).
pub struct Service {
    /// The data directory the service's data comes from.
    pub data_dir: DataDir,
}

/// `text` in lower case contains the lower-cased query `q`.
pub open spec fn field_matches(text: Seq<char>, q: Seq<char>) -> bool {
    has_substring(lowercase(text), q)
}

/// The text of an optional field, empty when absent.
pub open spec fn or_empty(o: Option<String>) -> Seq<char> {
    match o {
        Some(s) => s@,
        None => Seq::empty(),
    }
}

/// `task` matches the lower-cased query `q` in its id, name, notes or vendor.
pub open spec fn task_matches(task: Task, q: Seq<char>) -> bool {
    ||| field_matches(task.id@, q)
    ||| field_matches(task.name@, q)
    ||| field_matches(or_empty(task.notes), q)
    ||| field_matches(or_empty(task.vendor), q)
}

/// A status passes the query and bucket filters of `list_tasks`.
pub open spec fn status_selected(s: TaskStatus, q: Option<Seq<char>>, only: Option<Seq<Bucket>>) -> bool {
    &&& (q matches Some(qq) ==> task_matches(s.task, lowercase(qq)))
    &&& (only matches Some(bs) ==> bs.contains(s.bucket))
}

/// The statuses of `v` that pass the filters, in order.
pub open spec fn selected(v: Seq<TaskStatus>, q: Option<Seq<char>>, only: Option<Seq<Bucket>>) -> Seq<TaskStatus>
    decreases v.len(),
{
    if v.len() == 0 {
        Seq::empty()
    } else {
        let prev = selected(v.drop_last(), q, only);
        if status_selected(v.last(), q, only) {
            prev.push(v.last())
        } else {
            prev
        }
    }
}

/// The view of an optional query.
pub open spec fn query_view(q: Option<&str>) -> Option<Seq<char>> {
    match q {
        Some(s) => Some(s@),
        None => None,
    }
}

/// The view of an optional bucket set.
pub open spec fn only_view(only: Option<&[Bucket]>) -> Option<Seq<Bucket>> {
    match only {
        Some(b) => Some(b@),
        None => None,
    }
}

/// `v` is a status list that the engine owes for `tasks`.
pub open spec fn computed_statuses(v: Seq<TaskStatus>, tasks: Seq<Task>, events: Seq<Event>, today: Date) -> bool {
    &&& v.len() == tasks.len()
    &&& forall|k: int| 0 <= k < tasks.len() ==> #[trigger] status_matches(v[k], tasks[k], events, today)
    &&& forall|k: int| 0 <= k < tasks.len() ==> #[trigger] status_ordered(v[k], tasks[k], events)
}

/// Every task's vendor reference resolves.
pub open spec fn refs_ok(tasks: Seq<Task>, vendors: Seq<Vendor>) -> bool {
    forall|k: int| 0 <= k < tasks.len() ==> vendor_ref_ok(#[trigger] tasks[k], vendor_ids(vendors))
}

/// Whether `field` (lower-cased) contains the lower-cased query `q`.
fn field_has(field: &str, q: &Vec<char>) -> (res: bool)
    ensures
        res == field_matches(field@, q@),
{
    let lowered: String = to_lowercase(field);
    contains_chars(&chars_of(lowered.as_str()), q)
}

/// Whether `task` matches the lower-cased query `q`.
fn task_has(task: &Task, q: &Vec<char>) -> (res: bool)
    ensures
        res == task_matches(*task, q@),
{
    let notes: &str = match &task.notes {
        Some(n) => n.as_str(),
        None => "",
    };
    let vendor: &str = match &task.vendor {
        Some(v) => v.as_str(),
        None => "",
    };
    proof {
        reveal_strlit("");
        assert(""@ =~= Seq::<char>::empty());
        assert(notes@ == or_empty(task.notes));
        assert(vendor@ == or_empty(task.vendor));
    }
    field_has(task.id.as_str(), q) || field_has(task.name.as_str(), q) || field_has(notes, q)
        || field_has(vendor, q)
}

/// Whether `bs` holds `b`.
fn bucket_in(bs: &[Bucket], b: Bucket) -> (res: bool)
    ensures
        res == bs@.contains(b),
{
    let mut i: usize = 0;
    while i < bs.len()
        invariant
            i <= bs@.len(),
            forall|j: int| 0 <= j < i ==> bs@[j] != b,
        decreases bs@.len() - i,
    {
        if bs[i] == b {
            return true;
        }
        i = i + 1;
    }
    false
}

/// Keeps the statuses that pass the query and bucket filters, in order.
fn select_statuses(statuses: Vec<TaskStatus>, query: Option<&str>, only: Option<&[Bucket]>) -> (res: Vec<TaskStatus>)
    ensures
        res@ == selected(statuses@, query_view(query), only_view(only)),
{
    let q: Option<Vec<char>> = match query {
        Some(s) => {
            let lowered: String = to_lowercase(s);
            Some(chars_of(lowered.as_str()))
        },
        None => None,
    };
    let mut out: Vec<TaskStatus> = Vec::new();
    let mut rest: Vec<TaskStatus> = statuses;
    let ghost all = rest@;
    let ghost done: int = 0;
    while rest.len() > 0
        invariant
            0 <= done <= all.len(),
            all == statuses@,
            rest@ == all.skip(done),
            q matches Some(qq) ==> query matches Some(s) && qq@ == lowercase(s@),
            q is None ==> query is None,
            out@ == selected(all.take(done), query_view(query), only_view(only)),
        decreases rest@.len(),
    {
        assert(rest@[0] == all[done]);
        let s: TaskStatus = rest.remove(0);
        assert(rest@ =~= all.skip(done + 1));
        assert(all.take(done + 1).drop_last() =~= all.take(done));
        assert(all.take(done + 1).last() == all[done]);
        let query_ok: bool = match &q {
            Some(qq) => task_has(&s.task, qq),
            None => true,
        };
        let bucket_ok: bool = match only {
            Some(bs) => bucket_in(bs, s.bucket),
            None => true,
        };
        if query_ok && bucket_ok {
            out.push(s);
        }
        proof {
            done = done + 1;
        }
    }
    assert(all.take(done) =~= all);
    out
}

/// The completions that `history` keeps: those of task `id` (when given) done
/// on or after `since` (when given), in log order.
pub open spec fn history_of(cs: Seq<Completion>, id: Option<Seq<char>>, since: Option<Date>) -> Seq<Completion>
    decreases cs.len(),
{
    if cs.len() == 0 {
        Seq::empty()
    } else {
        let prev = history_of(cs.drop_last(), id, since);
        let c = cs.last();
        if (id matches Some(i) ==> c.id@ == i) && (since matches Some(d) ==> !c.done.before(d)) {
            prev.push(c)
        } else {
            prev
        }
    }
}

/// The buckets that `due` lists: overdue, due and prep.
pub open spec fn due_buckets() -> Seq<Bucket> {
    seq![Bucket::Overdue, Bucket::Due, Bucket::Prep]
}

/// The message for a task id that no task has.
pub open spec fn unknown_task_message(id: Seq<char>) -> Seq<char> {
    "unknown task id "@ + id
}

/// Some task has the id `id`.
pub open spec fn has_task(tasks: Seq<Task>, id: Seq<char>) -> bool {
    exists|k: int| 0 <= k < tasks.len() && (#[trigger] tasks[k]).id@ == id
}

/// Whether some task has the id `id`.
fn find_task(tasks: &Vec<Task>, id: &String) -> (res: bool)
    ensures
        res == has_task(tasks@, id@),
{
    let mut i: usize = 0;
    while i < tasks.len()
        invariant
            i <= tasks@.len(),
            forall|k: int| 0 <= k < i ==> tasks@[k].id@ != id@,
        decreases tasks@.len() - i,
    {
        if same_text(&tasks[i].id, id) {
            return true;
        }
        i = i + 1;
    }
    false
}

/// The error for an unknown task id.
fn unknown_task(id: &String) -> (res: Error)
    ensures
        res matches Error::DataFile(m) && m@ == unknown_task_message(id@),
{
    let mut m: String = String::from_str("unknown task id ");
    m.append(id.as_str());
    proof {
        reveal_strlit("unknown task id ");
    }
    Error::DataFile(m)
}

/// A vendor as shown in an export row.
#[derive(Debug)]
pub struct ExportVendor {
    pub id: String,
    pub name: String,
    pub phone: Option<String>,
}

/// A completion as shown in an export row.
#[derive(Debug)]
pub struct ExportCompletion {
    pub done: Date,
    pub via: String,
    pub by: Option<String>,
    pub cost_cents: Option<i64>,
    pub note: Option<String>,
}

/// One task of the export: its status, its vendor and its completions.
#[derive(Debug)]
pub struct ExportRow {
    pub id: String,
    pub name: String,
    pub bucket: Bucket,
    pub last_done: Option<Date>,
    pub next_due: Date,
    pub prep_due: Option<Date>,
    pub vendor: Option<ExportVendor>,
    pub completions: Vec<ExportCompletion>,
}

/// The full denormalized dataset (the stable export feed).
#[derive(Debug)]
pub struct Export {
    pub schema_version: u32,
    pub generated_for: Date,
    pub tasks: Vec<ExportRow>,
}

/// The index of the first vendor with id `id`, if any.
pub open spec fn first_vendor(vendors: Seq<Vendor>, id: Seq<char>) -> Option<int> {
    if exists|k: int| 0 <= k < vendors.len() && (#[trigger] vendors[k]).id@ == id {
        Some(
            choose|k: int|
                0 <= k < vendors.len() && (#[trigger] vendors[k]).id@ == id && forall|j: int|
                    0 <= j < k ==> (#[trigger] vendors[j]).id@ != id,
        )
    } else {
        None
    }
}

/// `ev` shows the vendor that the task's vendor id names (the first vendor
/// with that id), or is absent when the task names none or it is not found.
pub open spec fn export_vendor_matches(ev: Option<ExportVendor>, task: Task, vendors: Seq<Vendor>) -> bool {
    match task.vendor {
        None => ev is None,
        Some(vid) => match first_vendor(vendors, vid@) {
            None => ev is None,
            Some(k) => ev matches Some(v) && v.id == vendors[k].id && v.name == vendors[k].name
                && v.phone == vendors[k].phone,
        },
    }
}

/// `e` shows the completion `c`.
pub open spec fn export_completion_matches(e: ExportCompletion, c: Completion) -> bool {
    e.done == c.done && e.via == c.via && e.by == c.by && e.cost_cents == c.cost_cents && e.note
        == c.note
}

/// `row` is the export row of status `s`, given the vendors and the
/// completion log `cs` (only completions, never punts, are listed).
pub open spec fn export_row_matches(row: ExportRow, s: TaskStatus, vendors: Seq<Vendor>, cs: Seq<Completion>) -> bool {
    let mine = history_of(cs, Some(s.task.id@), None);
    &&& row.id@ == s.task.id@
    &&& row.name@ == s.task.name@
    &&& row.bucket == s.bucket
    &&& row.last_done == s.last_done
    &&& row.next_due == s.next_due
    &&& row.prep_due == s.prep_due
    &&& export_vendor_matches(row.vendor, s.task, vendors)
    &&& row.completions@.len() == mine.len()
    &&& forall|i: int| 0 <= i < mine.len() ==> export_completion_matches(#[trigger] row.completions@[i], mine[i])
}

/// The index of the first vendor with id `vid`, if any.
fn vendor_index(vendors: &Vec<Vendor>, vid: &String) -> (res: Option<usize>)
    ensures
        res matches Some(k) ==> first_vendor(vendors@, vid@) == Some(k as int) && k < vendors@.len()
            && vendors@[k as int].id@ == vid@,
        res is None ==> first_vendor(vendors@, vid@) is None,
{
    let mut k: usize = 0;
    while k < vendors.len()
        invariant
            k <= vendors@.len(),
            forall|j: int| 0 <= j < k ==> (#[trigger] vendors@[j]).id@ != vid@,
        decreases vendors@.len() - k,
    {
        if same_text(&vendors[k].id, vid) {
            proof {
                assert(vendors@[k as int].id@ == vid@);
                let f = first_vendor(vendors@, vid@);
                assert(f == Some(k as int)) by {
                    let c = choose|c: int|
                        0 <= c < vendors@.len() && (#[trigger] vendors@[c]).id@ == vid@ && forall|j: int|
                            0 <= j < c ==> (#[trigger] vendors@[j]).id@ != vid@;
                    if c < k {
                        assert(vendors@[c].id@ != vid@);
                    }
                    if c > k {
                        assert(vendors@[k as int].id@ != vid@);
                    }
                }
            }
            return Some(k);
        }
        k = k + 1;
    }
    None
}

/// The export vendor of `task`.
fn vendor_of(task: &Task, vendors: &Vec<Vendor>) -> (res: Option<ExportVendor>)
    ensures
        export_vendor_matches(res, *task, vendors@),
{
    let vid: &String = match &task.vendor {
        Some(v) => v,
        None => {
            return None;
        },
    };
    match vendor_index(vendors, vid) {
        Some(k) => {
            let v: &Vendor = &vendors[k];
            Some(
                ExportVendor {
                    id: v.id.clone(),
                    name: v.name.clone(),
                    phone: match &v.phone {
                        Some(p) => Some(p.clone()),
                        None => None,
                    },
                },
            )
        },
        None => None,
    }
}

/// The export completions of task `id`, in log order.
fn completions_for(cs: &Vec<Completion>, id: &String) -> (res: Vec<ExportCompletion>)
    ensures
        res@.len() == history_of(cs@, Some(id@), None).len(),
        forall|i: int|
            0 <= i < res@.len() ==> export_completion_matches(
                #[trigger] res@[i],
                history_of(cs@, Some(id@), None)[i],
            ),
{
    let mut out: Vec<ExportCompletion> = Vec::new();
    let mut i: usize = 0;
    while i < cs.len()
        invariant
            i <= cs@.len(),
            out@.len() == history_of(cs@.take(i as int), Some(id@), None).len(),
            forall|j: int|
                0 <= j < out@.len() ==> export_completion_matches(
                    #[trigger] out@[j],
                    history_of(cs@.take(i as int), Some(id@), None)[j],
                ),
        decreases cs@.len() - i,
    {
        assert(cs@.take(i + 1).drop_last() =~= cs@.take(i as int));
        assert(cs@.take(i + 1).last() == cs@[i as int]);
        let c: &Completion = &cs[i];
        if same_text(&c.id, id) {
            let d: Completion = c.duplicate();
            out.push(
                ExportCompletion { done: d.done, via: d.via, by: d.by, cost_cents: d.cost_cents, note: d.note },
            );
        }
        i = i + 1;
    }
    assert(cs@.take(cs@.len() as int) =~= cs@);
    out
}

/// The full detail of a single task: its computed status and the vendor it
/// references, resolved from the directory.
#[derive(Debug)]
pub struct TaskDetail {
    /// The task's computed status (it owns the full task).
    pub status: TaskStatus,
    /// The vendor the task references, if it names one that is found.
    pub vendor: Option<Vendor>,
}

/// Every task has a status for `today` (no schedule fails to advance).
pub open spec fn statuses_computable(tasks: Seq<Task>, events: Seq<Event>, today: Date) -> bool {
    forall|k: int| 0 <= k < tasks.len() ==> (#[trigger] crate::status::status_of(tasks[k], events, today)) is Some
}

/// The index of the first task with id `id`, if any.
pub open spec fn first_task(tasks: Seq<Task>, id: Seq<char>) -> Option<int> {
    if has_task(tasks, id) {
        Some(
            choose|k: int|
                0 <= k < tasks.len() && (#[trigger] tasks[k]).id@ == id && forall|j: int|
                    0 <= j < k ==> (#[trigger] tasks[j]).id@ != id,
        )
    } else {
        None
    }
}

/// `v` is the vendor that `task` names (the first vendor with that id), or is
/// absent when the task names none or it is not found.
pub open spec fn resolved_vendor(v: Option<Vendor>, task: Task, vendors: Seq<Vendor>) -> bool {
    match task.vendor {
        None => v is None,
        Some(vid) => match first_vendor(vendors, vid@) {
            None => v is None,
            Some(k) => v == Some(vendors[k]),
        },
    }
}

/// The index of the first task with id `id`, if any.
fn task_index(tasks: &Vec<Task>, id: &String) -> (res: Option<usize>)
    ensures
        res matches Some(k) ==> first_task(tasks@, id@) == Some(k as int) && k < tasks@.len()
            && tasks@[k as int].id@ == id@,
        res is None ==> first_task(tasks@, id@) is None,
{
    let mut k: usize = 0;
    while k < tasks.len()
        invariant
            k <= tasks@.len(),
            forall|j: int| 0 <= j < k ==> (#[trigger] tasks@[j]).id@ != id@,
        decreases tasks@.len() - k,
    {
        if same_text(&tasks[k].id, id) {
            proof {
                assert(tasks@[k as int].id@ == id@);
                assert(has_task(tasks@, id@));
                let f = first_task(tasks@, id@);
                assert(f == Some(k as int)) by {
                    let c = choose|c: int|
                        0 <= c < tasks@.len() && (#[trigger] tasks@[c]).id@ == id@ && forall|j: int|
                            0 <= j < c ==> (#[trigger] tasks@[j]).id@ != id@;
                    if c < k {
                        assert(tasks@[c].id@ != id@);
                    }
                    if c > k {
                        assert(tasks@[k as int].id@ != id@);
                    }
                }
            }
            return Some(k);
        }
        k = k + 1;
    }
    None
}

impl Service {
    /// Create a service backed by `data_dir`.
    pub fn new(data_dir: DataDir) -> (res: Self)
        ensures
            res.data_dir == data_dir,
    {
        Service { data_dir }
    }

    /// All task statuses for `today`, optionally filtered by `query` and by a
    /// set of buckets.
    ///
    /// Vendor references are validated first (as loading the data set does).
    /// `query` matches case-insensitively against a task's id, name, notes,
    /// and vendor id. `only`, when present, keeps only statuses whose bucket
    /// is in the set.
    pub fn list_tasks(
        &self,
        tasks: &Vec<Task>,
        vendors: &Vec<Vendor>,
        events: &Vec<Event>,
        today: Date,
        query: Option<&str>,
        only: Option<&[Bucket]>,
    ) -> (res: Result<Vec<TaskStatus>, Error>)
        requires
            tasks_wf(tasks@),
            events_wf(events@),
            today.wf(),
        ensures
            !refs_ok(tasks@, vendors@) ==> (res matches Err(e) && bad_ref_error(tasks@, vendors@, e)),
            refs_ok(tasks@, vendors@) ==> (res is Ok <==> forall|k: int|
                0 <= k < tasks@.len() ==> (#[trigger] crate::status::status_of(tasks@[k], events@, today)) is Some),
            refs_ok(tasks@, vendors@) && !statuses_computable(tasks@, events@, today) ==> (res matches Err(e)
                && status_failure(tasks@, events@, today, e)),
            res matches Ok(v) ==> exists|all: Seq<TaskStatus>|
                computed_statuses(all, tasks@, events@, today) && #[trigger] selected(
                    all,
                    query_view(query),
                    only_view(only),
                ) == v@,
    {
        match check_vendor_refs(tasks, vendors) {
            Ok(()) => {},
            Err(e) => {
                return Err(e);
            },
        }
        let statuses: Vec<TaskStatus> = match compute_status(tasks, events, today) {
            Ok(v) => v,
            Err(e) => {
                return Err(e);
            },
        };
        let ghost all = statuses@;
        let out: Vec<TaskStatus> = select_statuses(statuses, query, only);
        assert(computed_statuses(all, tasks@, events@, today));
        Ok(out)
    }

    /// The full detail of task `id` for `today`: its status and its resolved
    /// vendor.
    ///
    /// Vendor references are validated first and statuses computed (as for
    /// `list_tasks`); an id that no task has is a data-file error naming it.
    pub fn show(&self, tasks: &Vec<Task>, vendors: &Vec<Vendor>, events: &Vec<Event>, today: Date, id: &str) -> (res: Result<TaskDetail, Error>)
        requires
            tasks_wf(tasks@),
            events_wf(events@),
            today.wf(),
        ensures
            !refs_ok(tasks@, vendors@) ==> (res matches Err(e) && bad_ref_error(tasks@, vendors@, e)),
            refs_ok(tasks@, vendors@) && !statuses_computable(tasks@, events@, today) ==> (res matches Err(e)
                && status_failure(tasks@, events@, today, e)),
            refs_ok(tasks@, vendors@) && statuses_computable(tasks@, events@, today) && !has_task(tasks@, id@)
                ==> (res matches Err(Error::DataFile(m)) && m@ == unknown_task_message(id@)),
            refs_ok(tasks@, vendors@) && statuses_computable(tasks@, events@, today) && has_task(tasks@, id@)
                ==> res is Ok,
            res matches Ok(d) ==> (first_task(tasks@, id@) matches Some(k)
                && status_matches(d.status, tasks@[k], events@, today)
                && status_ordered(d.status, tasks@[k], events@)
                && resolved_vendor(d.vendor, tasks@[k], vendors@)),
    {
        match check_vendor_refs(tasks, vendors) {
            Ok(()) => {},
            Err(e) => {
                return Err(e);
            },
        }
        let mut statuses: Vec<TaskStatus> = match compute_status(tasks, events, today) {
            Ok(v) => v,
            Err(e) => {
                return Err(e);
            },
        };
        let wanted: String = String::from_str(id);
        let k: usize = match task_index(tasks, &wanted) {
            Some(k) => k,
            None => {
                proof {
                    if has_task(tasks@, id@) {
                        assert(first_task(tasks@, id@) is Some);
                    }
                }
                return Err(unknown_task(&wanted));
            },
        };
        let ghost before = statuses@;
        let status: TaskStatus = statuses.remove(k);
        assert(status == before[k as int]);
        assert(status_matches(before[k as int], tasks@[k as int], events@, today));
        assert(status_ordered(before[k as int], tasks@[k as int], events@));
        let vendor: Option<Vendor> = match &tasks[k].vendor {
            Some(vid) => match vendor_index(vendors, vid) {
                Some(j) => Some(vendors[j].duplicate()),
                None => None,
            },
            None => None,
        };
        Ok(TaskDetail { status, vendor })
    }

    /// Tasks that are overdue, due, or in their prep window.
    pub fn due(&self, tasks: &Vec<Task>, vendors: &Vec<Vendor>, events: &Vec<Event>, today: Date) -> (res: Result<Vec<TaskStatus>, Error>)
        requires
            tasks_wf(tasks@),
            events_wf(events@),
            today.wf(),
        ensures
            !refs_ok(tasks@, vendors@) ==> (res matches Err(e) && bad_ref_error(tasks@, vendors@, e)),
            refs_ok(tasks@, vendors@) ==> (res is Ok <==> forall|k: int|
                0 <= k < tasks@.len() ==> (#[trigger] crate::status::status_of(tasks@[k], events@, today)) is Some),
            refs_ok(tasks@, vendors@) && !statuses_computable(tasks@, events@, today) ==> (res matches Err(e)
                && status_failure(tasks@, events@, today, e)),
            res matches Ok(v) ==> exists|all: Seq<TaskStatus>|
                computed_statuses(all, tasks@, events@, today) && #[trigger] selected(
                    all,
                    None,
                    Some(due_buckets()),
                ) == v@,
    {
        let buckets: [Bucket; 3] = [Bucket::Overdue, Bucket::Due, Bucket::Prep];
        let r = self.list_tasks(tasks, vendors, events, today, None, Some(buckets.as_slice()));
        assert(buckets@ =~= due_buckets());
        r
    }

    /// Completion history, optionally filtered by task id and/or a since-date
    /// (inclusive).
    pub fn history(&self, events: &Vec<Event>, task_id: Option<&str>, since: Option<Date>) -> (res: Vec<Completion>)
        ensures
            res@ == history_of(completions_in(events@), query_view(task_id), since),
    {
        let all: Vec<Completion> = completions_of(events);
        let id: Option<String> = match task_id {
            Some(s) => Some(String::from_str(s)),
            None => None,
        };
        let mut out: Vec<Completion> = Vec::new();
        let mut rest: Vec<Completion> = all;
        let ghost cs = rest@;
        let ghost done: int = 0;
        while rest.len() > 0
            invariant
                0 <= done <= cs.len(),
                rest@ == cs.skip(done),
                id matches Some(i) ==> task_id matches Some(t) && i@ == t@,
                id is None ==> task_id is None,
                out@ == history_of(cs.take(done), query_view(task_id), since),
            decreases rest@.len(),
        {
            assert(rest@[0] == cs[done]);
            let c: Completion = rest.remove(0);
            assert(rest@ =~= cs.skip(done + 1));
            assert(cs.take(done + 1).drop_last() =~= cs.take(done));
            assert(cs.take(done + 1).last() == cs[done]);
            let id_ok: bool = match &id {
                Some(i) => same_text(&c.id, i),
                None => true,
            };
            let since_ok: bool = match since {
                Some(d) => !c.done.is_before(&d),
                None => true,
            };
            if id_ok && since_ok {
                out.push(c);
            }
            proof {
                done = done + 1;
            }
        }
        assert(cs.take(done) =~= cs);
        out
    }

    /// The vendor directory, after validating the tasks' vendor references.
    pub fn vendors(&self, tasks: &Vec<Task>, vendors: Vec<Vendor>) -> (res: Result<Vec<Vendor>, Error>)
        ensures
            refs_ok(tasks@, vendors@) ==> res == Ok::<Vec<Vendor>, Error>(vendors),
            !refs_ok(tasks@, vendors@) ==> (res matches Err(e) && bad_ref_error(tasks@, vendors@, e)),
    {
        match check_vendor_refs(tasks, &vendors) {
            Ok(()) => Ok(vendors),
            Err(e) => Err(e),
        }
    }

    /// Builds the completion record of `task_id`, after validating the data
    /// set's vendor references and that the task exists (the caller appends
    /// it to the log and commits it).
    pub fn complete(
        &self,
        tasks: &Vec<Task>,
        vendors: &Vec<Vendor>,
        task_id: &str,
        done: Date,
        via: &str,
        by: &str,
        cost_cents: Option<i64>,
        note: Option<&str>,
    ) -> (res: Result<Completion, Error>)
        ensures
            !refs_ok(tasks@, vendors@) ==> (res matches Err(e) && bad_ref_error(tasks@, vendors@, e)),
            refs_ok(tasks@, vendors@) && !has_task(tasks@, task_id@) ==> (res matches Err(Error::DataFile(m))
                && m@ == unknown_task_message(task_id@)),
            refs_ok(tasks@, vendors@) && has_task(tasks@, task_id@) ==> (res matches Ok(c) && c.id@ == task_id@
                && c.done == done && c.via@ == via@ && c.by.deep_view() == Some(by@)
                && c.cost_cents == cost_cents && c.note.deep_view() == query_view(note)),
    {
        match check_vendor_refs(tasks, vendors) {
            Ok(()) => {},
            Err(e) => {
                return Err(e);
            },
        }
        let id: String = String::from_str(task_id);
        if !find_task(tasks, &id) {
            return Err(unknown_task(&id));
        }
        Ok(
            Completion {
                id,
                done,
                via: String::from_str(via),
                by: Some(String::from_str(by)),
                cost_cents,
                note: match note {
                    Some(n) => Some(String::from_str(n)),
                    None => None,
                },
            },
        )
    }

    /// Builds the punt record deferring `task_id` to `to`, after validating
    /// the data set's vendor references and that the task exists (the caller
    /// appends it to the log and commits it).
    pub fn punt(&self, tasks: &Vec<Task>, vendors: &Vec<Vendor>, task_id: &str, to: Date, via: &str) -> (res: Result<Punt, Error>)
        ensures
            !refs_ok(tasks@, vendors@) ==> (res matches Err(e) && bad_ref_error(tasks@, vendors@, e)),
            refs_ok(tasks@, vendors@) && !has_task(tasks@, task_id@) ==> (res matches Err(Error::DataFile(m))
                && m@ == unknown_task_message(task_id@)),
            refs_ok(tasks@, vendors@) && has_task(tasks@, task_id@) ==> (res matches Ok(p) && p.id@ == task_id@
                && p.punt_to == to && p.via@ == via@),
    {
        match check_vendor_refs(tasks, vendors) {
            Ok(()) => {},
            Err(e) => {
                return Err(e);
            },
        }
        let id: String = String::from_str(task_id);
        if !find_task(tasks, &id) {
            return Err(unknown_task(&id));
        }
        Ok(Punt { id, punt_to: to, via: String::from_str(via) })
    }

    /// The full denormalized dataset: one row per task status, joined with
    /// its vendor and its completions (punts are part of status computation
    /// but never appear as completions).
    pub fn export(&self, tasks: &Vec<Task>, vendors: &Vec<Vendor>, events: &Vec<Event>, today: Date) -> (res: Result<Export, Error>)
        requires
            tasks_wf(tasks@),
            events_wf(events@),
            today.wf(),
        ensures
            !refs_ok(tasks@, vendors@) ==> (res matches Err(e) && bad_ref_error(tasks@, vendors@, e)),
            refs_ok(tasks@, vendors@) ==> (res is Ok <==> forall|k: int|
                0 <= k < tasks@.len() ==> (#[trigger] crate::status::status_of(tasks@[k], events@, today)) is Some),
            refs_ok(tasks@, vendors@) && !statuses_computable(tasks@, events@, today) ==> (res matches Err(e)
                && status_failure(tasks@, events@, today, e)),
            res matches Ok(ex) ==> ex.schema_version == 1 && ex.generated_for == today,
            res matches Ok(ex) ==> exists|all: Seq<TaskStatus>|
                #[trigger] computed_statuses(all, tasks@, events@, today) && ex.tasks@.len() == all.len()
                    && forall|k: int|
                    0 <= k < all.len() ==> export_row_matches(
                        #[trigger] ex.tasks@[k],
                        all[k],
                        vendors@,
                        completions_in(events@),
                    ),
    {
        match check_vendor_refs(tasks, vendors) {
            Ok(()) => {},
            Err(e) => {
                return Err(e);
            },
        }
        let statuses: Vec<TaskStatus> = match compute_status(tasks, events, today) {
            Ok(v) => v,
            Err(e) => {
                return Err(e);
            },
        };
        let completions: Vec<Completion> = completions_of(events);
        let mut rows: Vec<ExportRow> = Vec::new();
        let mut i: usize = 0;
        while i < statuses.len()
            invariant
                i <= statuses@.len(),
                completions@ == completions_in(events@),
                rows@.len() == i,
                forall|k: int|
                    0 <= k < i ==> export_row_matches(
                        #[trigger] rows@[k],
                        statuses@[k],
                        vendors@,
                        completions_in(events@),
                    ),
            decreases statuses@.len() - i,
        {
            let s: &TaskStatus = &statuses[i];
            let row: ExportRow = ExportRow {
                id: s.task.id.clone(),
                name: s.task.name.clone(),
                bucket: s.bucket,
                last_done: s.last_done,
                next_due: s.next_due,
                prep_due: s.prep_due,
                vendor: vendor_of(&s.task, vendors),
                completions: completions_for(&completions, &s.task.id),
            };
            rows.push(row);
            i = i + 1;
        }
        assert(computed_statuses(statuses@, tasks@, events@, today));
        Ok(Export { schema_version: 1, generated_for: today, tasks: rows })
    }

    /// A built-in summary report. Vendor references are validated first.
    ///
    /// - `SpendByTask`: the sum of recorded costs per task id;
    /// - `PerYear`: the sum of recorded costs per completion year;
    /// - `OverdueCount`: how many tasks are overdue, due, and in prep today.
    pub fn report(&self, tasks: &Vec<Task>, vendors: &Vec<Vendor>, events: &Vec<Event>, kind: ReportKind, today: Date) -> (res: Result<Report, Error>)
        requires
            tasks_wf(tasks@),
            events_wf(events@),
            today.wf(),
        ensures
            !refs_ok(tasks@, vendors@) ==> (res matches Err(e) && bad_ref_error(tasks@, vendors@, e)),
            refs_ok(tasks@, vendors@) && kind != ReportKind::OverdueCount ==> res is Ok,
            res matches Ok(r) ==> (kind == ReportKind::SpendByTask <==> r is SpendByTask),
            res matches Ok(r) ==> (kind == ReportKind::PerYear <==> r is PerYear),
            res matches Ok(Report::SpendByTask(v)) ==> entries_are_id_map(v@, spend_by_task(completions_in(events@))),
            res matches Ok(Report::PerYear(v)) ==> entries_are_year_map(v@, spend_by_year(completions_in(events@))),
            refs_ok(tasks@, vendors@) && kind == ReportKind::OverdueCount ==> (res is Ok <==> forall|k: int|
                0 <= k < tasks@.len() ==> (#[trigger] crate::status::status_of(tasks@[k], events@, today)) is Some),
            refs_ok(tasks@, vendors@) && kind == ReportKind::OverdueCount && !statuses_computable(
                tasks@,
                events@,
                today,
            ) ==> (res matches Err(e) && status_failure(tasks@, events@, today, e)),
            res matches Ok(Report::OverdueCount { overdue, due, prep }) ==> exists|all: Seq<TaskStatus>|
                #[trigger] computed_statuses(all, tasks@, events@, today) && overdue == bucket_count(all, Bucket::Overdue)
                    && due == bucket_count(all, Bucket::Due) && prep == bucket_count(all, Bucket::Prep),
    {
        match check_vendor_refs(tasks, vendors) {
            Ok(()) => {},
            Err(e) => {
                return Err(e);
            },
        }
        match kind {
            ReportKind::SpendByTask => {
                let cs: Vec<Completion> = completions_of(events);
                Ok(Report::SpendByTask(total_by_task(&cs)))
            },
            ReportKind::PerYear => {
                let cs: Vec<Completion> = completions_of(events);
                Ok(Report::PerYear(total_by_year(&cs)))
            },
            ReportKind::OverdueCount => {
                let statuses: Vec<TaskStatus> = match compute_status(tasks, events, today) {
                    Ok(v) => v,
                    Err(e) => {
                        return Err(e);
                    },
                };
                assert(computed_statuses(statuses@, tasks@, events@, today));
                Ok(
                    Report::OverdueCount {
                        overdue: count_bucket(&statuses, Bucket::Overdue),
                        due: count_bucket(&statuses, Bucket::Due),
                        prep: count_bucket(&statuses, Bucket::Prep),
                    },
                )
            },
        }
    }
}

/// The filter law of `list_tasks`: what it keeps are exactly the statuses
/// that pass the query and bucket filters, each once and in their order, and
/// with no filter it keeps every status.
pub proof fn lemma_selected_is_filter(v: Seq<TaskStatus>, q: Option<Seq<char>>, only: Option<Seq<Bucket>>)
    ensures
        forall|i: int|
            0 <= i < selected(v, q, only).len() ==> status_selected(#[trigger] selected(v, q, only)[i], q, only)
                && v.contains(selected(v, q, only)[i]),
        forall|k: int| 0 <= k < v.len() && status_selected(v[k], q, only) ==> #[trigger] selected(v, q, only).contains(v[k]),
        selected(v, q, only).len() <= v.len(),
        q is None && only is None ==> selected(v, q, only) == v,
    decreases v.len(),
{
    if v.len() > 0 {
        let prev = v.drop_last();
        lemma_selected_is_filter(prev, q, only);
        let r = selected(v, q, only);
        let rp = selected(prev, q, only);
        assert forall|i: int| 0 <= i < r.len() implies status_selected(#[trigger] r[i], q, only) && v.contains(r[i]) by {
            if i < rp.len() {
                assert(r[i] == rp[i]);
                let j = choose|j: int| 0 <= j < prev.len() && prev[j] == rp[i];
                assert(v[j] == prev[j]);
            } else {
                assert(r[i] == v.last());
                assert(v[v.len() - 1] == v.last());
            }
        }
        assert forall|k: int| 0 <= k < v.len() && status_selected(v[k], q, only) implies #[trigger] r.contains(v[k]) by {
            if k < v.len() - 1 {
                assert(prev[k] == v[k]);
                assert(rp.contains(prev[k]));
                let j = choose|j: int| 0 <= j < rp.len() && rp[j] == prev[k];
                assert(r[j] == rp[j]);
            } else {
                assert(r[r.len() - 1] == v.last());
            }
        }
        if q is None && only is None {
            assert(v =~= prev.push(v.last()));
        }
    }
}

/// `due` lists no upcoming task: each status it keeps is overdue, due or in
/// prep, and each status that is overdue, due or in prep is kept.
pub proof fn lemma_due_is_urgent(all: Seq<TaskStatus>)
    ensures
        forall|i: int|
            0 <= i < selected(all, None, Some(due_buckets())).len() ==> (#[trigger] selected(
                all,
                None,
                Some(due_buckets()),
            )[i]).bucket != Bucket::Upcoming,
        forall|k: int|
            0 <= k < all.len() && all[k].bucket != Bucket::Upcoming ==> #[trigger] selected(
                all,
                None,
                Some(due_buckets()),
            ).contains(all[k]),
{
    lemma_selected_is_filter(all, None, Some(due_buckets()));
    assert forall|i: int|
        0 <= i < selected(all, None, Some(due_buckets())).len() implies (#[trigger] selected(
            all,
            None,
            Some(due_buckets()),
        )[i]).bucket != Bucket::Upcoming by {
        let s = selected(all, None, Some(due_buckets()))[i];
        assert(due_buckets().contains(s.bucket));
        if s.bucket == Bucket::Upcoming {
            let j = choose|j: int| 0 <= j < due_buckets().len() && due_buckets()[j] == s.bucket;
            assert(due_buckets()[0] == Bucket::Overdue);
        }
    }
    assert forall|k: int| 0 <= k < all.len() && all[k].bucket != Bucket::Upcoming implies #[trigger] selected(
        all,
        None,
        Some(due_buckets()),
    ).contains(all[k]) by {
        let b = all[k].bucket;
        if b == Bucket::Overdue {
            assert(due_buckets()[0] == b);
        } else if b == Bucket::Due {
            assert(due_buckets()[1] == b);
        } else {
            assert(due_buckets()[2] == b);
        }
        assert(status_selected(all[k], None, Some(due_buckets())));
    }
}

/// With no filter, `history` gives back the whole completion log.
pub proof fn lemma_history_unfiltered(cs: Seq<Completion>)
    ensures
        history_of(cs, None, None) == cs,
    decreases cs.len(),
{
    if cs.len() > 0 {
        lemma_history_unfiltered(cs.drop_last());
        assert(cs =~= cs.drop_last().push(cs.last()));
    }
}

/// Two statuses agree in every field that the engine computes.
pub open spec fn same_status(a: TaskStatus, b: TaskStatus) -> bool {
    &&& a.task@ == b.task@
    &&& a.last_done == b.last_done
    &&& a.next_due == b.next_due
    &&& a.prep_due == b.prep_due
    &&& a.bucket == b.bucket
}

/// Statuses that agree field by field pass the same filters.
proof fn lemma_selected_same(a: TaskStatus, b: TaskStatus, q: Option<Seq<char>>, only: Option<Seq<Bucket>>)
    requires
        same_status(a, b),
    ensures
        status_selected(a, q, only) == status_selected(b, q, only),
{
    assert(a.task.id@ == b.task.id@);
    assert(a.task.name@ == b.task.name@);
    assert(or_empty(a.task.notes) == or_empty(b.task.notes)) by {
        assert(a.task.notes.deep_view() == b.task.notes.deep_view());
    }
    assert(or_empty(a.task.vendor) == or_empty(b.task.vendor)) by {
        assert(a.task.vendor.deep_view() == b.task.vendor.deep_view());
    }
}

/// Filtering lists that agree field by field gives lists that agree field by
/// field.
proof fn lemma_selected_congruent(v1: Seq<TaskStatus>, v2: Seq<TaskStatus>, q: Option<Seq<char>>, only: Option<Seq<Bucket>>)
    requires
        v1.len() == v2.len(),
        forall|k: int| 0 <= k < v1.len() ==> same_status(#[trigger] v1[k], v2[k]),
    ensures
        selected(v1, q, only).len() == selected(v2, q, only).len(),
        forall|i: int| 0 <= i < selected(v1, q, only).len() ==> same_status(#[trigger] selected(v1, q, only)[i], selected(v2, q, only)[i]),
    decreases v1.len(),
{
    if v1.len() > 0 {
        let p1 = v1.drop_last();
        let p2 = v2.drop_last();
        assert forall|k: int| 0 <= k < p1.len() implies same_status(#[trigger] p1[k], p2[k]) by {
            assert(p1[k] == v1[k]);
            assert(p2[k] == v2[k]);
        }
        lemma_selected_congruent(p1, p2, q, only);
        assert(v1.last() == v1[v1.len() - 1]);
        assert(v2.last() == v2[v2.len() - 1]);
        lemma_selected_same(v1.last(), v2.last(), q, only);
    }
}

/// Any two status lists that the engine owes for the same tasks, log and day
/// agree field by field, and so do their filtered forms: `due` reports what
/// `list_tasks` reports when asked for the overdue, due and prep buckets (and
/// any two calls of `list_tasks` with the same filters agree).
pub proof fn lemma_due_is_list_of_urgent(
    all1: Seq<TaskStatus>,
    all2: Seq<TaskStatus>,
    tasks: Seq<Task>,
    events: Seq<Event>,
    today: Date,
    q: Option<Seq<char>>,
    only: Option<Seq<Bucket>>,
)
    requires
        computed_statuses(all1, tasks, events, today),
        computed_statuses(all2, tasks, events, today),
    ensures
        selected(all1, q, only).len() == selected(all2, q, only).len(),
        forall|i: int| 0 <= i < selected(all1, q, only).len() ==> same_status(#[trigger] selected(all1, q, only)[i], selected(all2, q, only)[i]),
        selected(all1, None, Some(due_buckets())).len() == selected(all2, None, Some(due_buckets())).len(),
        forall|i: int| 0 <= i < selected(all1, None, Some(due_buckets())).len() ==> same_status(
            #[trigger] selected(all1, None, Some(due_buckets()))[i],
            selected(all2, None, Some(due_buckets()))[i],
        ),
{
    assert forall|k: int| 0 <= k < all1.len() implies same_status(#[trigger] all1[k], all2[k]) by {
        assert(status_matches(all1[k], tasks[k], events, today));
        assert(status_matches(all2[k], tasks[k], events, today));
    }
    lemma_selected_congruent(all1, all2, q, only);
    lemma_selected_congruent(all1, all2, None, Some(due_buckets()));
}

/// The search law of `list_tasks`: with no bucket filter, a status is kept by
/// a query as soon as one of its task's id, name, notes or vendor id, lower
/// cased, contains the lower-cased query; and every status kept has one such
/// field.
pub proof fn lemma_query_searches_every_field(v: Seq<TaskStatus>, q: Seq<char>, k: int)
    requires
        0 <= k < v.len(),
    ensures
        ({
            let t = v[k].task;
            let lq = lowercase(q);
            has_substring(lowercase(t.id@), lq) || has_substring(lowercase(t.name@), lq)
                || (t.notes matches Some(n) && has_substring(lowercase(n@), lq))
                || (t.vendor matches Some(w) && has_substring(lowercase(w@), lq))
        }) ==> selected(v, Some(q), None).contains(v[k]),
        forall|i: int|
            0 <= i < selected(v, Some(q), None).len() ==> {
                let t = (#[trigger] selected(v, Some(q), None)[i]).task;
                let lq = lowercase(q);
                has_substring(lowercase(t.id@), lq) || has_substring(lowercase(t.name@), lq)
                    || has_substring(lowercase(or_empty(t.notes)), lq) || has_substring(
                    lowercase(or_empty(t.vendor)),
                    lq,
                )
            },
{
    lemma_selected_is_filter(v, Some(q), None);
}

/// The history law: every completion that `history` returns comes from the
/// log and passes every filter given (its task id is the one asked for, and
/// it was done on or after the since-date), whatever the other filter is;
/// and every completion of the log that passes them is returned, in log
/// order.
pub proof fn lemma_history_is_filter(cs: Seq<Completion>, id: Option<Seq<char>>, since: Option<Date>)
    ensures
        forall|i: int|
            0 <= i < history_of(cs, id, since).len() ==> {
                let c = #[trigger] history_of(cs, id, since)[i];
                &&& cs.contains(c)
                &&& id matches Some(x) ==> c.id@ == x
                &&& since matches Some(d) ==> d.on_or_before(c.done)
            },
        forall|k: int|
            0 <= k < cs.len() && (id matches Some(x) ==> cs[k].id@ == x) && (since matches Some(d)
                ==> d.on_or_before(cs[k].done)) ==> #[trigger] history_of(cs, id, since).contains(cs[k]),
        history_of(cs, id, since).len() <= cs.len(),
    decreases cs.len(),
{
    if cs.len() > 0 {
        let prev = cs.drop_last();
        lemma_history_is_filter(prev, id, since);
        let r = history_of(cs, id, since);
        let rp = history_of(prev, id, since);
        assert(cs.last() == cs[cs.len() - 1]);
        assert forall|i: int| 0 <= i < r.len() implies {
            let c = #[trigger] r[i];
            &&& cs.contains(c)
            &&& id matches Some(x) ==> c.id@ == x
            &&& since matches Some(d) ==> d.on_or_before(c.done)
        } by {
            if i < rp.len() {
                assert(r[i] == rp[i]);
                let j = choose|j: int| 0 <= j < prev.len() && prev[j] == rp[i];
                assert(cs[j] == prev[j]);
            }
        }
        assert forall|k: int|
            0 <= k < cs.len() && (id matches Some(x) ==> cs[k].id@ == x) && (since matches Some(d)
                ==> d.on_or_before(cs[k].done)) implies #[trigger] r.contains(cs[k]) by {
            if k < cs.len() - 1 {
                assert(prev[k] == cs[k]);
                assert(rp.contains(prev[k]));
                let j = choose|j: int| 0 <= j < rp.len() && rp[j] == prev[k];
                assert(r[j] == rp[j]);
            } else {
                assert(r[r.len() - 1] == cs.last());
            }
        }
    }
}

/// The bucket filter law of `list_tasks`: with no query and a set of buckets,
/// every status kept has a bucket of the set, and every status whose bucket
/// is in the set is kept.
pub proof fn lemma_bucket_filter(v: Seq<TaskStatus>, bs: Seq<Bucket>)
    ensures
        forall|i: int|
            0 <= i < selected(v, None, Some(bs)).len() ==> bs.contains(
                (#[trigger] selected(v, None, Some(bs))[i]).bucket,
            ),
        forall|k: int| 0 <= k < v.len() && bs.contains(v[k].bucket) ==> #[trigger] selected(v, None, Some(bs)).contains(v[k]),
{
    lemma_selected_is_filter(v, None, Some(bs));
}

} // verus!
