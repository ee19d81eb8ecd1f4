//! The data directory and the data-file formats: file paths, the line format
//! of the append-only event log, conversion of raw entries, and validation of
//! vendor references. Reading and writing the files is left to the caller.

use vstd::prelude::*;

use crate::config::{join_path, joined, non_blank, plain_base};
use crate::error::Error;
use crate::model::{raw_task_error, raw_task_ok, task_converted, Completion, Event, Task, Vendor};
use crate::schema::{RawTask, RawVendor};
use crate::status::same_text;
use serde_json::Value;

use crate::text::{chars_of, decimal_text, u64_to_string, slice_chars, string_of, trim_chars};

verus! {

/// Filename of the task definitions (YAML).
pub const TASKS_FILE: &'static str = "tasks.yaml";

/// Filename of the vendor definitions (YAML).
pub const VENDORS_FILE: &'static str = "vendors.yaml";

/// Filename of the append-only event log (JSON Lines).
pub const EVENTS_FILE: &'static str = "completions.jsonl";

/// The directory holding the data files (the git repo), by its path text.
#[derive(Debug, Clone)]
pub struct DataDir {
    /// Filesystem root of the data directory.
    pub root: String,
}

impl DataDir {
    /// Create a `DataDir` rooted at `root`.
    pub fn new(root: String) -> (res: Self)
        ensures
            res.root == root,
    {
        DataDir { root }
    }

    /// Path to the tasks file: the root joined with `tasks.yaml`.
    pub fn tasks_path(&self) -> (res: String)
        ensures
            plain_base(self.root@) ==> joined(self.root@, "tasks.yaml"@, res@),
    {
        proof {
            reveal_strlit("tasks.yaml");
            assert("tasks.yaml"@[0] != '.');
        }
        join_path(self.root.as_str(), TASKS_FILE)
    }

    /// Path to the vendors file: the root joined with `vendors.yaml`.
    pub fn vendors_path(&self) -> (res: String)
        ensures
            plain_base(self.root@) ==> joined(self.root@, "vendors.yaml"@, res@),
    {
        proof {
            reveal_strlit("vendors.yaml");
            assert("vendors.yaml"@[0] != '.');
        }
        join_path(self.root.as_str(), VENDORS_FILE)
    }

    /// Path to the event-log file: the root joined with `completions.jsonl`.
    pub fn events_path(&self) -> (res: String)
        ensures
            plain_base(self.root@) ==> joined(self.root@, "completions.jsonl"@, res@),
    {
        proof {
            reveal_strlit("completions.jsonl");
            assert("completions.jsonl"@[0] != '.');
        }
        join_path(self.root.as_str(), EVENTS_FILE)
    }
}

/// The error for a data file that cannot be parsed: `"<name>: <detail>"`.
pub fn data_file_error(name: &str, detail: &str) -> (res: Error)
    ensures
        res matches Error::DataFile(m) && m@ == name@ + ": "@ + detail@,
{
    let mut m: String = String::from_str(name);
    m.append(": ");
    m.append(detail);
    Error::DataFile(m)
}

/// The index of the first raw task that does not convert, if any.
pub open spec fn first_bad_task(raws: Seq<RawTask>) -> Option<int> {
    if exists|k: int| 0 <= k < raws.len() && !raw_task_ok(#[trigger] raws[k]) {
        Some(
            choose|k: int|
                0 <= k < raws.len() && !raw_task_ok(#[trigger] raws[k]) && forall|j: int|
                    0 <= j < k ==> raw_task_ok(#[trigger] raws[j]),
        )
    } else {
        None
    }
}

/// Converts the entries of `tasks.yaml`, in order. The first entry that does
/// not convert yields `DataFile("tasks.yaml: <its error's message>")`.
pub fn tasks_from_raw(raws: Vec<RawTask>) -> (res: Result<Vec<Task>, Error>)
    ensures
        res is Ok <==> forall|k: int| 0 <= k < raws@.len() ==> raw_task_ok(#[trigger] raws@[k]),
        res matches Ok(v) ==> v@.len() == raws@.len() && forall|k: int|
            0 <= k < raws@.len() ==> task_converted(raws@[k], #[trigger] v@[k]),
        res matches Err(e) ==> exists|k: int, inner: Error|
            0 <= k < raws@.len() && (forall|j: int| 0 <= j < k ==> raw_task_ok(#[trigger] raws@[j]))
                && !raw_task_ok(raws@[k]) && #[trigger] raw_task_error(raws@[k], inner) && (e matches Error::DataFile(m)
                && inner matches Error::Schedule(im) && m@ == "tasks.yaml: cannot parse schedule: "@ + im@),
{
    let mut out: Vec<Task> = Vec::new();
    let mut rest: Vec<RawTask> = raws;
    let ghost all = rest@;
    while rest.len() > 0
        invariant
            out@.len() + rest@.len() == all.len(),
            all == raws@,
            rest@ == all.skip(out@.len() as int),
            forall|k: int| 0 <= k < out@.len() ==> raw_task_ok(#[trigger] all[k]),
            forall|k: int| 0 <= k < out@.len() ==> task_converted(all[k], #[trigger] out@[k]),
        decreases rest@.len(),
    {
        let ghost k = out@.len() as int;
        assert(rest@[0] == all[k]);
        let raw: RawTask = rest.remove(0);
        assert(rest@ =~= all.skip(k + 1));
        match Task::from_raw(raw) {
            Ok(t) => out.push(t),
            Err(e) => {
                proof {
                    reveal_strlit("tasks.yaml");
                    reveal_strlit("cannot parse schedule: ");
                    reveal_strlit("tasks.yaml: cannot parse schedule: ");
                    reveal_strlit(": ");
                }
                let msg: String = e.message();
                let res: Error = data_file_error(TASKS_FILE, msg.as_str());
                proof {
                    assert(e is Schedule);
                    assert(res matches Error::DataFile(m) && m@ == "tasks.yaml"@ + ": "@ + msg@);
                    assert(("tasks.yaml"@ + ": "@ + ("cannot parse schedule: "@ + e->Schedule_0@))
                        =~= "tasks.yaml: cannot parse schedule: "@ + e->Schedule_0@);
                }
                return Err(res);
            },
        }
    }
    assert(out@.len() == all.len());
    Ok(out)
}

/// Converts the entries of `vendors.yaml`, in order.
pub fn vendors_from_raw(raws: Vec<RawVendor>) -> (res: Vec<Vendor>)
    ensures
        res@.len() == raws@.len(),
        forall|k: int|
            0 <= k < raws@.len() ==> (#[trigger] res@[k]).id == raws@[k].id && res@[k].name
                == raws@[k].name && res@[k].phone == raws@[k].phone && res@[k].email
                == raws@[k].email && res@[k].notes == raws@[k].notes,
{
    let mut out: Vec<Vendor> = Vec::new();
    let mut rest: Vec<RawVendor> = raws;
    let ghost all = rest@;
    while rest.len() > 0
        invariant
            out@.len() + rest@.len() == all.len(),
            all == raws@,
            rest@ == all.skip(out@.len() as int),
            forall|k: int|
                0 <= k < out@.len() ==> (#[trigger] out@[k]).id == all[k].id && out@[k].name
                    == all[k].name && out@[k].phone == all[k].phone && out@[k].email
                    == all[k].email && out@[k].notes == all[k].notes,
        decreases rest@.len(),
    {
        let ghost k = out@.len() as int;
        assert(rest@[0] == all[k]);
        let raw: RawVendor = rest.remove(0);
        assert(rest@ =~= all.skip(k + 1));
        out.push(Vendor::from_raw(raw));
    }
    out
}

/// The ids of the vendors, in order.
pub open spec fn vendor_ids(vendors: Seq<Vendor>) -> Seq<Seq<char>> {
    vendors.map_values(|v: Vendor| v.id@)
}

/// The ids of the tasks, in order.
pub open spec fn task_ids(tasks: Seq<Task>) -> Seq<Seq<char>> {
    tasks.map_values(|t: Task| t.id@)
}

/// The task ids, in file order (the values offered when completing a task id
/// on the command line).
pub fn task_id_list(tasks: &Vec<Task>) -> (res: Vec<String>)
    ensures
        res.deep_view() == task_ids(tasks@),
{
    let mut out: Vec<String> = Vec::new();
    let mut i: usize = 0;
    while i < tasks.len()
        invariant
            i <= tasks@.len(),
            out.deep_view() == task_ids(tasks@.take(i as int)),
        decreases tasks@.len() - i,
    {
        out.push(tasks[i].id.clone());
        assert(task_ids(tasks@.take(i + 1)) =~= task_ids(tasks@.take(i as int)).push(tasks@[i as int].id@));
        assert(out.deep_view() =~= task_ids(tasks@.take(i as int)).push(tasks@[i as int].id@));
        i = i + 1;
    }
    assert(tasks@.take(tasks@.len() as int) =~= tasks@);
    out
}

/// The vendor ids, in file order (the values offered when completing a
/// vendor on the command line).
pub fn vendor_id_list(vendors: &Vec<Vendor>) -> (res: Vec<String>)
    ensures
        res.deep_view() == vendor_ids(vendors@),
{
    let mut out: Vec<String> = Vec::new();
    let mut i: usize = 0;
    while i < vendors.len()
        invariant
            i <= vendors@.len(),
            out.deep_view() == vendor_ids(vendors@.take(i as int)),
        decreases vendors@.len() - i,
    {
        out.push(vendors[i].id.clone());
        assert(vendor_ids(vendors@.take(i + 1)) =~= vendor_ids(vendors@.take(i as int)).push(vendors@[i as int].id@));
        assert(out.deep_view() =~= vendor_ids(vendors@.take(i as int)).push(vendors@[i as int].id@));
        i = i + 1;
    }
    assert(vendors@.take(vendors@.len() as int) =~= vendors@);
    out
}

/// Task `t` names no vendor, or one whose id is among `ids`.
pub open spec fn vendor_ref_ok(t: Task, ids: Seq<Seq<char>>) -> bool {
    t.vendor matches Some(v) ==> ids.contains(v@)
}

/// Whether some vendor has the id `id`.
fn has_vendor(vendors: &Vec<Vendor>, id: &String) -> (res: bool)
    ensures
        res == vendor_ids(vendors@).contains(id@),
{
    let mut i: usize = 0;
    while i < vendors.len()
        invariant
            i <= vendors@.len(),
            forall|k: int| 0 <= k < i ==> vendors@[k].id@ != id@,
        decreases vendors@.len() - i,
    {
        if same_text(&vendors[i].id, id) {
            assert(vendor_ids(vendors@)[i as int] == id@);
            return true;
        }
        i = i + 1;
    }
    proof {
        if vendor_ids(vendors@).contains(id@) {
            let k = choose|k: int| 0 <= k < vendor_ids(vendors@).len() && vendor_ids(vendors@)[k] == id@;
            assert(vendors@[k].id@ == id@);
        }
    }
    false
}

/// `e` names the first task whose vendor reference does not resolve, and
/// that vendor id: `UnknownVendor { task_id, vendor_id }`.
pub open spec fn bad_ref_error(tasks: Seq<Task>, vendors: Seq<Vendor>, e: Error) -> bool {
    exists|k: int|
        0 <= k < tasks.len() && (forall|j: int|
            0 <= j < k ==> vendor_ref_ok(#[trigger] tasks[j], vendor_ids(vendors)))
            && !vendor_ref_ok(#[trigger] tasks[k], vendor_ids(vendors)) && (e matches Error::UnknownVendor {
            task_id,
            vendor_id,
        } && task_id@ == tasks[k].id@ && vendor_id@ == tasks[k].vendor->0@)
}

/// Verify that every task's `vendor` reference resolves to a defined vendor;
/// fails with `UnknownVendor` for the first task whose vendor id is not among
/// `vendors`.
pub fn check_vendor_refs(tasks: &Vec<Task>, vendors: &Vec<Vendor>) -> (res: Result<(), Error>)
    ensures
        res is Ok <==> forall|k: int|
            0 <= k < tasks@.len() ==> vendor_ref_ok(#[trigger] tasks@[k], vendor_ids(vendors@)),
        res matches Err(e) ==> bad_ref_error(tasks@, vendors@, e),
{
    let mut i: usize = 0;
    while i < tasks.len()
        invariant
            i <= tasks@.len(),
            forall|k: int| 0 <= k < i ==> vendor_ref_ok(#[trigger] tasks@[k], vendor_ids(vendors@)),
        decreases tasks@.len() - i,
    {
        if let Some(vendor_id) = &tasks[i].vendor {
            if !has_vendor(vendors, vendor_id) {
                return Err(
                    Error::UnknownVendor {
                        task_id: tasks[i].id.clone(),
                        vendor_id: vendor_id.clone(),
                    },
                );
            }
        }
        i = i + 1;
    }
    Ok(())
}

/// The completion events of the log, in order (punts dropped).
pub open spec fn completions_in(events: Seq<Event>) -> Seq<Completion>
    decreases events.len(),
{
    if events.len() == 0 {
        Seq::empty()
    } else {
        let prev = completions_in(events.drop_last());
        match events.last() {
            Event::Completion(c) => prev.push(c),
            Event::Punt(_) => prev,
        }
    }
}

/// Keep only the completion events of the log, in order.
pub fn completions_of(events: &Vec<Event>) -> (res: Vec<Completion>)
    ensures
        res@ == completions_in(events@),
{
    let mut out: Vec<Completion> = Vec::new();
    let mut i: usize = 0;
    while i < events.len()
        invariant
            i <= events@.len(),
            out@ == completions_in(events@.take(i as int)),
        decreases events@.len() - i,
    {
        assert(events@.take(i + 1).drop_last() =~= events@.take(i as int));
        assert(events@.take(i + 1).last() == events@[i as int]);
        match &events[i] {
            Event::Completion(c) => out.push(c.duplicate()),
            Event::Punt(_) => {},
        }
        i = i + 1;
    }
    assert(events@.take(events@.len() as int) =~= events@);
    out
}

/// The index just past the first line of `s` (the position of its first
/// `'\n'`, or the length of `s`).
pub open spec fn line_end(s: Seq<char>) -> int
    decreases s.len(),
{
    if s.len() == 0 || s[0] == '\n' {
        0
    } else {
        1 + line_end(s.drop_first())
    }
}

proof fn lemma_line_end(s: Seq<char>, j: int)
    requires
        0 <= j <= s.len(),
        forall|k: int| 0 <= k < j ==> #[trigger] s[k] != '\n',
        j == s.len() || s[j] == '\n',
    ensures
        line_end(s) == j,
    decreases j,
{
    if j > 0 {
        lemma_line_end(s.drop_first(), j - 1);
    }
}

pub proof fn lemma_line_end_bound(s: Seq<char>)
    ensures
        0 <= line_end(s) <= s.len(),
        line_end(s) < s.len() ==> s[line_end(s)] == '\n',
    decreases s.len(),
{
    if s.len() > 0 && s[0] != '\n' {
        lemma_line_end_bound(s.drop_first());
    }
}

/// A line without the `'\r'` of a `"\r\n"` ending.
pub open spec fn strip_cr(line: Seq<char>) -> Seq<char> {
    if line.len() > 0 && line.last() == '\r' {
        line.drop_last()
    } else {
        line
    }
}

/// The lines of `s` as `str::lines` yields them: split at `'\n'` (dropping a
/// `'\r'` just before it), with no empty line after a final line ending.
pub open spec fn text_lines(s: Seq<char>) -> Seq<Seq<char>>
    decreases s.len(),
{
    if s.len() == 0 {
        Seq::empty()
    } else {
        let e = line_end(s);
        proof {
            lemma_line_end_bound(s);
        }
        if e < s.len() {
            seq![strip_cr(s.take(e))] + text_lines(s.skip(e + 1))
        } else {
            seq![s]
        }
    }
}

/// The non-blank lines of `lines`, each with its 1-based line number.
pub open spec fn numbered_non_blank(lines: Seq<Seq<char>>) -> Seq<(int, Seq<char>)>
    decreases lines.len(),
{
    if lines.len() == 0 {
        Seq::empty()
    } else {
        let prev = numbered_non_blank(lines.drop_last());
        if non_blank(lines.last()) {
            prev.push((lines.len() as int, lines.last()))
        } else {
            prev
        }
    }
}

/// A non-blank line of the event log with its 1-based line number.
#[derive(Debug, Clone)]
pub struct EventLine {
    pub number: usize,
    pub text: String,
}

/// The view of the lines of the event log.
pub open spec fn event_line_views(v: Seq<EventLine>) -> Seq<(int, Seq<char>)> {
    v.map_values(|l: EventLine| (l.number as int, l.text@))
}

/// The lines of `s`.
fn split_lines(s: &Vec<char>) -> (res: Vec<Vec<char>>)
    ensures
        res@.map_values(|l: Vec<char>| l@) == text_lines(s@),
{
    let n: usize = s.len();
    let mut out: Vec<Vec<char>> = Vec::new();
    let mut i: usize = 0;
    assert(s@.skip(0) =~= s@);
    while i < n
        invariant
            i <= n == s@.len(),
            text_lines(s@) == out@.map_values(|l: Vec<char>| l@) + text_lines(s@.skip(i as int)),
        decreases n - i,
    {
        let ghost rest = s@.skip(i as int);
        let mut j: usize = i;
        while j < n && s[j] != '\n'
            invariant
                i <= j <= n == s@.len(),
                forall|k: int| i <= k < j ==> #[trigger] s@[k] != '\n',
            decreases n - j,
        {
            j = j + 1;
        }
        proof {
            lemma_line_end(rest, j - i);
            assert(rest.take(j - i) =~= s@.subrange(i as int, j as int));
        }
        let ghost before = out@.map_values(|l: Vec<char>| l@);
        if j < n {
            let stop: usize = if j > i && s[j - 1] == '\r' { j - 1 } else { j };
            assert(strip_cr(s@.subrange(i as int, j as int)) =~= s@.subrange(i as int, stop as int));
            let line: Vec<char> = slice_chars(s, i, stop);
            out.push(line);
            assert(rest.skip(j - i + 1) =~= s@.skip(j + 1));
            assert(out@.map_values(|l: Vec<char>| l@) =~= before.push(line@));
            assert(before.push(line@) + text_lines(s@.skip(j + 1)) =~= before + (seq![line@]
                + text_lines(s@.skip(j + 1))));
            i = j + 1;
        } else {
            let line: Vec<char> = slice_chars(s, i, n);
            assert(rest =~= s@.subrange(i as int, n as int));
            out.push(line);
            assert(out@.map_values(|l: Vec<char>| l@) =~= before.push(line@));
            assert(s@.skip(n as int) =~= Seq::<char>::empty());
            assert(before + seq![line@] =~= before.push(line@) + Seq::<Seq<char>>::empty());
            i = n;
        }
    }
    assert(s@.skip(n as int) =~= Seq::<char>::empty());
    assert(out@.map_values(|l: Vec<char>| l@) + Seq::<Seq<char>>::empty() =~= out@.map_values(
        |l: Vec<char>| l@,
    ));
    out
}

/// The non-blank lines of the event log `text`, numbered from 1 in file order
/// (blank and whitespace-only lines are skipped but still counted).
pub fn event_lines(text: &str) -> (res: Vec<EventLine>)
    ensures
        event_line_views(res@) == numbered_non_blank(text_lines(text@)),
{
    let chars: Vec<char> = chars_of(text);
    let lines: Vec<Vec<char>> = split_lines(&chars);
    let ghost ls = lines@.map_values(|l: Vec<char>| l@);
    let mut out: Vec<EventLine> = Vec::new();
    let mut i: usize = 0;
    while i < lines.len()
        invariant
            i <= lines@.len(),
            ls == lines@.map_values(|l: Vec<char>| l@),
            event_line_views(out@) == numbered_non_blank(ls.take(i as int)),
        decreases lines@.len() - i,
    {
        assert(ls.take(i + 1).drop_last() =~= ls.take(i as int));
        assert(ls.take(i + 1).last() == lines@[i as int]@);
        let ghost before = out@;
        if trim_chars(&lines[i]).len() > 0 {
            out.push(EventLine { number: i + 1, text: string_of(lines[i].as_slice()) });
            assert(event_line_views(out@) =~= event_line_views(before).push(((i + 1) as int, lines@[i as int]@)));
        }
        i = i + 1;
    }
    assert(ls.take(lines@.len() as int) =~= ls);
    out
}

/// What an event-log line holds as JSON: invalid JSON (with the parser's
/// message), a JSON value that is not an object, or an object with these keys.
pub enum JsonLine {
    Invalid(Seq<char>),
    NotObject,
    Object(Set<Seq<char>>),
}

/// How `serde_json` reads `line`.
pub uninterp spec fn json_line(line: Seq<char>) -> JsonLine;

/// The shape of a parsed event-log line.
pub enum LineShape {
    Invalid(String),
    NotObject,
    Object(Vec<String>),
}

impl View for LineShape {
    type V = JsonLine;

    open spec fn view(&self) -> JsonLine {
        match self {
            LineShape::Invalid(m) => JsonLine::Invalid(m@),
            LineShape::NotObject => JsonLine::NotObject,
            LineShape::Object(keys) => JsonLine::Object(keys.deep_view().to_set()),
        }
    }
}

/// Calls `serde_json::from_str::<serde_json::Value>` on a line and reports its
/// shape: the parser's error message, a non-object value, or the object's
/// keys. The result is named [`json_line`] of the line; JSON's grammar is not
/// spelled out.
#[verifier::external_body]
fn parse_json_line(line: &str) -> (res: LineShape)
    ensures
        res@ == json_line(line@),
{
    match serde_json::from_str::<Value>(line) {
        Err(e) => LineShape::Invalid(e.to_string()),
        Ok(Value::Object(map)) => LineShape::Object(map.into_iter().map(|(k, _)| k).collect()),
        Ok(Value::Null | Value::Bool(_) | Value::Number(_) | Value::String(_) | Value::Array(_)) => {
            LineShape::NotObject
        },
    }
}

/// The kind of event an event-log line holds.
#[derive(Debug, Clone, Copy, PartialEq, Eq, Structural)]
pub enum EventKind {
    Completion,
    Punt,
}

/// `"completions.jsonl: line <n>: "`.
pub open spec fn line_prefix(n: int) -> Seq<char> {
    "completions.jsonl: line "@ + decimal_text(n) + ": "@
}

/// How line `n` of the event log classifies: a line with a `punt_to` key is a
/// punt, else one with a `done` key is a completion; invalid JSON, a value
/// that is not an object, and an object with neither key are rejected with a
/// message naming the line.
pub open spec fn classify_line(shape: JsonLine, n: int) -> Result<EventKind, Seq<char>> {
    match shape {
        JsonLine::Invalid(msg) => Err(line_prefix(n) + msg),
        JsonLine::NotObject => Err(line_prefix(n) + "expected a JSON object"@),
        JsonLine::Object(keys) => if keys.contains("punt_to"@) {
            Ok(EventKind::Punt)
        } else if keys.contains("done"@) {
            Ok(EventKind::Completion)
        } else {
            Err(line_prefix(n) + "unrecognized event (needs 'done' or 'punt_to')"@)
        },
    }
}

/// The error for line `n` of the event log: `"completions.jsonl: line <n>:
/// <detail>"`.
pub fn event_line_error(n: usize, detail: &str) -> (res: Error)
    ensures
        res matches Error::DataFile(m) && m@ == line_prefix(n as int) + detail@,
{
    let mut m: String = String::from_str("completions.jsonl: line ");
    m.append(u64_to_string(n as u64).as_str());
    m.append(": ");
    m.append(detail);
    proof {
        reveal_strlit("completions.jsonl: line ");
        reveal_strlit(": ");
    }
    Error::DataFile(m)
}

/// Whether one of `keys` is `key`.
fn has_key(keys: &Vec<String>, key: &str) -> (res: bool)
    ensures
        res == keys.deep_view().to_set().contains(key@),
{
    let k: String = String::from_str(key);
    let mut i: usize = 0;
    while i < keys.len()
        invariant
            i <= keys@.len(),
            k@ == key@,
            forall|j: int| 0 <= j < i ==> keys@[j]@ != key@,
        decreases keys@.len() - i,
    {
        if same_text(&keys[i], &k) {
            assert(keys.deep_view()[i as int] == key@);
            assert(keys.deep_view().contains(key@));
            return true;
        }
        i = i + 1;
    }
    proof {
        if keys.deep_view().to_set().contains(key@) {
            assert(keys.deep_view().contains(key@));
            let j = choose|j: int| 0 <= j < keys.deep_view().len() && keys.deep_view()[j] == key@;
            assert(keys@[j]@ == key@);
        }
    }
    false
}

/// Classifies line `n` (1-based) of the event log by its JSON keys.
pub fn classify_event_line(line: &str, n: usize) -> (res: Result<EventKind, Error>)
    ensures
        match classify_line(json_line(line@), n as int) {
            Ok(k) => res == Ok::<EventKind, Error>(k),
            Err(msg) => res matches Err(Error::DataFile(m)) && m@ == msg,
        },
{
    match parse_json_line(line) {
        LineShape::Invalid(msg) => Err(event_line_error(n, msg.as_str())),
        LineShape::NotObject => Err(event_line_error(n, "expected a JSON object")),
        LineShape::Object(keys) => {
            if has_key(&keys, "punt_to") {
                Ok(EventKind::Punt)
            } else if has_key(&keys, "done") {
                Ok(EventKind::Completion)
            } else {
                Err(event_line_error(n, "unrecognized event (needs 'done' or 'punt_to')"))
            }
        },
    }
}

/// The data files to commit, given which of them exist: the existing ones,
/// in the order `tasks.yaml`, `vendors.yaml`, `completions.jsonl` (a missing
/// optional file is left out so that staging it cannot fail).
pub open spec fn files_to_commit(tasks: bool, vendors: bool, events: bool) -> Seq<Seq<char>> {
    (if tasks { seq!["tasks.yaml"@] } else { Seq::empty() }) + (if vendors {
        seq!["vendors.yaml"@]
    } else {
        Seq::empty()
    }) + (if events { seq!["completions.jsonl"@] } else { Seq::empty() })
}

/// The names of the data files to commit, given which of them exist.
pub fn commit_files(tasks: bool, vendors: bool, events: bool) -> (res: Vec<String>)
    ensures
        res.deep_view() == files_to_commit(tasks, vendors, events),
{
    let mut out: Vec<String> = Vec::new();
    if tasks {
        out.push(String::from_str(TASKS_FILE));
    }
    if vendors {
        out.push(String::from_str(VENDORS_FILE));
    }
    if events {
        out.push(String::from_str(EVENTS_FILE));
    }
    assert(out.deep_view() =~= files_to_commit(tasks, vendors, events));
    out
}

} // verus!
