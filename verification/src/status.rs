//! The status engine: folds events over tasks to compute due dates and
//! urgency buckets. `today` is the only time input, injected by the caller,
//! so results are deterministic.

use vstd::prelude::*;

use crate::date::Date;
use crate::error::Error;
use crate::model::{Completion, Event, Punt, Task};
use crate::schedule::{date_minus, jiff_sub_error, out_of_range_message, shifted, Schedule};
use crate::text::chars_of;

verus! {

/// Urgency classification for a task at a given `today`.
#[derive(Debug, Clone, Copy, PartialEq, Eq, Structural)]
pub enum Bucket {
    /// The next occurrence is in the past.
    Overdue,
    /// The next occurrence is today.
    Due,
    /// Inside the lead-time prep window but not yet due.
    Prep,
    /// Not due and not yet in the prep window (named `ok` in output).
    Upcoming,
}

impl Bucket {
    /// The bucket's lower-case name, as it appears in JSON output.
    pub fn name(&self) -> (res: &'static str)
        ensures
            res@ == bucket_name(*self),
    {
        match self {
            Bucket::Overdue => "overdue",
            Bucket::Due => "due",
            Bucket::Prep => "prep",
            Bucket::Upcoming => "ok",
        }
    }
}

/// The lower-case name of a bucket.
pub open spec fn bucket_name(b: Bucket) -> Seq<char> {
    match b {
        Bucket::Overdue => "overdue"@,
        Bucket::Due => "due"@,
        Bucket::Prep => "prep"@,
        Bucket::Upcoming => "ok"@,
    }
}

/// The computed status of a single task.
#[derive(Debug, Clone)]
pub struct TaskStatus {
    /// The task this status describes (owned copy).
    pub task: Task,
    /// The most recent completion date, if any.
    pub last_done: Option<Date>,
    /// The next date the task is due.
    pub next_due: Date,
    /// The date the prep window opens, if the task has a lead time.
    pub prep_due: Option<Date>,
    /// The urgency bucket relative to `today`.
    pub bucket: Bucket,
}

/// The later of two dates.
pub open spec fn later(a: Date, b: Date) -> Date {
    if a.before(b) { b } else { a }
}

/// The fold of the event log for task `id`: its latest completion date and
/// any pending punt. A completion advances the latest date and clears a
/// pending punt; a punt sets the pending punt.
pub open spec fn resolve_events(id: Seq<char>, events: Seq<Event>) -> (Option<Date>, Option<Date>)
    decreases events.len(),
{
    if events.len() == 0 {
        (None, None)
    } else {
        let prev = resolve_events(id, events.drop_last());
        match events.last() {
            Event::Completion(c) => if c.id@ == id {
                (
                    Some(
                        match prev.0 {
                            Some(d) => later(d, c.done),
                            None => c.done,
                        },
                    ),
                    None,
                )
            } else {
                prev
            },
            Event::Punt(p) => if p.id@ == id {
                (prev.0, Some(p.punt_to))
            } else {
                prev
            },
        }
    }
}

/// The bucket of a task whose next due date is `next_due` and whose prep
/// window opens on `prep_due`, as of `today`.
pub open spec fn bucket_of(next_due: Date, prep_due: Option<Date>, today: Date) -> Bucket {
    if next_due.before(today) {
        Bucket::Overdue
    } else if next_due == today {
        Bucket::Due
    } else if prep_due matches Some(p) && p.on_or_before(today) && today.before(next_due) {
        Bucket::Prep
    } else {
        Bucket::Upcoming
    }
}

/// The next due date of `task` given its resolved history: a pending punt
/// wins; otherwise the schedule projects from the latest completion, or, when
/// never done, from the task's `start` (or `today`).
pub open spec fn next_due_of(task: Task, last_done: Option<Date>, punt_to: Option<Date>, today: Date) -> Option<Date> {
    match (punt_to, last_done) {
        (Some(p), _) => Some(p),
        (None, Some(d)) => task.schedule.spec_next_due(d),
        (None, None) => task.schedule.spec_first_due(
            match task.start {
                Some(s) => s,
                None => today,
            },
        ),
    }
}

/// The status fields of one task: (last_done, next_due, prep_due, bucket), or
/// `None` when date arithmetic leaves the representable range.
pub open spec fn status_of(task: Task, events: Seq<Event>, today: Date) -> Option<
    (Option<Date>, Date, Option<Date>, Bucket),
> {
    let r = resolve_events(task.id@, events);
    match next_due_of(task, r.0, r.1, today) {
        None => None,
        Some(n) => match task.lead_time {
            None => Some((r.0, n, None, bucket_of(n, None, today))),
            Some(i) => match shifted(n, i, -1) {
                None => None,
                Some(p) => Some((r.0, n, Some(p), bucket_of(n, Some(p), today))),
            },
        },
    }
}

/// The message of the error when the status of `task` cannot be computed:
/// the schedule's, when no next due date follows the latest completion or the
/// start, else `jiff`'s, when the prep window cannot be opened before the due
/// date.
pub open spec fn status_error(task: Task, events: Seq<Event>, today: Date) -> Seq<char> {
    let r = resolve_events(task.id@, events);
    match next_due_of(task, r.0, r.1, today) {
        None => match r.0 {
            Some(d) => task.schedule.next_due_error(d),
            None => out_of_range_message(),
        },
        Some(n) => match task.lead_time {
            Some(i) => jiff_sub_error(n, i),
            None => Seq::empty(),
        },
    }
}

/// `e` is the error of computing the statuses of `tasks`: that of the first
/// task whose status cannot be computed.
pub open spec fn status_failure(tasks: Seq<Task>, events: Seq<Event>, today: Date, e: Error) -> bool {
    exists|k: int|
        0 <= k < tasks.len() && (forall|j: int|
            0 <= j < k ==> (#[trigger] status_of(tasks[j], events, today)) is Some) && (#[trigger] status_of(
            tasks[k],
            events,
            today,
        )) is None && (e matches Error::Schedule(m) && m@ == status_error(tasks[k], events, today))
}

/// `s` is the status that the engine owes for `task`.
pub open spec fn status_matches(s: TaskStatus, task: Task, events: Seq<Event>, today: Date) -> bool {
    &&& s.task@ == task@
    &&& status_of(task, events, today) == Some((s.last_done, s.next_due, s.prep_due, s.bucket))
}

/// The ordering facts that every computed status satisfies: dates are real
/// dates, the prep window opens strictly before the due date, and without a
/// pending punt the due date lies strictly after the latest completion.
pub open spec fn status_ordered(s: TaskStatus, task: Task, events: Seq<Event>) -> bool {
    &&& s.next_due.wf()
    &&& (s.prep_due matches Some(p) ==> p.wf() && p.before(s.next_due))
    &&& (resolve_events(task.id@, events).1 is None ==> (s.last_done matches Some(d)
        ==> d.before(s.next_due)))
}

/// Every event date is a real date.
pub open spec fn events_wf(events: Seq<Event>) -> bool {
    forall|k: int| 0 <= k < events.len() ==> (#[trigger] events[k]).wf()
}

/// Every task is well formed.
pub open spec fn tasks_wf(tasks: Seq<Task>) -> bool {
    forall|k: int| 0 <= k < tasks.len() ==> (#[trigger] tasks[k]).wf()
}

/// Dates produced by the fold are real dates.
proof fn lemma_resolve_wf(id: Seq<char>, events: Seq<Event>)
    requires
        events_wf(events),
    ensures
        resolve_events(id, events).0 matches Some(d) ==> d.wf(),
        resolve_events(id, events).1 matches Some(d) ==> d.wf(),
    decreases events.len(),
{
    if events.len() > 0 {
        assert(events.last() == events[events.len() - 1]);
        lemma_resolve_wf(id, events.drop_last());
    }
}

/// Whether the strings `a` and `b` are equal.
pub fn same_text(a: &String, b: &String) -> (res: bool)
    ensures
        res == (a@ == b@),
{
    let x: Vec<char> = chars_of(a.as_str());
    let y: Vec<char> = chars_of(b.as_str());
    if x.len() != y.len() {
        return false;
    }
    let mut i: usize = 0;
    while i < x.len()
        invariant
            x@ == a@,
            y@ == b@,
            x@.len() == y@.len(),
            i <= x@.len(),
            forall|k: int| 0 <= k < i ==> x@[k] == y@[k],
        decreases x@.len() - i,
    {
        if x[i] != y[i] {
            return false;
        }
        i = i + 1;
    }
    assert(x@ =~= y@);
    true
}

/// Resolve a task's event history into its latest completion and any pending
/// punt, by folding the events in order.
///
/// A completion both advances `last_done` (taking the latest date seen) and
/// clears any pending punt, since completing a task supersedes a deferral.
/// A later punt re-establishes a deferral.
fn resolve(task_id: &String, events: &Vec<Event>) -> (res: (Option<Date>, Option<Date>))
    ensures
        res == resolve_events(task_id@, events@),
{
    let mut last_done: Option<Date> = None;
    let mut punt_to: Option<Date> = None;
    let mut i: usize = 0;
    while i < events.len()
        invariant
            i <= events@.len(),
            (last_done, punt_to) == resolve_events(task_id@, events@.take(i as int)),
        decreases events@.len() - i,
    {
        proof {
            assert(events@.take(i + 1).drop_last() =~= events@.take(i as int));
            assert(events@.take(i + 1).last() == events@[i as int]);
        }
        match &events[i] {
            Event::Completion(completion) => {
                if same_text(&completion.id, task_id) {
                    last_done = Some(
                        match last_done {
                            Some(existing) => existing.latest(completion.done),
                            None => completion.done,
                        },
                    );
                    punt_to = None;
                }
            },
            Event::Punt(punt) => {
                if same_text(&punt.id, task_id) {
                    punt_to = Some(punt.punt_to);
                }
            },
        }
        i = i + 1;
    }
    assert(events@.take(events@.len() as int) =~= events@);
    (last_done, punt_to)
}

/// Classify a task into an urgency bucket relative to `today`.
pub fn bucket_for(next_due: Date, prep_due: Option<Date>, today: Date) -> (res: Bucket)
    ensures
        res == bucket_of(next_due, prep_due, today),
{
    if next_due.is_before(&today) {
        Bucket::Overdue
    } else if next_due == today {
        Bucket::Due
    } else {
        let in_prep: bool = match prep_due {
            Some(prep) => (prep.is_before(&today) || prep == today) && today.is_before(&next_due),
            None => false,
        };
        if in_prep {
            Bucket::Prep
        } else {
            Bucket::Upcoming
        }
    }
}

/// The status of one task.
fn status_for(task: &Task, events: &Vec<Event>, today: Date) -> (res: Result<TaskStatus, Error>)
    requires
        task.wf(),
        events_wf(events@),
        today.wf(),
    ensures
        res matches Ok(s) ==> status_matches(s, *task, events@, today),
        res matches Ok(s) ==> status_ordered(s, *task, events@),
        res is Ok <==> status_of(*task, events@, today) is Some,
        res matches Err(e) ==> (e matches Error::Schedule(m) && m@ == status_error(*task, events@, today)),
{
    let (last_done, punt_to) = resolve(&task.id, events);
    proof {
        lemma_resolve_wf(task.id@, events@);
    }
    let next_due: Date = match (punt_to, last_done) {
        (Some(punt), _) => punt,
        (None, Some(done)) => match task.schedule.next_due(done) {
            Ok(d) => d,
            Err(e) => {
                return Err(e);
            },
        },
        (None, None) => {
            let from: Date = match task.start {
                Some(s) => s,
                None => today,
            };
            match task.schedule.first_due(from) {
                Ok(d) => d,
                Err(e) => {
                    return Err(e);
                },
            }
        },
    };
    let prep_due: Option<Date> = match task.lead_time {
        Some(span) => match date_minus(next_due, span) {
            Ok(p) => Some(p),
            Err(e) => {
                return Err(e);
            },
        },
        None => None,
    };
    let bucket: Bucket = bucket_for(next_due, prep_due, today);
    Ok(TaskStatus { task: task.duplicate(), last_done, next_due, prep_due, bucket })
}

/// Compute the status of every task given the event log and the current date.
///
/// For each task the events are folded to find its latest completion and any
/// pending punt, the next due date is derived from the schedule (or the punt),
/// the prep window is computed from the lead time, and an urgency bucket is
/// assigned relative to `today`. Fails with [`Error::Schedule`] when date
/// arithmetic leaves the representable range for some task.
pub fn compute_status(tasks: &Vec<Task>, events: &Vec<Event>, today: Date) -> (res: Result<
    Vec<TaskStatus>,
    Error,
>)
    requires
        tasks_wf(tasks@),
        events_wf(events@),
        today.wf(),
    ensures
        res is Ok <==> forall|k: int|
            0 <= k < tasks@.len() ==> (#[trigger] status_of(tasks@[k], events@, today)) is Some,
        res matches Ok(v) ==> v@.len() == tasks@.len() && forall|k: int|
            0 <= k < tasks@.len() ==> #[trigger] status_matches(v@[k], tasks@[k], events@, today),
        res matches Ok(v) ==> forall|k: int|
            0 <= k < tasks@.len() ==> #[trigger] status_ordered(v@[k], tasks@[k], events@),
        res matches Err(e) ==> status_failure(tasks@, events@, today, e),
{
    let mut statuses: Vec<TaskStatus> = Vec::new();
    let mut i: usize = 0;
    while i < tasks.len()
        invariant
            i <= tasks@.len(),
            tasks_wf(tasks@),
            events_wf(events@),
            today.wf(),
            statuses@.len() == i,
            forall|k: int| 0 <= k < i ==> #[trigger] status_matches(statuses@[k], tasks@[k], events@, today),
            forall|k: int| 0 <= k < i ==> #[trigger] status_ordered(statuses@[k], tasks@[k], events@),
            forall|k: int| 0 <= k < i ==> (#[trigger] status_of(tasks@[k], events@, today)) is Some,
        decreases tasks@.len() - i,
    {
        assert(tasks@[i as int].wf());
        match status_for(&tasks[i], events, today) {
            Ok(s) => {
                statuses.push(s);
            },
            Err(e) => {
                assert(status_of(tasks@[i as int], events@, today) is None);
                return Err(e);
            },
        }
        i = i + 1;
    }
    Ok(statuses)
}

/// Event `e` is a completion of task `id`.
pub open spec fn completes(e: Event, id: Seq<char>) -> bool {
    e matches Event::Completion(c) && c.id@ == id
}

/// The index of the last event about task `id`, if any.
pub open spec fn last_event_for(id: Seq<char>, events: Seq<Event>) -> Option<int>
    decreases events.len(),
{
    if events.len() == 0 {
        None
    } else if events.last().task_id() == id {
        Some(events.len() - 1)
    } else {
        last_event_for(id, events.drop_last())
    }
}

/// The latest-completion law: the fold's `last_done` is `None` exactly when
/// the log holds no completion of the task, and otherwise it is the done date
/// of one of its completions, on or after every other one (so back-dated
/// entries never move it back).
pub proof fn lemma_last_done_is_latest_completion(id: Seq<char>, events: Seq<Event>, k: int)
    ensures
        resolve_events(id, events).0 is None ==> !(0 <= k < events.len() && completes(events[k], id)),
        resolve_events(id, events).0 matches Some(d) ==> exists|j: int|
            0 <= j < events.len() && completes(events[j], id) && #[trigger] events[j]
                == Event::Completion(
                events[j]->Completion_0,
            ) && events[j]->Completion_0.done == d,
        resolve_events(id, events).0 matches Some(d) ==> (0 <= k < events.len() && completes(
            events[k],
            id,
        ) ==> events[k]->Completion_0.done.on_or_before(d)),
    decreases events.len(),
{
    if events.len() > 0 {
        let prev = events.drop_last();
        let n = events.len() - 1;
        assert(events.last() == events[n]);
        if 0 <= k < n {
            assert(prev[k] == events[k]);
        }
        lemma_last_done_is_latest_completion(id, prev, k);
        match resolve_events(id, prev).0 {
            Some(d0) => {
                let j0 = choose|j: int|
                    0 <= j < prev.len() && completes(prev[j], id) && #[trigger] prev[j]
                        == Event::Completion(prev[j]->Completion_0) && prev[j]->Completion_0.done
                        == d0;
                assert(events[j0] == prev[j0]);
            },
            None => {},
        }
    }
}

/// The punt law: a task's pending punt is set by its latest event when that
/// event is a punt, and is cleared when its latest event is a completion (so
/// "complete after punt" makes the completion win and "punt after complete"
/// makes the punt win); events about other tasks never matter.
pub proof fn lemma_pending_punt_is_last_event(id: Seq<char>, events: Seq<Event>)
    ensures
        resolve_events(id, events).1 == match last_event_for(id, events) {
            Some(k) => match events[k] {
                Event::Punt(p) => Some(p.punt_to),
                Event::Completion(_) => None,
            },
            None => None,
        },
        last_event_for(id, events) matches Some(k) ==> 0 <= k < events.len()
            && events[k].task_id() == id,
    decreases events.len(),
{
    if events.len() > 0 {
        let prev = events.drop_last();
        lemma_pending_punt_is_last_event(id, prev);
        assert(events.last() == events[events.len() - 1]);
        if events.last().task_id() != id {
            match last_event_for(id, prev) {
                Some(k) => {
                    assert(prev[k] == events[k]);
                },
                None => {},
            }
        }
    }
}

/// Events about other tasks leave a task's status unchanged: appending one to
/// the log changes neither its fold nor its status.
pub proof fn lemma_other_task_events_ignored(task: Task, events: Seq<Event>, e: Event, today: Date)
    requires
        e.task_id() != task.id@,
    ensures
        resolve_events(task.id@, events.push(e)) == resolve_events(task.id@, events),
        status_of(task, events.push(e), today) == status_of(task, events, today),
{
    assert(events.push(e).drop_last() =~= events);
}

/// The bucket law: a task is overdue exactly when its next due date is before
/// today, due exactly when it is today, in prep exactly when today lies in
/// `[prep_due, next_due)`, and otherwise upcoming (next due after today and
/// the prep window not yet open).
pub proof fn lemma_bucket_partition(next_due: Date, prep_due: Option<Date>, today: Date)
    ensures
        (bucket_of(next_due, prep_due, today) == Bucket::Overdue) == next_due.before(today),
        (bucket_of(next_due, prep_due, today) == Bucket::Due) == (next_due == today),
        (bucket_of(next_due, prep_due, today) == Bucket::Prep) == (prep_due matches Some(p)
            && p.on_or_before(today) && today.before(next_due)),
        (bucket_of(next_due, prep_due, today) == Bucket::Upcoming) ==> today.before(next_due)
            && !(prep_due matches Some(p) && p.on_or_before(today)),
{
}

/// The latest completion date after recording a completion of `id` on
/// `done`, given the fold before it.
pub open spec fn last_done_after(prev: Option<Date>, done: Date) -> Date {
    match prev {
        Some(d) => later(d, done),
        None => done,
    }
}

/// The completion law (what `list` reads back of `done`): appending a
/// completion of the task makes its latest completion the later of the old
/// one and the new date, clears any pending punt, and the task is then due
/// where its schedule projects from that date.
pub proof fn lemma_completion_resets_schedule(task: Task, events: Seq<Event>, c: Completion, today: Date)
    requires
        c.id@ == task.id@,
    ensures
        resolve_events(task.id@, events.push(Event::Completion(c))) == (
            Some(last_done_after(resolve_events(task.id@, events).0, c.done)),
            None::<Date>,
        ),
        status_of(task, events.push(Event::Completion(c)), today) matches Some(s) ==> s.0 == Some(
            last_done_after(resolve_events(task.id@, events).0, c.done),
        ) && task.schedule.spec_next_due(last_done_after(resolve_events(task.id@, events).0, c.done))
            == Some(s.1),
        task.schedule.spec_next_due(last_done_after(resolve_events(task.id@, events).0, c.done)) is None
            ==> status_of(task, events.push(Event::Completion(c)), today) is None,
{
    assert(events.push(Event::Completion(c)).drop_last() =~= events);
}

/// The punt law (what `list` reads back of `punt`): appending a punt of the
/// task to `punt_to` keeps its latest completion and makes it due on
/// `punt_to`, whatever its schedule says.
pub proof fn lemma_punt_sets_next_due(task: Task, events: Seq<Event>, p: Punt, today: Date)
    requires
        p.id@ == task.id@,
    ensures
        resolve_events(task.id@, events.push(Event::Punt(p))) == (
            resolve_events(task.id@, events).0,
            Some(p.punt_to),
        ),
        status_of(task, events.push(Event::Punt(p)), today) matches Some(s) ==> s.0
            == resolve_events(task.id@, events).0 && s.1 == p.punt_to,
        task.lead_time is None ==> status_of(task, events.push(Event::Punt(p)), today) == Some(
            (resolve_events(task.id@, events).0, p.punt_to, None::<Date>, bucket_of(p.punt_to, None, today)),
        ),
{
    assert(events.push(Event::Punt(p)).drop_last() =~= events);
}

/// A status is determined by its task, the log and the day: two statuses
/// that the engine owes for the same inputs agree in every computed field
/// (so `show` reports what `list` reports).
pub proof fn lemma_status_determined(s1: TaskStatus, s2: TaskStatus, task: Task, events: Seq<Event>, today: Date)
    requires
        status_matches(s1, task, events, today),
        status_matches(s2, task, events, today),
    ensures
        s1.last_done == s2.last_done,
        s1.next_due == s2.next_due,
        s1.prep_due == s2.prep_due,
        s1.bucket == s2.bucket,
        s1.task@ == s2.task@,
{
}

/// The events of the log about task `id`, in order.
pub open spec fn events_for(id: Seq<char>, events: Seq<Event>) -> Seq<Event>
    decreases events.len(),
{
    if events.len() == 0 {
        Seq::empty()
    } else {
        let prev = events_for(id, events.drop_last());
        if events.last().task_id() == id {
            prev.push(events.last())
        } else {
            prev
        }
    }
}

/// The fold for task `id` reads only the events about `id`.
pub proof fn lemma_fold_reads_own_events(id: Seq<char>, events: Seq<Event>)
    ensures
        resolve_events(id, events) == resolve_events(id, events_for(id, events)),
    decreases events.len(),
{
    if events.len() > 0 {
        let prev = events.drop_last();
        lemma_fold_reads_own_events(id, prev);
        let own = events_for(id, prev);
        if events.last().task_id() == id {
            assert(own.push(events.last()).drop_last() =~= own);
        }
    }
}

/// The events about `id` of two logs put end to end are those of each log,
/// end to end.
pub proof fn lemma_events_for_concat(id: Seq<char>, a: Seq<Event>, b: Seq<Event>)
    ensures
        events_for(id, a + b) == events_for(id, a) + events_for(id, b),
    decreases b.len(),
{
    if b.len() == 0 {
        assert(a + b =~= a);
        assert(events_for(id, a) + events_for(id, b) =~= events_for(id, a));
    } else {
        let bp = b.drop_last();
        lemma_events_for_concat(id, a, bp);
        assert((a + b).drop_last() =~= a + bp);
        assert((a + b).last() == b.last());
        if b.last().task_id() == id {
            assert(events_for(id, a) + events_for(id, bp).push(b.last()) =~= (events_for(id, a)
                + events_for(id, bp)).push(b.last()));
        }
    }
}

/// Inserting an event about another task anywhere in the log (or, read
/// backwards, removing one) leaves the events about `id` as they were.
pub proof fn lemma_other_event_inserted(id: Seq<char>, events: Seq<Event>, i: int, e: Event)
    requires
        0 <= i <= events.len(),
        e.task_id() != id,
    ensures
        events_for(id, events.insert(i, e)) == events_for(id, events),
{
    let a = events.take(i);
    let b = events.skip(i);
    assert(events.insert(i, e) =~= (a + seq![e]) + b);
    assert(events =~= a + b);
    lemma_events_for_concat(id, a + seq![e], b);
    lemma_events_for_concat(id, a, seq![e]);
    lemma_events_for_concat(id, a, b);
    assert(seq![e].drop_last() =~= Seq::<Event>::empty());
    assert(seq![e].last() == e);
    assert(events_for(id, Seq::<Event>::empty()) == Seq::<Event>::empty());
    assert(events_for(id, seq![e]) == events_for(id, seq![e].drop_last()));
    assert(events_for(id, seq![e]) =~= Seq::<Event>::empty());
    assert(events_for(id, a) + Seq::<Event>::empty() =~= events_for(id, a));
}

/// Events about other tasks are ignored wherever they stand: two logs with
/// the same events about each task, in the same order, give every task the
/// same status (so both computations succeed or both fail, with equal
/// statuses).
pub proof fn lemma_status_reads_own_events(tasks: Seq<Task>, e1: Seq<Event>, e2: Seq<Event>, today: Date)
    requires
        forall|k: int| 0 <= k < tasks.len() ==> events_for(tasks[k].id@, e1) == events_for(#[trigger] tasks[k].id@, e2),
    ensures
        forall|k: int| 0 <= k < tasks.len() ==> #[trigger] status_of(tasks[k], e1, today) == status_of(tasks[k], e2, today),
{
    assert forall|k: int| 0 <= k < tasks.len() implies #[trigger] status_of(tasks[k], e1, today) == status_of(tasks[k], e2, today) by {
        lemma_fold_reads_own_events(tasks[k].id@, e1);
        lemma_fold_reads_own_events(tasks[k].id@, e2);
        assert(events_for(tasks[k].id@, e1) == events_for(tasks[k].id@, e2));
    }
}

/// A repeated event changes nothing: recording the same completion or punt
/// twice in a row gives every task the status that recording it once gives.
pub proof fn lemma_repeated_event_changes_nothing(task: Task, events: Seq<Event>, e: Event, today: Date)
    ensures
        resolve_events(task.id@, events.push(e).push(e)) == resolve_events(task.id@, events.push(e)),
        status_of(task, events.push(e).push(e), today) == status_of(task, events.push(e), today),
{
    let once = events.push(e);
    assert(once.push(e).drop_last() =~= once);
    assert(once.drop_last() =~= events);
}

/// The urgency order of buckets: upcoming, prep, due, overdue.
pub open spec fn bucket_rank(b: Bucket) -> int {
    match b {
        Bucket::Upcoming => 0,
        Bucket::Prep => 1,
        Bucket::Due => 2,
        Bucket::Overdue => 3,
    }
}

/// The bucket only moves forward as today advances: upcoming, then prep,
/// then due, then overdue, never back.
pub proof fn lemma_bucket_moves_forward(next_due: Date, prep_due: Option<Date>, t1: Date, t2: Date)
    requires
        t1.on_or_before(t2),
    ensures
        bucket_rank(bucket_of(next_due, prep_due, t1)) <= bucket_rank(bucket_of(next_due, prep_due, t2)),
{
}

/// The error of computing statuses is determined by the tasks, the log and
/// the day: two operations that fail on the same inputs (`due` and
/// `list_tasks`, say) report the same error.
pub proof fn lemma_status_failure_unique(tasks: Seq<Task>, events: Seq<Event>, today: Date, e1: Error, e2: Error)
    requires
        status_failure(tasks, events, today, e1),
        status_failure(tasks, events, today, e2),
    ensures
        e1@ == e2@,
{
    let k1 = choose|k: int|
        0 <= k < tasks.len() && (forall|j: int|
            0 <= j < k ==> (#[trigger] status_of(tasks[j], events, today)) is Some) && (#[trigger] status_of(
            tasks[k],
            events,
            today,
        )) is None && (e1 matches Error::Schedule(m) && m@ == status_error(tasks[k], events, today));
    let k2 = choose|k: int|
        0 <= k < tasks.len() && (forall|j: int|
            0 <= j < k ==> (#[trigger] status_of(tasks[j], events, today)) is Some) && (#[trigger] status_of(
            tasks[k],
            events,
            today,
        )) is None && (e2 matches Error::Schedule(m) && m@ == status_error(tasks[k], events, today));
    if k1 < k2 {
        assert(status_of(tasks[k1], events, today) is Some);
    } else if k2 < k1 {
        assert(status_of(tasks[k2], events, today) is Some);
    }
}

/// The never-done law: a task with no completion and no punt in the log is
/// first due on or after its start date (today when it has none), as its
/// schedule says; and a task with a lead time opens its prep window that
/// lead time before the due date.
pub proof fn lemma_never_done_and_prep(task: Task, events: Seq<Event>, today: Date)
    ensures
        events_for(task.id@, events).len() == 0 ==> (status_of(task, events, today) matches Some(st)
            ==> st.0 is None && task.schedule.spec_first_due(
            match task.start {
                Some(s) => s,
                None => today,
            },
        ) == Some(st.1)),
        status_of(task, events, today) matches Some(st) ==> (task.lead_time matches Some(i) ==> Some(
            st.2->0,
        ) == shifted(st.1, i, -1) && st.2 is Some),
        status_of(task, events, today) matches Some(st) ==> (task.lead_time is None ==> st.2 is None),
{
    lemma_fold_reads_own_events(task.id@, events);
    if events_for(task.id@, events).len() == 0 {
        assert(events_for(task.id@, events) =~= Seq::<Event>::empty());
    }
}

} // verus!
