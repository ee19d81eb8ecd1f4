//! The built-in summary reports: recorded spend per task id, recorded spend
//! per completion year, and counts of tasks by urgency bucket.

use vstd::prelude::*;

use crate::model::Completion;
use crate::status::{same_text, Bucket, TaskStatus};

verus! {

/// Which report to produce.
#[derive(Debug, Clone, Copy, PartialEq, Eq, Structural)]
pub enum ReportKind {
    /// Total recorded spend per task id.
    SpendByTask,
    /// Total recorded spend per completion year.
    PerYear,
    /// Counts of tasks by urgency bucket.
    OverdueCount,
}

/// A computed report.
#[derive(Debug)]
pub enum Report {
    /// `(task id, total cents)`, one entry per task id with a recorded cost.
    SpendByTask(Vec<(String, i128)>),
    /// `(year, total cents)`, one entry per completion year with a recorded
    /// cost.
    PerYear(Vec<(i16, i128)>),
    /// The number of tasks in each of the urgent buckets.
    OverdueCount { overdue: usize, due: usize, prep: usize },
}

/// The recorded spend per task id over `cs`: for each id with at least one
/// completion carrying a cost, the sum of those costs.
pub open spec fn spend_by_task(cs: Seq<Completion>) -> Map<Seq<char>, int>
    decreases cs.len(),
{
    if cs.len() == 0 {
        Map::empty()
    } else {
        let m = spend_by_task(cs.drop_last());
        let c = cs.last();
        match c.cost_cents {
            Some(v) => m.insert(
                c.id@,
                (if m.contains_key(c.id@) { m[c.id@] } else { 0 }) + v,
            ),
            None => m,
        }
    }
}

/// The recorded spend per completion year over `cs`.
pub open spec fn spend_by_year(cs: Seq<Completion>) -> Map<i16, int>
    decreases cs.len(),
{
    if cs.len() == 0 {
        Map::empty()
    } else {
        let m = spend_by_year(cs.drop_last());
        let c = cs.last();
        match c.cost_cents {
            Some(v) => m.insert(
                c.done.year,
                (if m.contains_key(c.done.year) { m[c.done.year] } else { 0 }) + v,
            ),
            None => m,
        }
    }
}

/// The number of statuses in `v` whose bucket is `b`.
pub open spec fn bucket_count(v: Seq<TaskStatus>, b: Bucket) -> nat
    decreases v.len(),
{
    if v.len() == 0 {
        0
    } else {
        bucket_count(v.drop_last(), b) + if v.last().bucket == b { 1nat } else { 0nat }
    }
}

/// The entries `v` spell out the map `m`: distinct keys, exactly the keys of
/// `m`, each with its value.
pub open spec fn entries_are_id_map(v: Seq<(String, i128)>, m: Map<Seq<char>, int>) -> bool {
    &&& forall|i: int, j: int| 0 <= i < v.len() && 0 <= j < v.len() && i != j ==> (#[trigger] v[i]).0@ != (#[trigger] v[j]).0@
    &&& forall|i: int| 0 <= i < v.len() ==> m.contains_key((#[trigger] v[i]).0@) && m[v[i].0@] == v[i].1
    &&& forall|id: Seq<char>| #[trigger] m.contains_key(id) ==> exists|i: int| 0 <= i < v.len() && (#[trigger] v[i]).0@ == id
}

/// The entries `v` spell out the map `m` keyed by year.
pub open spec fn entries_are_year_map(v: Seq<(i16, i128)>, m: Map<i16, int>) -> bool {
    &&& forall|i: int, j: int| 0 <= i < v.len() && 0 <= j < v.len() && i != j ==> (#[trigger] v[i]).0 != (#[trigger] v[j]).0
    &&& forall|i: int| 0 <= i < v.len() ==> m.contains_key((#[trigger] v[i]).0) && m[v[i].0] == v[i].1
    &&& forall|y: i16| #[trigger] m.contains_key(y) ==> exists|i: int| 0 <= i < v.len() && (#[trigger] v[i]).0 == y
}

/// The largest magnitude of one cost.
pub open spec fn cost_bound() -> int {
    9223372036854775808
}

/// Totals the recorded costs per task id.
pub fn total_by_task(cs: &Vec<Completion>) -> (res: Vec<(String, i128)>)
    ensures
        entries_are_id_map(res@, spend_by_task(cs@)),
{
    let mut out: Vec<(String, i128)> = Vec::new();
    let mut i: usize = 0;
    while i < cs.len()
        invariant
            i <= cs@.len(),
            entries_are_id_map(out@, spend_by_task(cs@.take(i as int))),
            forall|j: int| 0 <= j < out@.len() ==> -(i * cost_bound()) <= (#[trigger] out@[j]).1 <= i * cost_bound(),
        decreases cs@.len() - i,
    {
        let ghost before = out@;
        let ghost m = spend_by_task(cs@.take(i as int));
        assert(cs@.take(i + 1).drop_last() =~= cs@.take(i as int));
        assert(cs@.take(i + 1).last() == cs@[i as int]);
        let c: &Completion = &cs[i];
        if let Some(v) = c.cost_cents {
            let mut k: usize = 0;
            while k < out.len() && !same_text(&out[k].0, &c.id)
                invariant
                    k <= out@.len(),
                    out@ == before,
                    forall|j: int| 0 <= j < k ==> out@[j].0@ != c.id@,
                decreases out@.len() - k,
            {
                k = k + 1;
            }
            if k < out.len() {
                let total: i128 = out[k].1 + v as i128;
                let key: String = out[k].0.clone();
                out.set(k, (key, total));
                proof {
                    let m2 = spend_by_task(cs@.take(i + 1));
                    assert(m2 == m.insert(c.id@, m[c.id@] + v));
                    assert forall|id: Seq<char>| #[trigger] m2.contains_key(id) implies exists|j: int|
                        0 <= j < out@.len() && (#[trigger] out@[j]).0@ == id by {
                        if id != c.id@ {
                            let j = choose|j: int| 0 <= j < before.len() && (#[trigger] before[j]).0@ == id;
                            assert(out@[j] == before[j]);
                        } else {
                            assert(out@[k as int].0@ == id);
                        }
                    }
                }
            } else {
                out.push((c.id.clone(), v as i128));
                proof {
                    let m2 = spend_by_task(cs@.take(i + 1));
                    assert(!m.contains_key(c.id@)) by {
                        if m.contains_key(c.id@) {
                            let j = choose|j: int| 0 <= j < before.len() && (#[trigger] before[j]).0@ == c.id@;
                        }
                    }
                    assert(m2 == m.insert(c.id@, 0 + v));
                    assert forall|id: Seq<char>| #[trigger] m2.contains_key(id) implies exists|j: int|
                        0 <= j < out@.len() && (#[trigger] out@[j]).0@ == id by {
                        if id != c.id@ {
                            let j = choose|j: int| 0 <= j < before.len() && (#[trigger] before[j]).0@ == id;
                            assert(out@[j] == before[j]);
                        } else {
                            assert(out@[before.len() as int].0@ == id);
                        }
                    }
                }
            }
        }
        i = i + 1;
    }
    assert(cs@.take(cs@.len() as int) =~= cs@);
    out
}

/// Totals the recorded costs per completion year.
pub fn total_by_year(cs: &Vec<Completion>) -> (res: Vec<(i16, i128)>)
    ensures
        entries_are_year_map(res@, spend_by_year(cs@)),
{
    let mut out: Vec<(i16, i128)> = Vec::new();
    let mut i: usize = 0;
    while i < cs.len()
        invariant
            i <= cs@.len(),
            entries_are_year_map(out@, spend_by_year(cs@.take(i as int))),
            forall|j: int| 0 <= j < out@.len() ==> -(i * cost_bound()) <= (#[trigger] out@[j]).1 <= i * cost_bound(),
        decreases cs@.len() - i,
    {
        let ghost before = out@;
        let ghost m = spend_by_year(cs@.take(i as int));
        assert(cs@.take(i + 1).drop_last() =~= cs@.take(i as int));
        assert(cs@.take(i + 1).last() == cs@[i as int]);
        let c: &Completion = &cs[i];
        let year: i16 = c.done.year;
        if let Some(v) = c.cost_cents {
            let mut k: usize = 0;
            while k < out.len() && out[k].0 != year
                invariant
                    k <= out@.len(),
                    out@ == before,
                    forall|j: int| 0 <= j < k ==> out@[j].0 != year,
                decreases out@.len() - k,
            {
                k = k + 1;
            }
            if k < out.len() {
                let total: i128 = out[k].1 + v as i128;
                out.set(k, (year, total));
                proof {
                    let m2 = spend_by_year(cs@.take(i + 1));
                    assert(m2 == m.insert(year, m[year] + v));
                    assert forall|y: i16| #[trigger] m2.contains_key(y) implies exists|j: int|
                        0 <= j < out@.len() && (#[trigger] out@[j]).0 == y by {
                        if y != year {
                            let j = choose|j: int| 0 <= j < before.len() && (#[trigger] before[j]).0 == y;
                            assert(out@[j] == before[j]);
                        } else {
                            assert(out@[k as int].0 == y);
                        }
                    }
                }
            } else {
                out.push((year, v as i128));
                proof {
                    let m2 = spend_by_year(cs@.take(i + 1));
                    assert(!m.contains_key(year)) by {
                        if m.contains_key(year) {
                            let j = choose|j: int| 0 <= j < before.len() && (#[trigger] before[j]).0 == year;
                        }
                    }
                    assert(m2 == m.insert(year, 0 + v));
                    assert forall|y: i16| #[trigger] m2.contains_key(y) implies exists|j: int|
                        0 <= j < out@.len() && (#[trigger] out@[j]).0 == y by {
                        if y != year {
                            let j = choose|j: int| 0 <= j < before.len() && (#[trigger] before[j]).0 == y;
                            assert(out@[j] == before[j]);
                        } else {
                            assert(out@[before.len() as int].0 == y);
                        }
                    }
                }
            }
        }
        i = i + 1;
    }
    assert(cs@.take(cs@.len() as int) =~= cs@);
    out
}

/// Counts the statuses in `v` whose bucket is `b`.
pub fn count_bucket(v: &Vec<TaskStatus>, b: Bucket) -> (res: usize)
    ensures
        res == bucket_count(v@, b),
{
    let mut n: usize = 0;
    let mut i: usize = 0;
    while i < v.len()
        invariant
            i <= v@.len(),
            n == bucket_count(v@.take(i as int), b),
            n <= i,
        decreases v@.len() - i,
    {
        assert(v@.take(i + 1).drop_last() =~= v@.take(i as int));
        assert(v@.take(i + 1).last() == v@[i as int]);
        if v[i].bucket == b {
            n = n + 1;
        }
        i = i + 1;
    }
    assert(v@.take(v@.len() as int) =~= v@);
    n
}

/// The bucket counts partition the tasks: every status is counted in exactly
/// one of the four buckets.
pub proof fn lemma_bucket_counts_partition(v: Seq<TaskStatus>)
    ensures
        bucket_count(v, Bucket::Overdue) + bucket_count(v, Bucket::Due) + bucket_count(v, Bucket::Prep)
            + bucket_count(v, Bucket::Upcoming) == v.len(),
    decreases v.len(),
{
    if v.len() > 0 {
        lemma_bucket_counts_partition(v.drop_last());
    }
}

/// The total that a spend map holds for `k` (zero when it holds none).
pub open spec fn total_of<K>(m: Map<K, int>, k: K) -> int {
    if m.contains_key(k) { m[k] } else { 0 }
}

/// The per-year spend law: with no completion nothing is spent; recording a
/// completion that carries a cost `v` raises the total of its year by exactly
/// `v` (so a year with several costed completions totals all of them) and
/// leaves every other year as it was; one without a cost changes nothing.
pub proof fn lemma_year_total_adds_cost(cs: Seq<Completion>, c: Completion, y: i16)
    ensures
        spend_by_year(Seq::<Completion>::empty()) == Map::<i16, int>::empty(),
        c.cost_cents matches Some(v) ==> spend_by_year(cs.push(c)).contains_key(c.done.year)
            && total_of(spend_by_year(cs.push(c)), c.done.year) == total_of(spend_by_year(cs), c.done.year) + v,
        (c.cost_cents is None || y != c.done.year) ==> (spend_by_year(cs.push(c)).contains_key(y)
            == spend_by_year(cs).contains_key(y) && total_of(spend_by_year(cs.push(c)), y) == total_of(
            spend_by_year(cs),
            y,
        )),
{
    assert(cs.push(c).drop_last() =~= cs);
    assert(cs.push(c).last() == c);
}

/// The per-task spend law: with no completion nothing is spent; recording a
/// completion that carries a cost `v` raises the total of its task by exactly
/// `v` and leaves every other task as it was; one without a cost changes
/// nothing.
pub proof fn lemma_task_total_adds_cost(cs: Seq<Completion>, c: Completion, id: Seq<char>)
    ensures
        spend_by_task(Seq::<Completion>::empty()) == Map::<Seq<char>, int>::empty(),
        c.cost_cents matches Some(v) ==> spend_by_task(cs.push(c)).contains_key(c.id@) && total_of(
            spend_by_task(cs.push(c)),
            c.id@,
        ) == total_of(spend_by_task(cs), c.id@) + v,
        (c.cost_cents is None || id != c.id@) ==> (spend_by_task(cs.push(c)).contains_key(id)
            == spend_by_task(cs).contains_key(id) && total_of(spend_by_task(cs.push(c)), id) == total_of(
            spend_by_task(cs),
            id,
        )),
{
    assert(cs.push(c).drop_last() =~= cs);
    assert(cs.push(c).last() == c);
}

/// The counting law of the overdue-count report: a status adds one to the
/// count of its own bucket and nothing to the others.
pub proof fn lemma_bucket_count_push(v: Seq<TaskStatus>, s: TaskStatus, b: Bucket)
    ensures
        bucket_count(Seq::<TaskStatus>::empty(), b) == 0,
        s.bucket == b ==> bucket_count(v.push(s), b) == bucket_count(v, b) + 1,
        s.bucket != b ==> bucket_count(v.push(s), b) == bucket_count(v, b),
{
    assert(v.push(s).drop_last() =~= v);
}

} // verus!
