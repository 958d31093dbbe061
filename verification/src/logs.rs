//! Which records of the log are shown.

use crate::codec::{decode, encode, json_parse, json_text};
use crate::json::{json_views, Json, JsonView};
use crate::task::opt_text;
use crate::text::{contains, has_text, str_eq, views};
use vstd::prelude::*;

verus! {

/// What records are asked for.
#[derive(Debug)]
pub struct LogFilter {
    pub component: Option<String>,
    pub correlation_id: Option<String>,
    pub request_id: Option<String>,
    pub task_id: Option<String>,
    pub connection_id: Option<String>,
    pub since_ms: Option<u64>,
    pub tail: usize,
}

/// The components whose logs are read.
pub fn log_components(component: &Option<String>) -> (r: Vec<String>)
    ensures
        views(r@) == (match *component {
            Some(c) => seq![c@],
            None => seq!["controller"@, "executor"@, "peer"@],
        }),
{
    let mut out: Vec<String> = Vec::new();
    match component {
        Some(c) => {
            out.push(c.clone());
            assert(views(out@) =~= seq![c@]);
        },
        None => {
            out.push("controller".to_owned());
            out.push("executor".to_owned());
            out.push("peer".to_owned());
            assert(views(out@) =~= seq!["controller"@, "executor"@, "peer"@]);
        },
    }
    out
}

/// The first task of an identity among some, from a position.
pub open spec fn task_from(tasks: Seq<JsonView>, id: Seq<char>, from: int) -> Option<JsonView>
    decreases tasks.len() - from,
{
    if from < 0 || from >= tasks.len() {
        None
    } else if tasks[from].get_str("id"@) == Some(id) {
        Some(tasks[from])
    } else {
        task_from(tasks, id, from + 1)
    }
}

/// The correlation of a task, where the state of a controller knows it.
pub open spec fn correlation_view(state: JsonView, id: Seq<char>) -> Option<Seq<char>> {
    match state.get_array("tasks"@) {
        Some(tasks) => match task_from(tasks, id, 0) {
            Some(t) => t.get_str("correlationId"@),
            None => None,
        },
        None => None,
    }
}

/// The correlation of a task, where the state of a controller knows it.
pub fn task_correlation(state: &Json, task_id: &str) -> (r: Option<String>)
    ensures
        opt_text(r) == correlation_view(state@, task_id@),
{
    let tasks = match state.get_array("tasks") {
        Some(t) => t,
        None => return None,
    };
    let ghost all = json_views(tasks@);
    let mut i: usize = 0;
    while i < tasks.len()
        invariant
            i <= tasks@.len(),
            all == json_views(tasks@),
            state@.get_array("tasks"@) == Some(all),
            task_from(all, task_id@, 0) == task_from(all, task_id@, i as int),
        decreases tasks@.len() - i,
    {
        assert(all[i as int] == tasks@[i as int]@);
        let same = match tasks[i].get_str("id") {
            Some(s) => str_eq(s, task_id),
            None => false,
        };
        if same {
            return tasks[i].get_text("correlationId");
        }
        i += 1;
    }
    None
}

/// The documents that the first `n` lines hold; lines that hold none are passed over.
pub open spec fn records_view(lines: Seq<Seq<char>>, n: int) -> Seq<JsonView>
    decreases n,
{
    if n <= 0 {
        Seq::empty()
    } else {
        match json_parse(vstd::utf8::encode_utf8(lines[n - 1])) {
            Ok(j) => records_view(lines, n - 1).push(j),
            Err(_) => records_view(lines, n - 1),
        }
    }
}

/// The documents that lines hold; lines that hold none are passed over.
pub fn parse_records(lines: &Vec<String>) -> (r: Vec<Json>)
    ensures
        json_views(r@) == records_view(views(lines@), lines@.len() as int),
{
    let ghost all = views(lines@);
    let mut out: Vec<Json> = Vec::new();
    let mut i: usize = 0;
    proof {
        assert(json_views(out@) =~= Seq::empty());
    }
    while i < lines.len()
        invariant
            i <= lines@.len(),
            all == views(lines@),
            json_views(out@) == records_view(all, i as int),
        decreases lines@.len() - i,
    {
        assert(all[i as int] == lines@[i as int]@);
        if let Ok(j) = decode(lines[i].as_str().as_bytes()) {
            let ghost before = out@;
            let ghost added = j@;
            out.push(j);
            proof {
                assert(json_views(out@) =~= json_views(before).push(added));
            }
        }
        i += 1;
    }
    out
}

/// Whether a text is asked for that a record does not hold.
pub open spec fn lacks(text: Seq<char>, needle: Option<Seq<char>>) -> bool {
    needle matches Some(n) && !has_text(text, n)
}

/// Whether a record, whose text is given, is one of those asked for.
pub open spec fn is_wanted(record: JsonView, text: Seq<char>, f: LogFilter, correlation: Option<Seq<char>>) -> bool {
    &&& (f.since_ms matches Some(since) ==> record.u64_or("timestamp"@, 0) >= since)
    &&& !lacks(text, opt_text(f.correlation_id))
    &&& !lacks(text, opt_text(f.request_id))
    &&& !lacks(text, opt_text(f.connection_id))
    &&& (lacks(text, opt_text(f.task_id)) ==> (correlation matches Some(c) && has_text(text, c)))
}

fn misses(text: &str, needle: &Option<String>) -> (r: bool)
    ensures
        r == lacks(text@, opt_text(*needle)),
{
    match needle {
        Some(n) => !contains(text, n.as_str()),
        None => false,
    }
}

/// Decides whether a record, whose text is given, is one of those asked for. One of the wanted task
/// is also found by the correlation of the task.
pub fn wants(record: &Json, text: &str, f: &LogFilter, correlation: &Option<String>) -> (r: bool)
    ensures
        r == is_wanted(record@, text@, *f, opt_text(*correlation)),
{
    if let Some(since) = f.since_ms {
        if record.u64_or("timestamp", 0) < since {
            return false;
        }
    }
    if misses(text, &f.correlation_id) || misses(text, &f.request_id) || misses(text, &f.connection_id) {
        return false;
    }
    if misses(text, &f.task_id) {
        return match correlation {
            Some(c) => contains(text, c.as_str()),
            None => false,
        };
    }
    true
}

/// The time of a record.
pub open spec fn record_time(j: JsonView) -> u64 {
    j.u64_or("timestamp"@, 0)
}

/// Where a record belongs among others, from a position: before the first that is later.
pub open spec fn later_from(items: Seq<JsonView>, time: u64, from: int) -> int
    decreases items.len() - from,
{
    if from < 0 || from >= items.len() || record_time(items[from]) > time {
        from
    } else {
        later_from(items, time, from + 1)
    }
}

/// The wanted ones of the first `n` records, oldest first; of the same time the first first.
pub open spec fn wanted_view(records: Seq<JsonView>, n: int, f: LogFilter, correlation: Option<Seq<char>>) -> Seq<JsonView>
    decreases n,
{
    if n <= 0 {
        Seq::empty()
    } else {
        let before = wanted_view(records, n - 1, f, correlation);
        let r = records[n - 1];
        if is_wanted(r, json_text(r), f, correlation) {
            before.insert(later_from(before, record_time(r), 0), r)
        } else {
            before
        }
    }
}

/// The last of some records.
pub open spec fn last_of(items: Seq<JsonView>, tail: nat) -> Seq<JsonView> {
    if items.len() <= tail {
        items
    } else {
        items.skip(items.len() - tail)
    }
}

proof fn lemma_later(items: Seq<JsonView>, time: u64, from: int)
    requires
        0 <= from <= items.len(),
    ensures
        from <= later_from(items, time, from) <= items.len(),
        forall|k: int| from <= k < later_from(items, time, from) ==> record_time(#[trigger] items[k]) <= time,
        later_from(items, time, from) < items.len() ==> record_time(items[later_from(items, time, from)]) > time,
    decreases items.len() - from,
{
    if from < items.len() && record_time(items[from]) <= time {
        lemma_later(items, time, from + 1);
    }
}

/// The records that are shown stand in the order of their times.
pub proof fn shown_records_are_in_order(records: Seq<JsonView>, n: int, f: LogFilter, correlation: Option<Seq<char>>, i: int, k: int)
    requires
        0 <= n <= records.len(),
        0 <= i <= k < wanted_view(records, n, f, correlation).len(),
    ensures
        record_time(wanted_view(records, n, f, correlation)[i]) <= record_time(
            wanted_view(records, n, f, correlation)[k],
        ),
    decreases n,
{
    if n > 0 {
        let before = wanted_view(records, n - 1, f, correlation);
        let r = records[n - 1];
        if is_wanted(r, json_text(r), f, correlation) {
            let p = later_from(before, record_time(r), 0);
            lemma_later(before, record_time(r), 0);
            if k == p {
            } else if i == p {
                if k - 1 > p {
                    shown_records_are_in_order(records, n - 1, f, correlation, p, k - 1);
                }
            } else {
                let a = if i > p {
                    i - 1
                } else {
                    i
                };
                let b = if k > p {
                    k - 1
                } else {
                    k
                };
                shown_records_are_in_order(records, n - 1, f, correlation, a, b);
            }
        } else {
            shown_records_are_in_order(records, n - 1, f, correlation, i, k);
        }
    }
}

/// Selects the records that are shown: those that are asked for, oldest first, and of them the last.
pub fn select_logs(records: &Vec<Json>, f: &LogFilter, correlation: &Option<String>) -> (r: Vec<Json>)
    ensures
        json_views(r@) == last_of(
            wanted_view(json_views(records@), records@.len() as int, *f, opt_text(*correlation)),
            f.tail as nat,
        ),
{
    let ghost all = json_views(records@);
    let ghost c = opt_text(*correlation);
    let mut out: Vec<Json> = Vec::new();
    let mut i: usize = 0;
    proof {
        assert(json_views(out@) =~= Seq::empty());
    }
    while i < records.len()
        invariant
            i <= records@.len(),
            all == json_views(records@),
            c == opt_text(*correlation),
            json_views(out@) == wanted_view(all, i as int, *f, c),
        decreases records@.len() - i,
    {
        assert(all[i as int] == records@[i as int]@);
        let text = encode(&records[i]);
        if wants(&records[i], text.as_str(), f, correlation) {
            let time = records[i].u64_or("timestamp", 0);
            let ghost before = json_views(out@);
            let mut p: usize = 0;
            proof {
                lemma_later(before, time, 0);
                assert(before.len() == out@.len());
            }
            while p < out.len() && out[p].u64_or("timestamp", 0) <= time
                invariant
                    p <= out@.len(),
                    before == json_views(out@),
                    before.len() == out@.len(),
                    forall|k: int| 0 <= k < out@.len() ==> #[trigger] before[k] == out@[k]@,
                    later_from(before, time, 0) == later_from(before, time, p as int),
                decreases out@.len() - p,
            {
                assert(before[p as int] == out@[p as int]@);
                p += 1;
            }
            proof {
                if p < out@.len() {
                    assert(before[p as int] == out@[p as int]@);
                }
            }
            let ghost held = out@;
            let copy = records[i].copy();
            let ghost added = copy@;
            out.insert(p, copy);
            proof {
                assert(json_views(out@) =~= before.insert(p as int, added));
            }
        }
        i += 1;
    }
    let ghost sorted = json_views(out@);
    assert(sorted.len() == out@.len());
    if out.len() <= f.tail {
        return out;
    }
    let from: usize = out.len() - f.tail;
    let mut shown: Vec<Json> = Vec::new();
    let mut k: usize = from;
    while k < out.len()
        invariant
            from <= k <= out@.len(),
            sorted == json_views(out@),
            shown@.len() == k - from,
            forall|j: int| 0 <= j < shown@.len() ==> (#[trigger] shown@[j])@ == sorted[from + j],
        decreases out@.len() - k,
    {
        assert(sorted[k as int] == out@[k as int]@);
        shown.push(out[k].copy());
        k += 1;
    }
    assert(json_views(shown@) =~= sorted.skip(from as int));
    shown
}

/// A record is shown exactly where it is not before the time that is asked for, and its text holds
/// every name that is asked for; for a task, also the name under which the task was followed does.
pub proof fn shown_records_are_those_asked_for(record: JsonView, text: Seq<char>, f: LogFilter, correlation: Option<Seq<char>>)
    ensures
        is_wanted(record, text, f, correlation) == ((f.since_ms matches Some(t) ==> t <= record_time(record)) && (
        f.correlation_id matches Some(x) ==> has_text(text, x@)) && (f.request_id matches Some(x) ==> has_text(text, x@))
            && (f.connection_id matches Some(x) ==> has_text(text, x@)) && (f.task_id matches Some(x) ==> has_text(text, x@)
            || (correlation matches Some(c) && has_text(text, c)))),
{
}

proof fn lemma_later_bounds(items: Seq<JsonView>, time: u64, from: int)
    requires
        0 <= from <= items.len(),
    ensures
        from <= later_from(items, time, from) <= items.len(),
    decreases items.len() - from,
{
    if from < items.len() {
        lemma_later_bounds(items, time, from + 1);
    }
}

/// No record that is asked for is lost, and none is shown that is not asked for.
pub proof fn wanted_records_are_all_there(records: Seq<JsonView>, n: int, f: LogFilter, correlation: Option<Seq<char>>, r: JsonView)
    requires
        0 <= n <= records.len(),
    ensures
        wanted_view(records, n, f, correlation).contains(r) <==> is_wanted(r, json_text(r), f, correlation) && exists|i: int|
            0 <= i < n && #[trigger] records[i] == r,
        wanted_view(records, n, f, correlation).len() <= n,
    decreases n,
{
    if n > 0 {
        wanted_records_are_all_there(records, n - 1, f, correlation, r);
        let before = wanted_view(records, n - 1, f, correlation);
        let after = wanted_view(records, n, f, correlation);
        let last = records[n - 1];
        let s = later_from(before, record_time(last), 0);
        lemma_later_bounds(before, record_time(last), 0);
        if is_wanted(last, json_text(last), f, correlation) {
            assert(after == before.insert(s, last));
            assert(after[s] == last);
            if before.contains(r) {
                let x = choose|x: int| 0 <= x < before.len() && before[x] == r;
                assert(after[if x < s {
                    x
                } else {
                    x + 1
                }] == r);
            }
            if after.contains(r) {
                let x = choose|x: int| 0 <= x < after.len() && after[x] == r;
                if x != s {
                    assert(before[if x < s {
                        x
                    } else {
                        x - 1
                    }] == r);
                }
            }
        }
        if exists|i: int| 0 <= i < n && #[trigger] records[i] == r {
            let i = choose|i: int| 0 <= i < n && #[trigger] records[i] == r;
            if i < n - 1 {
                assert(records[i] == r);
            }
        }
    }
}

} // verus!
