//! Runs and observations: how a run begins and ends, and how the lists of several controllers are
//! put together.

use crate::json::{json_views, text_or_null, Json, JsonView};
use crate::observe::first_chars;
use crate::rpc::{fails, may_have, need, optional_str, required_str, rpc_error, Called, CalledView, RpcError, RpcErrorView};
use crate::schema::{Observation, Run, RunHealth, RunStatus};
use crate::task::{earlier, opt_text, start_of};
use crate::text::{concat2, concat3, opt_eq, str_eq, str_lt, take_chars, text_lt, text_order_is_total, text_order_is_transitive};
use vstd::prelude::*;

verus! {

/// How long observations and ended runs are kept, in milliseconds.
pub const RETENTION_MS: u64 = 2_592_000_000;

/// How large the store of observations may grow, in bytes.
pub const MAX_BYTES: u64 = 1_073_741_824;

/// How many of the oldest observations are taken at once where the store is too large: a tenth,
/// and one at least.
pub open spec fn batch_view(count: nat) -> nat {
    if count / 10 > 1 {
        count / 10
    } else {
        1
    }
}

/// How many of the oldest observations of a store that is too large are taken at once.
pub fn prune_batch(count: u64) -> (r: u64)
    ensures
        r == batch_view(count as nat),
{
    if count / 10 > 1 {
        count / 10
    } else {
        1
    }
}

/// Whether more observations are taken from a store of a size: as long as it is too large, unless
/// the last batch, where there was one, took nothing.
pub fn prune_goes_on(bytes: u64, max_bytes: u64, batch: Option<usize>) -> (r: bool)
    ensures
        r == (bytes > max_bytes && batch != Some(0usize)),
{
    match batch {
        Some(n) => bytes > max_bytes && n != 0,
        None => bytes > max_bytes,
    }
}

/// How many observations are left after the oldest were taken batch by batch, where `bytes` gives
/// the size of the store by how many it holds.
pub open spec fn left_by_size(count: nat, bytes: spec_fn(nat) -> nat, max_bytes: nat) -> nat
    decreases count,
{
    if bytes(count) <= max_bytes || count == 0 {
        count
    } else if batch_view(count) >= count {
        left_by_size(0, bytes, max_bytes)
    } else {
        left_by_size((count - batch_view(count)) as nat, bytes, max_bytes)
    }
}

/// Pruning by size ends with a store that is small enough, or that holds nothing; one that is
/// small enough is left as it is.
pub proof fn pruning_by_size_reaches_its_limit(count: nat, bytes: spec_fn(nat) -> nat, max_bytes: nat)
    ensures
        left_by_size(count, bytes, max_bytes) <= count,
        bytes(left_by_size(count, bytes, max_bytes)) <= max_bytes || left_by_size(count, bytes, max_bytes) == 0,
        bytes(count) <= max_bytes ==> left_by_size(count, bytes, max_bytes) == count,
    decreases count,
{
    if bytes(count) > max_bytes && count > 0 {
        if batch_view(count) >= count {
            pruning_by_size_reaches_its_limit(0, bytes, max_bytes);
        } else {
            pruning_by_size_reaches_its_limit((count - batch_view(count)) as nat, bytes, max_bytes);
        }
    }
}

/// Which observations are asked for.
#[derive(Debug)]
pub struct ObservationQuery {
    pub run_id: Option<String>,
    pub after_event_id: Option<u64>,
    pub limit: usize,
}

impl Default for ObservationQuery {
    fn default() -> (r: ObservationQuery)
        ensures
            r.run_id is None,
            r.after_event_id is None,
            r.limit == 0,
    {
        ObservationQuery { run_id: None, after_event_id: None, limit: 0 }
    }
}

/// How many rows a query gives at most: at least one, and no more than a bound.
pub fn query_limit(limit: usize, most: usize) -> (r: u64)
    requires
        1 <= most,
    ensures
        r == (if limit < 1 {
            1
        } else if limit > most {
            most as int
        } else {
            limit as int
        }),
{
    if limit < 1 {
        1
    } else if limit > most {
        most as u64
    } else {
        limit as u64
    }
}

/// The time before which observations and ended runs are dropped.
pub fn retention_cutoff(now: u64) -> (r: u64)
    ensures
        r == earlier(now, RETENTION_MS),
{
    start_of(now, RETENTION_MS)
}

/// What a run that begins holds.
pub open spec fn begins_run(
    run: Run,
    params: JsonView,
    workspace: Option<Seq<char>>,
    agent: Option<Seq<char>>,
    target: Seq<char>,
    by: Option<Seq<char>>,
    now: u64,
    fresh: Seq<char>,
) -> bool {
    &&& run.run_id@ == (match params.get_str("runId"@) {
        Some(id) => id,
        None => fresh,
    })
    &&& opt_text(run.workspace_session_id) == workspace
    &&& opt_text(run.agent_session_id) == agent
    &&& run.target_summary@ == first_chars(target, 500)
    &&& run.created_by@ == (match by {
        Some(b) => b,
        None => "agent"@,
    })
    &&& run.status == RunStatus::Running
    &&& run.health == RunHealth::Unknown
    &&& run.started_at == now
    &&& run.finished_at is None
    &&& run.business_outcome is None
}

/// The run that a request begins.
pub fn start_run(params: &Json, now: u64, fresh_id: &str) -> (r: Result<Run, RpcError>)
    ensures
        match may_have(params@, "workspaceSessionId"@) {
            Err(e) => fails(r, e),
            Ok(workspace) => match may_have(params@, "agentSessionId"@) {
                Err(e) => fails(r, e),
                Ok(agent) => match need(params@, "targetSummary"@) {
                    Err(e) => fails(r, e),
                    Ok(target) => match may_have(params@, "createdBy"@) {
                        Err(e) => fails(r, e),
                        Ok(by) => r matches Ok(run) && begins_run(
                            run,
                            params@,
                            workspace,
                            agent,
                            target,
                            by,
                            now,
                            fresh_id@,
                        ),
                    },
                },
            },
        },
{
    let run_id = match params.get_text("runId") {
        Some(id) => id,
        None => fresh_id.to_owned(),
    };
    let workspace_session_id = match optional_str(params, "workspaceSessionId") {
        Ok(s) => s,
        Err(e) => return Err(e),
    };
    let agent_session_id = match optional_str(params, "agentSessionId") {
        Ok(s) => s,
        Err(e) => return Err(e),
    };
    let target = match required_str(params, "targetSummary") {
        Ok(s) => s,
        Err(e) => return Err(e),
    };
    let created_by = match optional_str(params, "createdBy") {
        Ok(Some(s)) => s,
        Ok(None) => "agent".to_owned(),
        Err(e) => return Err(e),
    };
    Ok(
        Run {
            run_id,
            workspace_session_id,
            agent_session_id,
            target_summary: take_chars(target, 500),
            created_by,
            status: RunStatus::Running,
            health: RunHealth::Unknown,
            started_at: now,
            finished_at: None,
            business_outcome: None,
        },
    )
}

/// Why a run could not be stored or ended.
#[derive(Debug, PartialEq, Eq)]
pub enum RunError {
    NotFound(String),
    InvalidTransition(String),
    /// The store failed, with its message.
    Store(String),
}

/// The code and the message of the error of a run.
pub open spec fn run_rpc(e: RunError) -> RpcErrorView {
    match e {
        RunError::NotFound(id) => rpc_error("RUN_NOT_FOUND"@, "run not found: "@ + id@),
        RunError::InvalidTransition(m) => bad_transition(m@),
        RunError::Store(m) => rpc_error("OBSERVABILITY_STORE_FAILED"@, m@),
    }
}

/// The error of a run as a controller answers it.
pub fn observability_rpc_error(error: &RunError) -> (r: RpcError)
    ensures
        r@ == run_rpc(*error),
{
    match error {
        RunError::NotFound(id) => {
            let m = concat2("run not found: ", id.as_str());
            RpcError::new("RUN_NOT_FOUND", m.as_str())
        },
        RunError::InvalidTransition(why) => {
            let m = concat2("invalid run transition: ", why.as_str());
            RpcError::new("INVALID_RUN_TRANSITION", m.as_str())
        },
        RunError::Store(m) => RpcError::new("OBSERVABILITY_STORE_FAILED", m.as_str()),
    }
}

/// The health of a run that ended.
pub open spec fn ended_health(status: RunStatus, outcome: Option<Seq<char>>) -> RunHealth {
    if outcome == Some("failed"@) {
        RunHealth::Failed
    } else {
        match status {
            RunStatus::Completed => RunHealth::Healthy,
            RunStatus::Cancelled => RunHealth::Degraded,
            RunStatus::Interrupted => RunHealth::Degraded,
            RunStatus::Running => RunHealth::Unknown,
        }
    }
}

/// What the ending of a run gives.
pub open spec fn finishing(
    id: Seq<char>,
    stored: Option<Run>,
    status: RunStatus,
    finished_at: u64,
    outcome: Option<String>,
) -> Result<Run, RpcErrorView> {
    if status == RunStatus::Running {
        Err(bad_transition("finished run cannot remain running"@))
    } else {
        match stored {
            None => Err(rpc_error("RUN_NOT_FOUND"@, "run not found: "@ + id)),
            Some(run) => if run.status != RunStatus::Running {
                Err(bad_transition("run "@ + id + " is already terminal"@))
            } else {
                Ok(
                    Run {
                        status,
                        finished_at: Some(finished_at),
                        business_outcome: outcome,
                        health: ended_health(status, opt_text(outcome)),
                        ..run
                    },
                )
            },
        }
    }
}

/// The error of a change that a run cannot make.
pub open spec fn bad_transition(why: Seq<char>) -> RpcErrorView {
    rpc_error("INVALID_RUN_TRANSITION"@, "invalid run transition: "@ + why)
}

/// Ends a run, which has to be there and to be running.
pub fn finish_run(id: &str, stored: Option<Run>, status: RunStatus, finished_at: u64, outcome: Option<String>) -> (r: Result<
    Run,
    RunError,
>)
    ensures
        match finishing(id@, stored, status, finished_at, outcome) {
            Ok(run) => r == Ok::<Run, RunError>(run),
            Err(e) => r matches Err(x) && run_rpc(x) == e && (x is NotFound == (status != RunStatus::Running && stored is None)),
        },
{
    if status == RunStatus::Running {
        return Err(RunError::InvalidTransition("finished run cannot remain running".to_owned()));
    }
    let mut run = match stored {
        Some(run) => run,
        None => return Err(RunError::NotFound(id.to_owned())),
    };
    if run.status != RunStatus::Running {
        return Err(RunError::InvalidTransition(concat3("run ", id, " is already terminal")));
    }
    run.status = status;
    run.finished_at = Some(finished_at);
    run.health =
    if opt_eq(&outcome, "failed") {
        RunHealth::Failed
    } else {
        match status {
            RunStatus::Completed => RunHealth::Healthy,
            RunStatus::Cancelled | RunStatus::Interrupted => RunHealth::Degraded,
            RunStatus::Running => RunHealth::Unknown,
        }
    };
    run.business_outcome = outcome;
    Ok(run)
}

/// A run that ended stays as it is: whoever ends it again is refused.
pub proof fn run_ends_once(
    id: Seq<char>,
    stored: Option<Run>,
    status: RunStatus,
    at: u64,
    outcome: Option<String>,
    again: RunStatus,
    later: u64,
    other: Option<String>,
)
    requires
        finishing(id, stored, status, at, outcome) is Ok,
    ensures
        finishing(id, Some(finishing(id, stored, status, at, outcome)->Ok_0), again, later, other) is Err,
{
}

/// Whether an observation is of the beginning or the end of a run.
pub open spec fn observes_run(
    o: Observation,
    node: Seq<char>,
    run: Run,
    name: Seq<char>,
    status: Seq<char>,
    at: u64,
    duration: Option<u64>,
    attributes: JsonView,
) -> bool {
    &&& o.event_id == 0
    &&& opt_text(o.run_id) == Some(run.run_id@)
    &&& o.timestamp == at
    &&& o.node_id@ == node
    &&& o.role@ == "controller"@
    &&& o.kind@ == "run"@
    &&& o.name@ == name
    &&& o.status@ == status
    &&& o.duration_ms == duration
    &&& o.span_id is None
    &&& o.parent_span_id is None
    &&& o.request_id is None
    &&& o.task_id is None
    &&& o.process_id is None
    &&& o.connection_id is None
    &&& o.attributes@ == attributes
}

fn run_observation(node: &str, run: &Run, name: &str, status: &str, at: u64, duration: Option<u64>, attributes: Json) -> (r:
    Observation)
    ensures
        observes_run(r, node@, *run, name@, status@, at, duration, attributes@),
{
    Observation {
        event_id: 0,
        run_id: Some(run.run_id.clone()),
        timestamp: at,
        node_id: node.to_owned(),
        role: "controller".to_owned(),
        kind: "run".to_owned(),
        name: name.to_owned(),
        status: status.to_owned(),
        duration_ms: duration,
        span_id: None,
        parent_span_id: None,
        request_id: None,
        task_id: None,
        process_id: None,
        connection_id: None,
        attributes,
    }
}

/// What is observed of a run that begins.
pub fn run_started(node: &str, run: &Run) -> (r: Observation)
    ensures
        observes_run(
            r,
            node@,
            *run,
            "run.start"@,
            "running"@,
            run.started_at,
            None,
            JsonView::obj().plus("createdBy"@, JsonView::Text(run.created_by@)),
        ),
{
    let attributes = Json::obj().plus("createdBy", Json::text(run.created_by.as_str()));
    run_observation(node, run, "run.start", "running", run.started_at, None, attributes)
}

/// When a run ended, or now where that is not known.
pub open spec fn ended_at(run: Run, now: u64) -> u64 {
    match run.finished_at {
        Some(t) => t,
        None => now,
    }
}

/// What is observed of a run that ended.
pub fn run_finished(node: &str, run: &Run, now: u64) -> (r: Observation)
    ensures
        observes_run(
            r,
            node@,
            *run,
            "run.finish"@,
            run.status.name_view(),
            ended_at(*run, now),
            Some(earlier(ended_at(*run, now), run.started_at)),
            JsonView::obj().plus("businessOutcome"@, text_or_null(opt_text(run.business_outcome))).plus(
                "health"@,
                JsonView::Text(run.health.name_view()),
            ),
        ),
{
    let at = match run.finished_at {
        Some(t) => t,
        None => now,
    };
    let attributes = Json::obj().plus("businessOutcome", Json::opt_text(&run.business_outcome)).plus(
        "health",
        Json::text(run.health.name()),
    );
    run_observation(node, run, "run.finish", run.status.name(), at, Some(start_of(at, run.started_at)), attributes)
}

/// The parameters with which other controllers are asked to end a run that is not here; none where
/// the request is for this controller only.
pub fn finish_elsewhere(params: &Json, run_id: &str) -> (r: Option<Json>)
    ensures
        match r {
            Some(j) => params@.get_bool("localOnly"@) != Some(true) && j@ == JsonView::obj().plus(
                "businessOutcome"@,
                params@.get_or_null("businessOutcome"@),
            ).plus("localOnly"@, JsonView::Bool(true)).plus("runId"@, JsonView::Text(run_id@)).plus(
                "status"@,
                params@.get_or_null("status"@),
            ),
            None => params@.get_bool("localOnly"@) == Some(true),
        },
{
    if params.get_bool("localOnly") == Some(true) {
        return None;
    }
    Some(
        Json::obj().plus("businessOutcome", params.copy_or_null("businessOutcome")).plus(
            "localOnly",
            Json::Bool(true),
        ).plus("runId", Json::text(run_id)).plus("status", params.copy_or_null("status")),
    )
}

/// The parameters with which other controllers are asked for a run that is not here, or the error
/// where the request is for this controller only.
pub fn get_elsewhere(params: &Json, run_id: &str) -> (r: Result<Json, RpcError>)
    ensures
        if params@.get_bool("localOnly"@) == Some(true) {
            fails(r, rpc_error("RUN_NOT_FOUND"@, "run not found"@))
        } else {
            r matches Ok(j) && j@ == JsonView::obj().plus("localOnly"@, JsonView::Bool(true)).plus(
                "runId"@,
                JsonView::Text(run_id@),
            )
        },
{
    if params.get_bool("localOnly") == Some(true) {
        return Err(RpcError::new("RUN_NOT_FOUND", "run not found"));
    }
    Ok(Json::obj().plus("localOnly", Json::Bool(true)).plus("runId", Json::text(run_id)))
}

/// What a controller that was asked for a run answered, where it has the run.
pub open spec fn peer_success(called: CalledView) -> Option<JsonView> {
    match called {
        CalledView::Answered(response) => if response.ok {
            Some(match response.result {
                Some(j) => j,
                None => JsonView::Null,
            })
        } else {
            None
        },
        CalledView::Unreachable(_) => None,
    }
}

/// What the first controller that has a run answered, from a position on.
pub open spec fn first_success(calls: Seq<Called>, from: int) -> Option<JsonView>
    decreases calls.len() - from,
{
    if from < 0 || from >= calls.len() {
        None
    } else {
        match peer_success(calls[from]@) {
            Some(j) => Some(j),
            None => first_success(calls, from + 1),
        }
    }
}

/// Reads what the other controllers answered when they were asked one after the other for a run:
/// the first success counts. No controller behind it needs to be asked.
pub fn call_peer_until_success(calls: &Vec<Called>) -> (r: Result<Json, RpcError>)
    ensures
        match first_success(calls@, 0) {
            Some(j) => r matches Ok(x) && x@ == j,
            None => fails(r, rpc_error("RUN_NOT_FOUND"@, "run was not found on any connected Controller"@)),
        },
{
    let mut i: usize = 0;
    while i < calls.len()
        invariant
            i <= calls.len(),
            first_success(calls@, 0) == first_success(calls@, i as int),
        decreases calls.len() - i,
    {
        match &calls[i] {
            Called::Answered(response) => {
                if response.ok {
                    return Ok(
                        match &response.result {
                            Some(j) => j.copy(),
                            None => Json::Null,
                        },
                    );
                }
            },
            Called::Unreachable(_) => {},
        }
        i += 1;
    }
    Err(RpcError::new("RUN_NOT_FOUND", "run was not found on any connected Controller"))
}

/// Which part of the list of runs a request asks for.
#[derive(Debug)]
pub struct RunPage {
    pub limit: usize,
    pub offset: usize,
    /// How many runs are fetched from each controller.
    pub fetch: usize,
}

/// A number within bounds.
pub open spec fn within(n: u64, least: u64, most: u64) -> u64 {
    if n < least {
        least
    } else if n > most {
        most
    } else {
        n
    }
}

/// Which part of the list of runs a request asks for: a hundred runs unless it says otherwise,
/// five hundred at most.
pub fn run_page(params: &Json) -> (r: RunPage)
    ensures
        r.limit == within(params@.u64_or("limit"@, 100), 1, 500),
        r.offset == within(params@.u64_or("offset"@, 0), 0, 10_000),
        r.fetch == within((r.limit + r.offset) as u64, 1, 500),
{
    let limit = clamp(params.u64_or("limit", 100), 1, 500) as usize;
    let offset = clamp(params.u64_or("offset", 0), 0, 10_000) as usize;
    let sum = limit + offset;
    let fetch = if sum > 500 {
        500
    } else {
        sum
    };
    RunPage { limit, offset, fetch }
}

fn clamp(n: u64, least: u64, most: u64) -> (r: u64)
    requires
        least <= most,
    ensures
        r == within(n, least, most),
{
    if n < least {
        least
    } else if n > most {
        most
    } else {
        n
    }
}

/// Where a run goes in a list with the newest first: behind those that are not older.
pub open spec fn run_slot(sorted: Seq<Run>, run: Run, from: int) -> int
    decreases sorted.len() - from,
{
    if from < 0 || from >= sorted.len() || sorted[from].started_at < run.started_at {
        from
    } else {
        run_slot(sorted, run, from + 1)
    }
}

/// The first `n` runs with the newest first; those of one time keep their order.
pub open spec fn newest_first(runs: Seq<Run>, n: int) -> Seq<Run>
    decreases n,
{
    if n <= 0 {
        Seq::empty()
    } else {
        let before = newest_first(runs, n - 1);
        before.insert(run_slot(before, runs[n - 1], 0), runs[n - 1])
    }
}

proof fn lemma_run_slot(sorted: Seq<Run>, run: Run, from: int)
    requires
        0 <= from <= sorted.len(),
    ensures
        from <= run_slot(sorted, run, from) <= sorted.len(),
        forall|k: int| from <= k < run_slot(sorted, run, from) ==> (#[trigger] sorted[k]).started_at >= run.started_at,
        run_slot(sorted, run, from) < sorted.len() ==> sorted[run_slot(sorted, run, from)].started_at < run.started_at,
    decreases sorted.len() - from,
{
    if from < sorted.len() && sorted[from].started_at >= run.started_at {
        lemma_run_slot(sorted, run, from + 1);
    }
}

/// Whether no run of a list is newer than one before it.
pub open spec fn descending(runs: Seq<Run>) -> bool {
    forall|i: int, j: int| 0 <= i < j < runs.len() ==> (#[trigger] runs[i]).started_at >= (#[trigger] runs[j]).started_at
}

/// The list with the newest run first holds exactly the runs, and none stands before a newer one.
pub proof fn newest_first_is_sorted(runs: Seq<Run>, n: int)
    requires
        0 <= n <= runs.len(),
    ensures
        newest_first(runs, n).len() == n,
        descending(newest_first(runs, n)),
        newest_first(runs, n).to_multiset() == runs.take(n).to_multiset(),
    decreases n,
{
    broadcast use vstd::seq_lib::group_to_multiset_ensures;

    if n > 0 {
        newest_first_is_sorted(runs, n - 1);
        let before = newest_first(runs, n - 1);
        let run = runs[n - 1];
        let s = run_slot(before, run, 0);
        lemma_run_slot(before, run, 0);
        let after = before.insert(s, run);
        assert forall|i: int, j: int| 0 <= i < j < after.len() implies (#[trigger] after[i]).started_at
            >= (#[trigger] after[j]).started_at by {
            let a = if i < s {
                i
            } else {
                i - 1
            };
            let b = if j < s {
                j
            } else {
                j - 1
            };
            if i != s {
                assert(after[i] == before[a]);
            }
            if j != s {
                assert(after[j] == before[b]);
            }
            if i == s {
                assert(before[s].started_at < run.started_at);
                if b > s {
                    assert(before[s].started_at >= before[b].started_at);
                }
            } else if j != s {
                assert(before[a].started_at >= before[b].started_at);
            } else {
                assert(before[a].started_at >= run.started_at);
            }
        }
        assert(runs.take(n) =~= runs.take(n - 1).push(run));
        vstd::seq_lib::to_multiset_insert(before, s, run);
    } else {
        assert(runs.take(0) =~= Seq::empty());
    }
}

/// Whether a list holds a run of a name.
pub open spec fn has_run(runs: Seq<Run>, id: Seq<char>) -> bool {
    exists|i: int| 0 <= i < runs.len() && (#[trigger] runs[i]).run_id@ == id
}

/// The first `n` runs without those whose name occurred before.
pub open spec fn first_of_each(runs: Seq<Run>, n: int) -> Seq<Run>
    decreases n,
{
    if n <= 0 {
        Seq::empty()
    } else {
        let before = first_of_each(runs, n - 1);
        if has_run(runs.take(n - 1), runs[n - 1].run_id@) {
            before
        } else {
            before.push(runs[n - 1])
        }
    }
}

/// The first `n` runs that have a status.
pub open spec fn of_status(runs: Seq<Run>, status: Option<Seq<char>>, n: int) -> Seq<Run>
    decreases n,
{
    if n <= 0 {
        Seq::empty()
    } else {
        let before = of_status(runs, status, n - 1);
        match status {
            Some(s) => if runs[n - 1].status.name_view() == s {
                before.push(runs[n - 1])
            } else {
                before
            },
            None => before.push(runs[n - 1]),
        }
    }
}

/// The part of a list behind an offset, up to a length.
pub open spec fn page_of(runs: Seq<Run>, offset: int, limit: int) -> Seq<Run> {
    let start = if offset < runs.len() {
        offset
    } else {
        runs.len() as int
    };
    let end = if start + limit < runs.len() {
        start + limit
    } else {
        runs.len() as int
    };
    runs.subrange(start, end)
}

/// The runs of this controller and of others as a request for a list gets them.
pub open spec fn listed_runs(runs: Seq<Run>, merged: bool, status: Option<Seq<char>>, offset: int, limit: int) -> Seq<Run> {
    let unique_runs = if merged {
        let sorted = newest_first(runs, runs.len() as int);
        first_of_each(sorted, sorted.len() as int)
    } else {
        runs
    };
    let chosen = of_status(unique_runs, status, unique_runs.len() as int);
    page_of(newest_first(chosen, chosen.len() as int), offset, limit)
}

fn sort_runs(runs: &Vec<Run>) -> (r: Vec<Run>)
    ensures
        r@ == newest_first(runs@, runs@.len() as int),
{
    let mut out: Vec<Run> = Vec::new();
    let mut i: usize = 0;
    while i < runs.len()
        invariant
            i <= runs.len(),
            out@ == newest_first(runs@, i as int),
            out@.len() == i,
        decreases runs.len() - i,
    {
        let run = runs[i].clone();
        let mut s: usize = 0;
        while s < out.len() && out[s].started_at >= run.started_at
            invariant
                s <= out.len(),
                run_slot(out@, run, 0) == run_slot(out@, run, s as int),
            decreases out.len() - s,
        {
            s += 1;
        }
        out.insert(s, run);
        i += 1;
    }
    out
}

fn dedup_runs(runs: &Vec<Run>) -> (r: Vec<Run>)
    ensures
        r@ == first_of_each(runs@, runs@.len() as int),
{
    let mut out: Vec<Run> = Vec::new();
    let mut i: usize = 0;
    while i < runs.len()
        invariant
            i <= runs.len(),
            out@ == first_of_each(runs@, i as int),
        decreases runs.len() - i,
    {
        let mut seen = false;
        let mut k: usize = 0;
        let ghost before = runs@.take(i as int);
        while k < i
            invariant
                k <= i,
                i < runs.len(),
                before == runs@.take(i as int),
                seen == exists|m: int| 0 <= m < k && (#[trigger] before[m]).run_id@ == runs@[i as int].run_id@,
            decreases i - k,
        {
            if str_eq(runs[k].run_id.as_str(), runs[i].run_id.as_str()) {
                assert(before[k as int].run_id@ == runs@[i as int].run_id@);
                seen = true;
            }
            k += 1;
        }
        proof {
            assert(seen == has_run(before, runs@[i as int].run_id@));
        }
        if !seen {
            out.push(runs[i].clone());
        }
        i += 1;
    }
    out
}

fn filter_runs(runs: &Vec<Run>, status: &Option<String>) -> (r: Vec<Run>)
    ensures
        r@ == of_status(runs@, opt_text(*status), runs@.len() as int),
{
    let mut out: Vec<Run> = Vec::new();
    let mut i: usize = 0;
    while i < runs.len()
        invariant
            i <= runs.len(),
            out@ == of_status(runs@, opt_text(*status), i as int),
        decreases runs.len() - i,
    {
        let fits = match status {
            Some(s) => str_eq(runs[i].status.name(), s.as_str()),
            None => true,
        };
        if fits {
            out.push(runs[i].clone());
        }
        i += 1;
    }
    out
}

/// The runs of this controller, and where `merged` of others behind them, as a request for a list
/// gets them: each name once, the newest first, those of a status where one is asked for, and of
/// those one page.
pub fn list_runs(runs: &Vec<Run>, merged: bool, status: &Option<String>, offset: usize, limit: usize) -> (r: Vec<Run>)
    ensures
        r@ == listed_runs(runs@, merged, opt_text(*status), offset as int, limit as int),
{
    let sorted = if merged {
        let s = sort_runs(runs);
        let d = dedup_runs(&s);
        let f = filter_runs(&d, status);
        sort_runs(&f)
    } else {
        let f = filter_runs(runs, status);
        sort_runs(&f)
    };
    let ghost all = sorted@;
    let mut out: Vec<Run> = Vec::new();
    let start = if offset < sorted.len() {
        offset
    } else {
        sorted.len()
    };
    let end = if limit < sorted.len() - start {
        start + limit
    } else {
        sorted.len()
    };
    let mut i: usize = start;
    while i < end
        invariant
            start <= i <= end,
            end <= sorted.len(),
            sorted@ == all,
            out@ == all.subrange(start as int, i as int),
        decreases end - i,
    {
        out.push(sorted[i].clone());
        i += 1;
        assert(all.subrange(start as int, i as int) =~= all.subrange(start as int, i - 1).push(all[i - 1]));
    }
    out
}

/// Whether an observation comes before another: by its time, its node and its number.
pub open spec fn observed_before(a: Observation, b: Observation) -> bool {
    a.timestamp < b.timestamp || (a.timestamp == b.timestamp && (text_lt(a.node_id@, b.node_id@) || (a.node_id@
        == b.node_id@ && a.event_id < b.event_id)))
}

fn comes_before(a: &Observation, b: &Observation) -> (r: bool)
    ensures
        r == observed_before(*a, *b),
{
    a.timestamp < b.timestamp || (a.timestamp == b.timestamp && (str_lt(a.node_id.as_str(), b.node_id.as_str()) || (
    str_eq(a.node_id.as_str(), b.node_id.as_str()) && a.event_id < b.event_id)))
}

/// Where an observation goes in an ordered list of positions: behind those that it does not come
/// before.
pub open spec fn event_slot(events: Seq<Observation>, order: Seq<usize>, e: Observation, from: int) -> int
    decreases order.len() - from,
{
    if from < 0 || from >= order.len() || observed_before(e, events[order[from] as int]) {
        from
    } else {
        event_slot(events, order, e, from + 1)
    }
}

/// The positions of the first `n` observations, ordered.
pub open spec fn event_order(events: Seq<Observation>, n: int) -> Seq<usize>
    decreases n,
{
    if n <= 0 {
        Seq::empty()
    } else {
        let before = event_order(events, n - 1);
        before.insert(event_slot(events, before, events[n - 1], 0), (n - 1) as usize)
    }
}

/// Whether two observations are the same one.
pub open spec fn same_event(a: Observation, b: Observation) -> bool {
    a.node_id@ == b.node_id@ && a.event_id == b.event_id
}

/// Whether an observation is at one of the positions of a list.
pub open spec fn event_seen(events: Seq<Observation>, order: Seq<usize>, e: Observation) -> bool {
    exists|k: int| 0 <= k < order.len() && same_event(events[#[trigger] order[k] as int], e)
}

/// The first `n` positions without those of observations that occurred before.
pub open spec fn events_once(events: Seq<Observation>, order: Seq<usize>, n: int) -> Seq<usize>
    decreases n,
{
    if n <= 0 {
        Seq::empty()
    } else {
        let before = events_once(events, order, n - 1);
        if event_seen(events, order.take(n - 1), events[order[n - 1] as int]) {
            before
        } else {
            before.push(order[n - 1])
        }
    }
}

/// The last positions of a list, up to a number of them.
pub open spec fn last_of(order: Seq<usize>, limit: int) -> Seq<usize> {
    if order.len() > limit {
        order.skip(order.len() - limit)
    } else {
        order
    }
}

/// The observations of several nodes as a query gives them, by their positions.
pub open spec fn merged_events(events: Seq<Observation>, limit: int) -> Seq<usize> {
    let order = event_order(events, events.len() as int);
    last_of(events_once(events, order, order.len() as int), limit)
}

/// Puts the observations of several nodes in order, each of them once, and keeps the last ones up
/// to a limit. The result gives their positions.
pub fn merge_events(events: &Vec<Observation>, limit: usize) -> (r: Vec<usize>)
    ensures
        r@ == merged_events(events@, limit as int),
{
    let mut order: Vec<usize> = Vec::new();
    let mut i: usize = 0;
    while i < events.len()
        invariant
            i <= events.len(),
            order@ == event_order(events@, i as int),
            order@.len() == i,
            forall|k: int| 0 <= k < order@.len() ==> (#[trigger] order@[k]) < i,
        decreases events.len() - i,
    {
        let mut s: usize = 0;
        while s < order.len() && !comes_before(&events[i], &events[order[s]])
            invariant
                i < events.len(),
                s <= order.len(),
                forall|k: int| 0 <= k < order@.len() ==> (#[trigger] order@[k]) < i,
                event_slot(events@, order@, events@[i as int], 0) == event_slot(
                    events@,
                    order@,
                    events@[i as int],
                    s as int,
                ),
            decreases order.len() - s,
        {
            s += 1;
        }
        let ghost before = order@;
        order.insert(s, i);
        i += 1;
        assert forall|k: int| 0 <= k < order@.len() implies (#[trigger] order@[k]) < i by {
            if k < s {
                assert(order@[k] == before[k]);
            } else if k > s {
                assert(order@[k] == before[k - 1]);
            }
        }
    }
    let mut once: Vec<usize> = Vec::new();
    let mut j: usize = 0;
    while j < order.len()
        invariant
            j <= order.len(),
            forall|k: int| 0 <= k < order@.len() ==> (#[trigger] order@[k]) < events@.len(),
            once@ == events_once(events@, order@, j as int),
            once@.len() <= j,
        decreases order.len() - j,
    {
        let ghost before = order@.take(j as int);
        let ghost e = events@[order@[j as int] as int];
        let mut seen = false;
        let mut k: usize = 0;
        while k < j
            invariant
                k <= j,
                j < order.len(),
                forall|k: int| 0 <= k < order@.len() ==> (#[trigger] order@[k]) < events@.len(),
                before == order@.take(j as int),
                e == events@[order@[j as int] as int],
                seen == exists|m: int| 0 <= m < k && same_event(events@[#[trigger] before[m] as int], e),
            decreases j - k,
        {
            let a = &events[order[k]];
            let b = &events[order[j]];
            if str_eq(a.node_id.as_str(), b.node_id.as_str()) && a.event_id == b.event_id {
                assert(same_event(events@[before[k as int] as int], e));
                seen = true;
            }
            k += 1;
        }
        assert(seen == event_seen(events@, before, e));
        if !seen {
            once.push(order[j]);
        }
        j += 1;
    }
    if once.len() > limit {
        let ghost all = once@;
        let mut out: Vec<usize> = Vec::new();
        let mut k: usize = once.len() - limit;
        let ghost start = k as int;
        while k < once.len()
            invariant
                0 <= start <= k <= once.len(),
                once@ == all,
                out@ == all.subrange(start, k as int),
            decreases once.len() - k,
        {
            out.push(once[k]);
            k += 1;
            assert(all.subrange(start, k as int) =~= all.subrange(start, k - 1).push(all[k - 1]));
        }
        assert(all.subrange(start, all.len() as int) =~= all.skip(start));
        return out;
    }
    once
}

proof fn lemma_observed_transitive(a: Observation, b: Observation, c: Observation)
    requires
        observed_before(a, b),
        observed_before(b, c),
    ensures
        observed_before(a, c),
{
    if a.timestamp == b.timestamp && b.timestamp == c.timestamp {
        if text_lt(a.node_id@, b.node_id@) && text_lt(b.node_id@, c.node_id@) {
            text_order_is_transitive(a.node_id@, b.node_id@, c.node_id@);
        }
    }
}

/// Whether positions give observations of a list in order: none comes before an earlier one.
pub open spec fn in_order(events: Seq<Observation>, order: Seq<usize>) -> bool {
    forall|i: int, j: int|
        0 <= i < j < order.len() ==> !observed_before(events[#[trigger] order[j] as int], events[#[trigger] order[i] as int])
}

proof fn lemma_event_slot(events: Seq<Observation>, order: Seq<usize>, e: Observation, from: int)
    requires
        0 <= from <= order.len(),
    ensures
        from <= event_slot(events, order, e, from) <= order.len(),
        forall|k: int|
            from <= k < event_slot(events, order, e, from) ==> !observed_before(e, events[#[trigger] order[k] as int]),
        event_slot(events, order, e, from) < order.len() ==> observed_before(
            e,
            events[order[event_slot(events, order, e, from)] as int],
        ),
    decreases order.len() - from,
{
    if from < order.len() && !observed_before(e, events[order[from] as int]) {
        lemma_event_slot(events, order, e, from + 1);
    }
}

proof fn lemma_event_order(events: Seq<Observation>, n: int)
    requires
        0 <= n <= events.len(),
        events.len() <= usize::MAX,
    ensures
        event_order(events, n).len() == n,
        in_order(events, event_order(events, n)),
        forall|k: int| 0 <= k < n ==> (#[trigger] event_order(events, n)[k]) < n,
        forall|p: int| 0 <= p < n ==> event_order(events, n).contains(#[trigger] (p as usize)),
    decreases n,
{
    if n > 0 {
        lemma_event_order(events, n - 1);
        let before = event_order(events, n - 1);
        let e = events[n - 1];
        let at = event_slot(events, before, e, 0);
        let order = event_order(events, n);
        lemma_event_slot(events, before, e, 0);
        assert(order[at] == n - 1);
        assert forall|k: int| 0 <= k < n implies (#[trigger] order[k]) < n by {
            if k < at {
                assert(order[k] == before[k]);
            } else if k > at {
                assert(order[k] == before[k - 1]);
            }
        }
        assert forall|p: int| 0 <= p < n implies order.contains(#[trigger] (p as usize)) by {
            if p < n - 1 {
                assert(before.contains(p as usize));
                let k = choose|k: int| 0 <= k < before.len() && before[k] == p as usize;
                if k < at {
                    assert(order[k] == p as usize);
                } else {
                    assert(order[k + 1] == p as usize);
                }
            }
        }
        assert forall|i: int, j: int| 0 <= i < j < order.len() implies !observed_before(
            events[#[trigger] order[j] as int],
            events[#[trigger] order[i] as int],
        ) by {
            let a = if i < at {
                i
            } else {
                i - 1
            };
            let b = if j < at {
                j
            } else {
                j - 1
            };
            if i == at {
                assert(order[j] == before[b]);
                if observed_before(events[before[b] as int], e) {
                    let x = events[before[b] as int];
                    lemma_observed_transitive(x, e, events[before[at] as int]);
                    text_order_is_total(x.node_id@, x.node_id@);
                    assert(b == at || !observed_before(x, events[before[at] as int]));
                }
            } else if j == at {
                assert(order[i] == before[a]);
            } else {
                assert(order[i] == before[a] && order[j] == before[b]);
            }
        }
    }
}

proof fn lemma_events_once(events: Seq<Observation>, order: Seq<usize>, n: int)
    requires
        0 <= n <= order.len(),
        in_order(events, order),
    ensures
        in_order(events, events_once(events, order, n)),
        forall|i: int, j: int|
            0 <= i < j < events_once(events, order, n).len() ==> !same_event(
                events[#[trigger] events_once(events, order, n)[i] as int],
                events[#[trigger] events_once(events, order, n)[j] as int],
            ),
        forall|i: int|
            0 <= i < events_once(events, order, n).len() ==> order.take(n).contains(
                #[trigger] events_once(events, order, n)[i],
            ),
        forall|k: int|
            0 <= k < n ==> event_seen(events, events_once(events, order, n), events[#[trigger] order[k] as int]),
    decreases n,
{
    if n > 0 {
        lemma_events_once(events, order, n - 1);
        let before = events_once(events, order, n - 1);
        let once = events_once(events, order, n);
        let e = events[order[n - 1] as int];
        let seen = event_seen(events, order.take(n - 1), e);
        let m = before.len() as int;
        assert forall|i: int| 0 <= i < once.len() implies order.take(n).contains(#[trigger] once[i]) by {
            if i < m {
                assert(order.take(n - 1).contains(before[i]));
                let k = choose|k: int| 0 <= k < n - 1 && #[trigger] order.take(n - 1)[k] == before[i];
                assert(order.take(n)[k] == once[i]);
            } else {
                assert(order.take(n)[n - 1] == once[i]);
            }
        }
        assert forall|i: int, j: int| 0 <= i < j < once.len() implies !observed_before(
            events[#[trigger] once[j] as int],
            events[#[trigger] once[i] as int],
        ) && !same_event(events[once[i] as int], events[once[j] as int]) by {
            if j < m {
                assert(once[i] == before[i] && once[j] == before[j]);
            } else {
                assert(order.take(n - 1).contains(before[i]));
                let k = choose|k: int| 0 <= k < n - 1 && #[trigger] order.take(n - 1)[k] == before[i];
                assert(order[k] == once[i] && order[n - 1] == once[j]);
                assert(order.take(n - 1)[k] == order[k]);
            }
        }
        assert forall|k: int| 0 <= k < n implies event_seen(events, once, events[#[trigger] order[k] as int]) by {
            if k < n - 1 {
                lemma_seen_grows(events, before, once, events[order[k] as int]);
            } else if seen {
                let q = choose|q: int|
                    0 <= q < n - 1 && same_event(events[#[trigger] order.take(n - 1)[q] as int], e);
                assert(order[q] == order.take(n - 1)[q]);
                assert(event_seen(events, before, events[order[q] as int]));
                let x = choose|x: int|
                    0 <= x < before.len() && same_event(events[#[trigger] before[x] as int], events[order[q] as int]);
                assert(same_event(events[once[x] as int], e));
            } else {
                assert(same_event(events[once[m] as int], e));
            }
        }
    }
}

proof fn lemma_seen_grows(events: Seq<Observation>, before: Seq<usize>, after: Seq<usize>, e: Observation)
    requires
        event_seen(events, before, e),
        before.len() <= after.len(),
        forall|i: int| 0 <= i < before.len() ==> #[trigger] before[i] == after[i],
    ensures
        event_seen(events, after, e),
{
    let x = choose|x: int| 0 <= x < before.len() && same_event(events[#[trigger] before[x] as int], e);
    assert(before[x] == after[x]);
}

/// The observations that a query gives stand in their order, the earlier first, and each of them
/// stands there once.
pub proof fn merged_events_are_ordered(events: Seq<Observation>, limit: int, i: int, j: int)
    requires
        events.len() <= usize::MAX,
        0 <= limit,
        0 <= i < j < merged_events(events, limit).len(),
    ensures
        merged_events(events, limit)[i] < events.len(),
        merged_events(events, limit)[j] < events.len(),
        observed_before(
            events[merged_events(events, limit)[i] as int],
            events[merged_events(events, limit)[j] as int],
        ),
        !same_event(events[merged_events(events, limit)[i] as int], events[merged_events(events, limit)[j] as int]),
{
    let n = events.len() as int;
    let order = event_order(events, n);
    let once = events_once(events, order, n);
    let merged = merged_events(events, limit);
    assert(order.len() == n && in_order(events, order) && forall|k: int| 0 <= k < n ==> (#[trigger] order[k]) < n) by {
        lemma_event_order(events, n);
    }
    lemma_events_once(events, order, n);
    let skipped = once.len() - merged.len();
    assert(merged[i] == once[skipped + i] && merged[j] == once[skipped + j]);
    assert(order.take(n).contains(once[skipped + i]) && order.take(n).contains(once[skipped + j]));
    text_order_is_total(events[merged[i] as int].node_id@, events[merged[j] as int].node_id@);
}

/// A query gives no more observations than its limit; where there are fewer, every observation is
/// among them.
pub proof fn merged_events_lose_nothing(events: Seq<Observation>, limit: int, p: int)
    requires
        events.len() <= usize::MAX,
        0 <= limit,
        0 <= p < events.len(),
    ensures
        merged_events(events, limit).len() <= limit,
        merged_events(events, limit).len() < limit ==> event_seen(events, merged_events(events, limit), events[p]),
{
    let n = events.len() as int;
    let order = event_order(events, n);
    lemma_event_order(events, n);
    lemma_events_once(events, order, order.len() as int);
    assert(order.contains(p as usize));
    let k = choose|k: int| 0 <= k < order.len() && order[k] == p as usize;
    assert(events[order[k] as int] == events[p]);
}

/// The cursor of a node after its answer, and whether the node did not answer.
pub open spec fn cursor_after(called: CalledView, previous: u64) -> (u64, bool) {
    match called {
        CalledView::Answered(response) => if response.ok {
            (
                match response.result {
                    Some(j) => j.u64_or("cursor"@, previous),
                    None => previous,
                },
                false,
            )
        } else {
            (previous, true)
        },
        CalledView::Unreachable(_) => (previous, true),
    }
}

/// The cursor of a node after its answer to a query, and whether what is known of it is stale.
pub fn node_cursor(called: &Called, previous: u64) -> (r: (u64, bool))
    ensures
        r == cursor_after(called@, previous),
{
    match called {
        Called::Answered(response) => {
            if response.ok {
                match &response.result {
                    Some(j) => (j.u64_or("cursor", previous), false),
                    None => (previous, false),
                }
            } else {
                (previous, true)
            }
        },
        Called::Unreachable(_) => (previous, true),
    }
}

/// What a node answered to a query, and the cursor from which it was asked.
#[derive(Debug)]
pub struct NodeAnswer {
    pub node_id: String,
    pub previous: u64,
    pub called: Called,
}

/// The cursors of this node and of the first `n` others, by their names.
pub open spec fn cursors_json(node: Seq<char>, cursor: u64, answers: Seq<NodeAnswer>, n: int) -> JsonView
    decreases n,
{
    if n <= 0 {
        JsonView::obj().with(node, JsonView::Unsigned(cursor))
    } else {
        let a = answers[n - 1];
        cursors_json(node, cursor, answers, n - 1).with(
            a.node_id@,
            JsonView::Unsigned(cursor_after(a.called@, a.previous).0),
        )
    }
}

/// How a node is shown in the answer to a query.
pub open spec fn node_json(node: Seq<char>, cursor: u64, stale: bool) -> JsonView {
    JsonView::obj().plus("cursor"@, JsonView::Unsigned(cursor)).plus("nodeId"@, JsonView::Text(node)).plus(
        "stale"@,
        JsonView::Bool(stale),
    )
}

/// This node and the others, as they are shown in the answer to a query.
pub open spec fn nodes_json(node: Seq<char>, cursor: u64, answers: Seq<NodeAnswer>) -> Seq<JsonView> {
    seq![node_json(node, cursor, false)] + Seq::new(
        answers.len(),
        |i: int|
            {
                let after = cursor_after(answers[i].called@, answers[i].previous);
                node_json(answers[i].node_id@, after.0, after.1)
            },
    )
}

fn shown_node(node: &str, cursor: u64, stale: bool) -> (r: Json)
    ensures
        r@ == node_json(node@, cursor, stale),
{
    Json::obj().plus("cursor", Json::Unsigned(cursor)).plus("nodeId", Json::text(node)).plus("stale", Json::Bool(stale))
}

/// The answer to a query for observations of this node alone.
pub fn local_answer(node: &str, events: Vec<Json>, cursor: u64) -> (r: Json)
    ensures
        r@ == JsonView::obj().plus("cursor"@, JsonView::Unsigned(cursor)).plus(
            "events"@,
            JsonView::Array(json_views(events@)),
        ).plus("nodeId"@, JsonView::Text(node@)).plus("stale"@, JsonView::Bool(false)),
{
    Json::obj().plus("cursor", Json::Unsigned(cursor)).plus("events", Json::array(events)).plus(
        "nodeId",
        Json::text(node),
    ).plus("stale", Json::Bool(false))
}

/// The answer to a query for observations of this node and of others: where each of them is to be
/// read on, and which of them did not answer.
pub fn query_answer(node: &str, events: Vec<Json>, cursor: u64, answers: &Vec<NodeAnswer>) -> (r: Json)
    ensures
        r@ == JsonView::obj().plus("cursor"@, JsonView::Unsigned(cursor)).plus(
            "cursors"@,
            cursors_json(node@, cursor, answers@, answers@.len() as int),
        ).plus("events"@, JsonView::Array(json_views(events@))).plus(
            "nodes"@,
            JsonView::Array(nodes_json(node@, cursor, answers@)),
        ),
{
    let mut cursors = Json::obj();
    cursors.set(node, Json::Unsigned(cursor));
    let mut nodes: Vec<Json> = Vec::new();
    nodes.push(shown_node(node, cursor, false));
    let ghost want = nodes_json(node@, cursor, answers@);
    assert(json_views(nodes@) =~= want.take(1));
    let mut i: usize = 0;
    while i < answers.len()
        invariant
            i <= answers.len(),
            want == nodes_json(node@, cursor, answers@),
            cursors@ == cursors_json(node@, cursor, answers@, i as int),
            cursors@ is Object,
            json_views(nodes@) == want.take(i + 1),
        decreases answers.len() - i,
    {
        let after = node_cursor(&answers[i].called, answers[i].previous);
        cursors.set(answers[i].node_id.as_str(), Json::Unsigned(after.0));
        let ghost before = nodes@;
        nodes.push(shown_node(answers[i].node_id.as_str(), after.0, after.1));
        assert(json_views(nodes@) =~= json_views(before).push(nodes@.last()@));
        assert(want.take(i + 2) =~= want.take(i + 1).push(want[i + 1]));
        i += 1;
    }
    assert(want.take(want.len() as int) =~= want);
    Json::obj().plus("cursor", Json::Unsigned(cursor)).plus("cursors", cursors).plus("events", Json::array(events)).plus(
        "nodes",
        Json::array(nodes),
    )
}

/// Up to where a node has been read: its last event that was found, or from where it was asked.
pub fn reached_cursor(events: &Vec<Observation>, asked: Option<u64>) -> (r: u64)
    ensures
        r == (if events@.len() > 0 {
            events@.last().event_id
        } else {
            match asked {
                Some(n) => n,
                None => 0,
            }
        }),
{
    if events.len() > 0 {
        return events[events.len() - 1].event_id;
    }
    match asked {
        Some(n) => n,
        None => 0,
    }
}

/// From where a node is read: the cursor that a request names for it, or the general one for this
/// node.
pub fn requested_cursor(params: &Json, node: &str, local: bool) -> (r: Option<u64>)
    ensures
        ({
            let named = match params@.get("cursors"@) {
                Some(c) => c.get_u64(node@),
                None => None,
            };
            r == (if named is Some || !local {
                named
            } else {
                params@.get_u64("cursor"@)
            })
        }),
{
    let named = match params.get("cursors") {
        Some(c) => c.get_u64(node),
        None => None,
    };
    if named.is_some() || !local {
        return named;
    }
    params.get_u64("cursor")
}

/// Whether the run at a position is the one that stands for its name: the newest, and of those of
/// one time the first.
pub open spec fn leads(runs: Seq<Run>, i: int) -> bool {
    0 <= i < runs.len() && forall|k: int|
        0 <= k < runs.len() && k != i && (#[trigger] runs[k]).run_id@ == runs[i].run_id@ ==> runs[k].started_at
            < runs[i].started_at || (runs[k].started_at == runs[i].started_at && i < k)
}

/// Whether a run has the status that is asked for, where one is.
pub open spec fn wanted(run: Run, status: Option<Seq<char>>) -> bool {
    status matches Some(s) ==> s == (match run.status {
        RunStatus::Running => "running"@,
        RunStatus::Completed => "completed"@,
        RunStatus::Cancelled => "cancelled"@,
        RunStatus::Interrupted => "interrupted"@,
    })
}

proof fn lemma_of_status(runs: Seq<Run>, status: Option<Seq<char>>, n: int)
    requires
        0 <= n <= runs.len(),
    ensures
        of_status(runs, status, n) == runs.take(n).filter(|r: Run| wanted(r, status)),
        of_status(runs, status, n).len() <= n,
    decreases n,
{
    reveal(Seq::filter);
    if n > 0 {
        lemma_of_status(runs, status, n - 1);
        assert(runs.take(n).drop_last() =~= runs.take(n - 1));
        assert(runs.take(n).last() == runs[n - 1]);
    }
}

proof fn lemma_filter_joined(a: Seq<Run>, b: Seq<Run>, p: spec_fn(Run) -> bool)
    ensures
        (a + b).filter(p) == a.filter(p) + b.filter(p),
    decreases b.len(),
{
    reveal(Seq::filter);
    if b.len() == 0 {
        assert(a + b =~= a);
        assert(a.filter(p) + b.filter(p) =~= a.filter(p));
    } else {
        lemma_filter_joined(a, b.drop_last(), p);
        assert((a + b).drop_last() =~= a + b.drop_last());
        assert((a + b).last() == b.last());
        assert(a.filter(p) + b.filter(p) =~= (if p(b.last()) {
            (a.filter(p) + b.drop_last().filter(p)).push(b.last())
        } else {
            a.filter(p) + b.drop_last().filter(p)
        }));
    }
}

proof fn lemma_filter_none(a: Seq<Run>, p: spec_fn(Run) -> bool)
    requires
        forall|i: int| 0 <= i < a.len() ==> !p(#[trigger] a[i]),
    ensures
        a.filter(p) == Seq::<Run>::empty(),
    decreases a.len(),
{
    reveal(Seq::filter);
    if a.len() > 0 {
        assert forall|i: int| 0 <= i < a.drop_last().len() implies !p(#[trigger] a.drop_last()[i]) by {
            assert(a.drop_last()[i] == a[i]);
        }
        lemma_filter_none(a.drop_last(), p);
    } else {
        assert(a =~= Seq::empty());
    }
}

proof fn lemma_filter_first(a: Seq<Run>, p: spec_fn(Run) -> bool, j: int)
    requires
        0 <= j < a.len(),
        p(a[j]),
        forall|i: int| 0 <= i < j ==> !p(#[trigger] a[i]),
    ensures
        a.filter(p).len() > 0,
        a.filter(p)[0] == a[j],
{
    reveal(Seq::filter);
    let head = a.take(j);
    let one = seq![a[j]];
    let rest = a.skip(j + 1);
    lemma_filter_none(head, p);
    assert(one.drop_last() =~= Seq::<Run>::empty());
    assert(one.filter(p) =~= one);
    lemma_filter_joined(one, rest, p);
    lemma_filter_joined(head, one + rest, p);
    assert(a =~= head + (one + rest));
    assert(a.filter(p) =~= one + rest.filter(p));
}

/// Sorting keeps the order of the runs that began at one time.
pub proof fn runs_of_one_time_keep_their_order(runs: Seq<Run>, n: int, p: spec_fn(Run) -> bool, time: u64)
    requires
        0 <= n <= runs.len(),
        forall|r: Run| #[trigger] p(r) ==> r.started_at == time,
    ensures
        newest_first(runs, n).filter(p) == runs.take(n).filter(p),
    decreases n,
{
    reveal(Seq::filter);
    if n > 0 {
        runs_of_one_time_keep_their_order(runs, n - 1, p, time);
        newest_first_is_sorted(runs, n - 1);
        let before = newest_first(runs, n - 1);
        let run = runs[n - 1];
        let s = run_slot(before, run, 0);
        lemma_run_slot(before, run, 0);
        let head = before.take(s);
        let rest = before.skip(s);
        let one = seq![run];
        assert(before =~= head + rest);
        assert(before.insert(s, run) =~= head + (one + rest));
        lemma_filter_joined(head, rest, p);
        lemma_filter_joined(one, rest, p);
        lemma_filter_joined(head, one + rest, p);
        assert(one.drop_last() =~= Seq::<Run>::empty());
        assert(runs.take(n).drop_last() =~= runs.take(n - 1));
        assert(runs.take(n).last() == run);
        if p(run) {
            assert forall|i: int| 0 <= i < rest.len() implies !p(#[trigger] rest[i]) by {
                assert(rest[i] == before[s + i]);
                if i > 0 {
                    assert(before[s].started_at >= before[s + i].started_at);
                }
            }
            lemma_filter_none(rest, p);
            assert(one.filter(p) =~= one);
            assert(newest_first(runs, n).filter(p) =~= before.filter(p).push(run));
        } else {
            lemma_filter_none(one, p);
            assert(newest_first(runs, n).filter(p) =~= before.filter(p));
        }
    } else {
        assert(runs.take(0) =~= Seq::empty());
    }
}

/// Whether no run before a position has the name of the run there.
pub open spec fn opens_name(runs: Seq<Run>, j: int) -> bool {
    0 <= j < runs.len() && forall|k: int| 0 <= k < j ==> (#[trigger] runs[k]).run_id@ != runs[j].run_id@
}

/// Whether a run is the first of its name among the first `n`.
pub open spec fn first_of_name(runs: Seq<Run>, n: int, r: Run) -> bool {
    exists|j: int| j < n && #[trigger] opens_name(runs, j) && runs[j] == r
}

proof fn lemma_first_of_each(runs: Seq<Run>, n: int)
    requires
        0 <= n <= runs.len(),
    ensures
        first_of_each(runs, n).len() <= n,
        forall|i: int|
            0 <= i < first_of_each(runs, n).len() ==> first_of_name(runs, n, #[trigger] first_of_each(runs, n)[i]),
        forall|j: int| j < n && #[trigger] opens_name(runs, j) ==> first_of_each(runs, n).contains(runs[j]),
        forall|i: int, j: int|
            0 <= i < j < first_of_each(runs, n).len() ==> (#[trigger] first_of_each(runs, n)[i]).run_id@ != (
            #[trigger] first_of_each(runs, n)[j]).run_id@,
    decreases n,
{
    if n > 0 {
        lemma_first_of_each(runs, n - 1);
        let before = first_of_each(runs, n - 1);
        let after = first_of_each(runs, n);
        let run = runs[n - 1];
        let head = runs.take(n - 1);
        if has_run(head, run.run_id@) {
            let m = choose|m: int| 0 <= m < head.len() && (#[trigger] head[m]).run_id@ == run.run_id@;
            assert(runs[m].run_id@ == run.run_id@);
            assert(!opens_name(runs, n - 1));
            assert(after == before);
            assert forall|i: int| 0 <= i < after.len() implies first_of_name(runs, n, #[trigger] after[i]) by {
                assert(first_of_name(runs, n - 1, before[i]));
            }
        } else {
            assert forall|k: int| 0 <= k < n - 1 implies (#[trigger] runs[k]).run_id@ != run.run_id@ by {
                assert(head[k] == runs[k]);
            }
            assert(opens_name(runs, n - 1));
            assert forall|i: int| 0 <= i < after.len() implies first_of_name(runs, n, #[trigger] after[i]) by {
                if i < before.len() {
                    assert(after[i] == before[i]);
                    assert(first_of_name(runs, n - 1, before[i]));
                }
            }
            assert forall|j: int| j < n && #[trigger] opens_name(runs, j) implies after.contains(runs[j]) by {
                if j < n - 1 {
                    let x = choose|x: int| 0 <= x < before.len() && before[x] == runs[j];
                    assert(after[x] == runs[j]);
                } else {
                    assert(after[before.len() as int] == run);
                }
            }
            assert forall|i: int| 0 <= i < before.len() implies (#[trigger] before[i]).run_id@ != run.run_id@ by {
                assert(first_of_name(runs, n - 1, before[i]));
                let j = choose|j: int| j < n - 1 && #[trigger] opens_name(runs, j) && runs[j] == before[i];
                assert(runs[j].run_id@ != run.run_id@);
            }
        }
    }
}

proof fn lemma_first_position(runs: Seq<Run>, p: spec_fn(Run) -> bool, at: int) -> (i: int)
    requires
        0 <= at < runs.len(),
        p(runs[at]),
    ensures
        0 <= i <= at,
        p(runs[i]),
        forall|k: int| 0 <= k < i ==> !p(#[trigger] runs[k]),
    decreases at,
{
    if exists|k: int| 0 <= k < at && p(#[trigger] runs[k]) {
        let k = choose|k: int| 0 <= k < at && p(#[trigger] runs[k]);
        lemma_first_position(runs, p, k)
    } else {
        at
    }
}

proof fn lemma_same_runs(runs: Seq<Run>, r: Run)
    ensures
        newest_first(runs, runs.len() as int).contains(r) == runs.contains(r),
        newest_first(runs, runs.len() as int).len() == runs.len(),
        descending(newest_first(runs, runs.len() as int)),
{
    broadcast use vstd::seq_lib::group_to_multiset_ensures;

    newest_first_is_sorted(runs, runs.len() as int);
    assert(runs.take(runs.len() as int) =~= runs);
    assert(newest_first(runs, runs.len() as int).to_multiset().count(r) == runs.to_multiset().count(r));
}

proof fn lemma_leading_is_first(runs: Seq<Run>, i: int)
    requires
        leads(runs, i),
    ensures
        first_of_each(newest_first(runs, runs.len() as int), runs.len() as int).contains(runs[i]),
{
    let r = runs[i];
    let sorted = newest_first(runs, runs.len() as int);
    let p = |x: Run| x.started_at == r.started_at && x.run_id@ == r.run_id@;
    lemma_same_runs(runs, r);
    assert(runs.contains(r));
    runs_of_one_time_keep_their_order(runs, runs.len() as int, p, r.started_at);
    assert(runs.take(runs.len() as int) =~= runs);
    lemma_filter_first(runs, p, i);
    let at = choose|at: int| 0 <= at < sorted.len() && sorted[at] == r;
    let j = lemma_first_position(sorted, p, at);
    lemma_filter_first(sorted, p, j);
    assert(sorted[j] == r);
    assert forall|k: int| 0 <= k < j implies (#[trigger] sorted[k]).run_id@ != sorted[j].run_id@ by {
        assert(sorted[k].started_at >= sorted[j].started_at);
        assert(!p(sorted[k]));
        lemma_same_runs(runs, sorted[k]);
        assert(sorted.contains(sorted[k]));
        let m = choose|m: int| 0 <= m < runs.len() && runs[m] == sorted[k];
        assert(runs[m] == sorted[k]);
    }
    assert(opens_name(sorted, j));
    lemma_first_of_each(sorted, runs.len() as int);
}

proof fn lemma_first_is_leading(runs: Seq<Run>, j: int) -> (i: int)
    requires
        opens_name(newest_first(runs, runs.len() as int), j),
    ensures
        leads(runs, i),
        runs[i] == newest_first(runs, runs.len() as int)[j],
{
    let sorted = newest_first(runs, runs.len() as int);
    let r = sorted[j];
    let p = |x: Run| x.started_at == r.started_at && x.run_id@ == r.run_id@;
    lemma_same_runs(runs, r);
    assert(sorted.contains(r));
    runs_of_one_time_keep_their_order(runs, runs.len() as int, p, r.started_at);
    assert(runs.take(runs.len() as int) =~= runs);
    lemma_filter_first(sorted, p, j);
    let at = choose|at: int| 0 <= at < runs.len() && runs[at] == r;
    let i = lemma_first_position(runs, p, at);
    lemma_filter_first(runs, p, i);
    assert(runs[i] == r);
    assert forall|k: int| 0 <= k < runs.len() && k != i && (#[trigger] runs[k]).run_id@ == runs[i].run_id@ implies runs[k].started_at
        < runs[i].started_at || (runs[k].started_at == runs[i].started_at && i < k) by {
        lemma_same_runs(runs, runs[k]);
        assert(runs.contains(runs[k]));
        let m = choose|m: int| 0 <= m < sorted.len() && sorted[m] == runs[k];
        assert(sorted[m] == runs[k]);
        if m > j {
            assert(sorted[j].started_at >= sorted[m].started_at);
        }
        if runs[k].started_at == r.started_at {
            assert(p(runs[k]));
        }
    }
    i
}

proof fn lemma_leading(runs: Seq<Run>, r: Run)
    ensures
        first_of_each(newest_first(runs, runs.len() as int), runs.len() as int).contains(r) <==> exists|i: int|
            #[trigger] leads(runs, i) && runs[i] == r,
{
    let sorted = newest_first(runs, runs.len() as int);
    let names = first_of_each(sorted, runs.len() as int);
    lemma_same_runs(runs, r);
    lemma_first_of_each(sorted, runs.len() as int);
    if names.contains(r) {
        let x = choose|x: int| 0 <= x < names.len() && names[x] == r;
        assert(names[x] == r);
        assert(first_of_name(sorted, runs.len() as int, names[x]));
        let j = choose|j: int| j < runs.len() && #[trigger] opens_name(sorted, j) && sorted[j] == names[x];
        let i = lemma_first_is_leading(runs, j);
        assert(leads(runs, i));
    }
    if exists|i: int| #[trigger] leads(runs, i) && runs[i] == r {
        let i = choose|i: int| #[trigger] leads(runs, i) && runs[i] == r;
        lemma_leading_is_first(runs, i);
    }
}

/// A run is listed if, and only if, it is among the runs and has the status that is asked for;
/// where the runs of several controllers are merged, it is also the newest of its name, and a name
/// is listed once. Nothing else about a run decides, and none is listed before a newer one.
pub proof fn listed_runs_are_those_of_the_status(runs: Seq<Run>, merged: bool, status: Option<Seq<char>>, limit: int, r: Run)
    requires
        limit >= runs.len(),
    ensures
        ({
            let l = listed_runs(runs, merged, status, 0, limit);
            &&& !merged ==> (l.contains(r) <==> runs.contains(r) && wanted(r, status))
            &&& !merged ==> l.to_multiset() == runs.filter(|x: Run| wanted(x, status)).to_multiset()
            &&& merged ==> (l.contains(r) <==> wanted(r, status) && exists|i: int| #[trigger] leads(runs, i) && runs[i] == r)
            &&& descending(l)
            &&& merged ==> forall|i: int, j: int|
                0 <= i < j < l.len() ==> (#[trigger] l[i]).run_id@ != (#[trigger] l[j]).run_id@
        }),
{
    broadcast use vstd::seq_lib::group_to_multiset_ensures;

    let sorted = newest_first(runs, runs.len() as int);
    lemma_same_runs(runs, r);
    let names = if merged {
        first_of_each(sorted, sorted.len() as int)
    } else {
        runs
    };
    lemma_first_of_each(sorted, sorted.len() as int);
    lemma_leading(runs, r);
    assert(names.len() <= runs.len());
    let p = |x: Run| wanted(x, status);
    let chosen = of_status(names, status, names.len() as int);
    lemma_of_status(names, status, names.len() as int);
    assert(names.take(names.len() as int) =~= names);
    assert(chosen == names.filter(p));
    lemma_filter_has(names, p, r);
    lemma_same_runs(chosen, r);
    newest_first_is_sorted(chosen, chosen.len() as int);
    assert(chosen.take(chosen.len() as int) =~= chosen);
    let l = listed_runs(runs, merged, status, 0, limit);
    let all = newest_first(chosen, chosen.len() as int);
    assert(l =~= all);
    if merged {
        lemma_filter_apart(names, p);
        lemma_names_apart(chosen, all);
    }
}

proof fn lemma_filter_has(a: Seq<Run>, p: spec_fn(Run) -> bool, r: Run)
    ensures
        a.filter(p).contains(r) <==> a.contains(r) && p(r),
        a.filter(p).len() <= a.len(),
    decreases a.len(),
{
    reveal(Seq::filter);
    if a.len() > 0 {
        let b = a.drop_last();
        lemma_filter_has(b, p, r);
        if a.contains(r) {
            let i = choose|i: int| 0 <= i < a.len() && a[i] == r;
            if i < b.len() {
                assert(b[i] == r);
            }
        }
        if b.contains(r) {
            let i = choose|i: int| 0 <= i < b.len() && b[i] == r;
            assert(a[i] == r);
        }
        assert(a[a.len() - 1] == a.last());
        if p(a.last()) {
            let f = b.filter(p);
            assert(f.push(a.last())[f.len() as int] == a.last());
            if f.contains(r) {
                let i = choose|i: int| 0 <= i < f.len() && f[i] == r;
                assert(f.push(a.last())[i] == r);
            }
        }
    }
}

proof fn lemma_filter_apart(a: Seq<Run>, p: spec_fn(Run) -> bool)
    requires
        forall|i: int, j: int| 0 <= i < j < a.len() ==> (#[trigger] a[i]).run_id@ != (#[trigger] a[j]).run_id@,
    ensures
        forall|i: int, j: int|
            0 <= i < j < a.filter(p).len() ==> (#[trigger] a.filter(p)[i]).run_id@ != (#[trigger] a.filter(p)[j]).run_id@,
    decreases a.len(),
{
    reveal(Seq::filter);
    if a.len() > 0 {
        let b = a.drop_last();
        assert forall|i: int, j: int| 0 <= i < j < b.len() implies (#[trigger] b[i]).run_id@ != (#[trigger] b[j]).run_id@ by {
            assert(b[i] == a[i] && b[j] == a[j]);
        }
        lemma_filter_apart(b, p);
        let f = b.filter(p);
        assert forall|i: int| 0 <= i < f.len() implies (#[trigger] f[i]).run_id@ != a.last().run_id@ by {
            lemma_filter_has(b, p, f[i]);
            assert(f.contains(f[i]));
            let k = choose|k: int| 0 <= k < b.len() && b[k] == f[i];
            assert(a[k].run_id@ != a[a.len() - 1].run_id@);
        }
    }
}

proof fn lemma_names_apart(a: Seq<Run>, b: Seq<Run>)
    requires
        a.to_multiset() == b.to_multiset(),
        forall|i: int, j: int| 0 <= i < j < a.len() ==> (#[trigger] a[i]).run_id@ != (#[trigger] a[j]).run_id@,
    ensures
        forall|i: int, j: int| 0 <= i < j < b.len() ==> (#[trigger] b[i]).run_id@ != (#[trigger] b[j]).run_id@,
{
    broadcast use vstd::seq_lib::group_to_multiset_ensures;

    assert forall|i: int, j: int| 0 <= i < j < b.len() implies (#[trigger] b[i]).run_id@ != (#[trigger] b[j]).run_id@ by {
        if b[i].run_id@ == b[j].run_id@ {
            let x = b[i];
            let y = b[j];
            assert(b.contains(x) && b.contains(y));
            assert(a.to_multiset().count(x) > 0 && a.to_multiset().count(y) > 0);
            assert(a.contains(x) && a.contains(y));
            let k = choose|k: int| 0 <= k < a.len() && a[k] == x;
            let m = choose|m: int| 0 <= m < a.len() && a[m] == y;
            if k < m {
                assert(a[k].run_id@ != a[m].run_id@);
            } else if m < k {
                assert(a[m].run_id@ != a[k].run_id@);
            }
            assert(x == y);
            assert(a.no_duplicates()) by {
                assert forall|u: int, v: int| 0 <= u < a.len() && 0 <= v < a.len() && u != v implies a[u] != a[v] by {
                    if u < v {
                        assert(a[u].run_id@ != a[v].run_id@);
                    } else {
                        assert(a[v].run_id@ != a[u].run_id@);
                    }
                }
            }
            a.lemma_multiset_has_no_duplicates();
            assert(a.to_multiset().count(x) == 1);
            let c = b.remove(j);
            assert(c[i] == x);
            assert(c.contains(x));
            assert(c.to_multiset() == b.to_multiset().remove(y));
            assert(c.to_multiset().count(x) > 0);
        }
    }
}

/// A page is a part of the whole list: it begins at the offset and ends where the list or the page
/// does.
pub proof fn page_is_a_part_of_the_list(runs: Seq<Run>, merged: bool, status: Option<Seq<char>>, offset: int, limit: int, whole: int)
    requires
        0 <= offset,
        0 <= limit,
        runs.len() <= whole,
    ensures
        ({
            let all = listed_runs(runs, merged, status, 0, whole);
            let page = listed_runs(runs, merged, status, offset, limit);
            &&& offset >= all.len() ==> page.len() == 0
            &&& offset < all.len() && limit <= all.len() - offset ==> page.len() == limit
            &&& offset < all.len() && limit > all.len() - offset ==> page.len() == all.len() - offset
            &&& forall|k: int| 0 <= k < page.len() ==> #[trigger] page[k] == all[offset + k]
        }),
{
    let sorted = newest_first(runs, runs.len() as int);
    newest_first_is_sorted(runs, runs.len() as int);
    let names = if merged {
        first_of_each(sorted, sorted.len() as int)
    } else {
        runs
    };
    lemma_first_of_each(sorted, sorted.len() as int);
    let chosen = of_status(names, status, names.len() as int);
    lemma_of_status(names, status, names.len() as int);
    newest_first_is_sorted(chosen, chosen.len() as int);
}

/// A run is ended exactly where it is there and running, with a status other than running; it then
/// has that status, the time and the outcome, and its health says whether it went well.
pub proof fn ended_run_says_how_it_went(
    id: Seq<char>,
    stored: Option<Run>,
    status: RunStatus,
    at: u64,
    outcome: Option<String>,
)
    ensures
        finishing(id, stored, status, at, outcome) is Ok == (status != RunStatus::Running && (stored matches Some(s)
            && s.status == RunStatus::Running)),
        status != RunStatus::Running && stored is None ==> (finishing(id, stored, status, at, outcome) matches Err(e)
            && e.code == "RUN_NOT_FOUND"@),
        finishing(id, stored, status, at, outcome) matches Ok(run) ==> {
            &&& run.status == status
            &&& run.finished_at == Some(at)
            &&& run.business_outcome == outcome
            &&& run.run_id == stored->0.run_id && run.started_at == stored->0.started_at
            &&& (outcome matches Some(o) && o@ == "failed"@) ==> run.health == RunHealth::Failed
            &&& !(outcome matches Some(o) && o@ == "failed"@) && status == RunStatus::Completed ==> run.health
                == RunHealth::Healthy
            &&& !(outcome matches Some(o) && o@ == "failed"@) && status != RunStatus::Completed ==> run.health
                == RunHealth::Degraded
        },
{
}

/// What is known of a node is stale exactly where it did not answer well, and its cursor moves only
/// where it said so.
pub proof fn cursor_moves_with_an_answer(called: CalledView, previous: u64)
    ensures
        cursor_after(called, previous).1 == !(called matches CalledView::Answered(response) && response.ok),
        cursor_after(called, previous).0 != previous ==> (called matches CalledView::Answered(response) && response.ok && (
        response.result matches Some(j) && j.get_u64("cursor"@) == Some(cursor_after(called, previous).0))),
        (called matches CalledView::Answered(response) && response.ok && (response.result matches Some(j) && j.get_u64(
            "cursor"@,
        ) is Some)) ==> Some(cursor_after(called, previous).0) == called->Answered_0.result->0.get_u64("cursor"@),
{
}

/// Of the peers that are asked, the first that succeeds answers.
pub proof fn first_peer_that_succeeds_answers(calls: Seq<Called>, from: int)
    requires
        0 <= from <= calls.len(),
    ensures
        match first_success(calls, from) {
            Some(j) => exists|i: int|
                from <= i < calls.len() && peer_success((#[trigger] calls[i])@) == Some(j) && forall|k: int|
                    from <= k < i ==> peer_success((#[trigger] calls[k])@) is None,
            None => forall|k: int| from <= k < calls.len() ==> peer_success((#[trigger] calls[k])@) is None,
        },
    decreases calls.len() - from,
{
    if from < calls.len() {
        first_peer_that_succeeds_answers(calls, from + 1);
        if peer_success(calls[from]@) is Some {
            assert(peer_success(calls[from]@) == first_success(calls, from));
        } else if first_success(calls, from + 1) is Some {
            let j = first_success(calls, from + 1)->0;
            let i = choose|i: int|
                from + 1 <= i < calls.len() && peer_success((#[trigger] calls[i])@) == Some(j) && forall|k: int|
                    from + 1 <= k < i ==> peer_success((#[trigger] calls[k])@) is None;
            assert(peer_success(calls[i]@) == Some(j));
        }
    }
}

/// A peer succeeds only where it answered that it did.
pub proof fn peer_succeeds_by_its_answer(called: CalledView)
    ensures
        peer_success(called) is Some ==> (called matches CalledView::Answered(response) && response.ok),
        (called matches CalledView::Answered(response) && response.ok && response.result is Some) ==> peer_success(called)
            == called->Answered_0.result,
{
}

/// A run begins as running, with nothing known of its health or outcome, under the name given for it
/// where there is one.
pub proof fn run_begins_unfinished(
    run: Run,
    params: JsonView,
    workspace: Option<Seq<char>>,
    agent: Option<Seq<char>>,
    target: Seq<char>,
    by: Option<Seq<char>>,
    now: u64,
    fresh: Seq<char>,
)
    requires
        begins_run(run, params, workspace, agent, target, by, now, fresh),
    ensures
        run.status == RunStatus::Running,
        run.health == RunHealth::Unknown,
        run.started_at == now,
        run.finished_at is None && run.business_outcome is None,
        params.get_str("runId"@) matches Some(id) ==> run.run_id@ == id,
        params.get_str("runId"@) is None ==> run.run_id@ == fresh,
        by matches Some(b) ==> run.created_by@ == b,
        by is None ==> run.created_by@ == "agent"@,
        run.target_summary@.len() <= 500 && run.target_summary@.is_prefix_of(target),
        run.workspace_session_id is Some == workspace is Some,
        workspace matches Some(w) ==> run.workspace_session_id->0@ == w,
        agent matches Some(a) ==> run.agent_session_id->0@ == a,
{
}

} // verus!
