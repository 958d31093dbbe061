//! Requests about tasks: submitting, waiting, retrying and cancelling.

use crate::json::{Json, JsonView};
use crate::rpc::{fails, need, required_str, rpc_error, unknown, unknown_error, RpcError, RpcErrorView};
use crate::schema::{Task, TaskFailure, TaskState};
use crate::table::{find_in, position, position_of};
use crate::task::{
    allowed, fresh_task, one_more_key, opt_failure, opt_text, retryable, scoped_view, slot, task_error_message,
    task_views, TaskError, TaskFailureView, TaskTable, TaskView,
};
use crate::text::concat3;
use vstd::prelude::*;

verus! {

/// The texts that a request to submit a task names: the session, the executor, the capability and
/// the idempotency key.
pub open spec fn submission(params: JsonView) -> Result<(Seq<char>, Seq<char>, Seq<char>, Seq<char>), RpcErrorView> {
    match need(params, "workspaceSessionId"@) {
        Err(e) => Err(e),
        Ok(session) => match need(params, "executorId"@) {
            Err(e) => Err(e),
            Ok(executor) => match need(params, "capability"@) {
                Err(e) => Err(e),
                Ok(capability) => match need(params, "idempotencyKey"@) {
                    Err(e) => Err(e),
                    Ok(key) => Ok((session, executor, capability, key)),
                },
            },
        },
    }
}

/// Whether the task that a request describes is new, or was submitted before and is there.
pub fn can_submit(tasks: &TaskTable, params: &Json) -> (r: bool)
    ensures
        r == (submission(params@) matches Ok(s) ==> tasks.answers_key(scoped_view(s.0, s.1, s.2, s.3))),
{
    match (
        required_str(params, "workspaceSessionId"),
        required_str(params, "executorId"),
        required_str(params, "capability"),
        required_str(params, "idempotencyKey"),
    ) {
        (Ok(session), Ok(executor), Ok(capability), Ok(key)) => tasks.answers(session, executor, capability, key),
        _ => true,
    }
}

/// Submits the task that a request describes. Where one was submitted under the same key for the
/// same capability, that is the one, and nothing changes. The second part of the result says so.
pub fn submit_task(
    tasks: &mut TaskTable,
    params: &Json,
    correlation_id: Option<String>,
    request_id: Option<String>,
    now: u64,
    id: &str,
) -> (r: Result<(Task, bool), RpcError>)
    requires
        old(tasks).wf(),
        position_of(old(tasks).tasks@, id@) is None,
        submission(params@) matches Ok(s) ==> old(tasks).answers_key(scoped_view(s.0, s.1, s.2, s.3)),
    ensures
        final(tasks).wf(),
        match submission(params@) {
            Err(e) => fails(r, e) && *final(tasks) == *old(tasks),
            Ok(s) => {
                let entry = find_in(old(tasks).index@, scoped_view(s.0, s.1, s.2, s.3));
                &&& r matches Ok(p)
                &&& p.1 == (entry is Some)
                &&& p.1 ==> *final(tasks) == *old(tasks) && (find_in(old(tasks).tasks@, entry->0.id@) matches Some(t)
                    && p.0@ == t@)
                &&& !p.1 ==> p.0@ == fresh_task(
                    id@,
                    s.0,
                    s.1,
                    s.2,
                    params@.get_or_null("input"@),
                    s.3,
                    opt_text(correlation_id),
                    opt_text(request_id),
                    now,
                ) && task_views(final(tasks).tasks@) == task_views(old(tasks).tasks@).insert(
                    slot(old(tasks).tasks@, id@),
                    p.0@,
                ) && one_more_key(final(tasks).index@, old(tasks).index@, scoped_view(s.0, s.1, s.2, s.3), id@)
            },
        },
{
    let session = match required_str(params, "workspaceSessionId") {
        Ok(s) => s,
        Err(e) => return Err(e),
    };
    let executor = match required_str(params, "executorId") {
        Ok(s) => s,
        Err(e) => return Err(e),
    };
    let capability = match required_str(params, "capability") {
        Ok(s) => s,
        Err(e) => return Err(e),
    };
    let key = match required_str(params, "idempotencyKey") {
        Ok(s) => s,
        Err(e) => return Err(e),
    };
    Ok(
        tasks.submit_traced(
            session,
            executor,
            capability,
            params.copy_or_null("input"),
            key,
            correlation_id,
            request_id,
            now,
            id,
        ),
    )
}

/// How long a request to wait for a task waits, in milliseconds.
pub open spec fn wait_limit(params: JsonView) -> u64 {
    let asked = params.u64_or("timeoutMs"@, 30_000);
    if asked < 3_600_000 {
        asked
    } else {
        3_600_000
    }
}

/// How long a request to wait for a task waits: half a minute unless it says otherwise, an hour at
/// most.
pub fn wait_timeout_ms(params: &Json) -> (r: u64)
    ensures
        r == wait_limit(params@),
{
    let asked = params.u64_or("timeoutMs", 30_000);
    if asked < 3_600_000 {
        asked
    } else {
        3_600_000
    }
}

/// What somebody who waits for a task does next.
#[derive(Debug)]
pub enum Wait {
    /// The task at a position has ended.
    Over(usize),
    /// Look again after a while.
    Again,
}

/// Looks at a task that somebody waits for; `late` says that the time to wait is over.
pub fn wait_step(tasks: &TaskTable, id: &str, late: bool) -> (r: Result<Wait, RpcError>)
    ensures
        match position_of(tasks.tasks@, id@) {
            None => fails(r, unknown("TASK_NOT_FOUND"@, "unknown task: "@, id@)),
            Some(i) => if tasks.tasks@[i].state.ended() {
                r matches Ok(Wait::Over(k)) && k == i
            } else if late {
                fails(r, rpc_error("TASK_WAIT_TIMEOUT"@, "task "@ + id@ + " did not finish before timeout"@))
            } else {
                r matches Ok(Wait::Again)
            },
        },
{
    let i = match position(&tasks.tasks, id) {
        Some(i) => i,
        None => return Err(unknown_error("TASK_NOT_FOUND", "unknown task: ", id)),
    };
    if tasks.tasks[i].state.terminal() {
        return Ok(Wait::Over(i));
    }
    if late {
        let message = concat3("task ", id, " did not finish before timeout");
        return Err(RpcError::new("TASK_WAIT_TIMEOUT", message.as_str()));
    }
    Ok(Wait::Again)
}

/// The error of a task as a controller answers it, under a code.
pub open spec fn task_rpc(code: Seq<char>, e: TaskError) -> RpcErrorView {
    rpc_error(code, task_error_message(e))
}

fn task_rpc_error(code: &str, e: TaskError) -> (r: RpcError)
    ensures
        r@ == task_rpc(code@, e),
{
    let message = e.message();
    RpcError::new(code, message.as_str())
}

/// Queues the task that a request names once more.
pub fn retry_task(tasks: &mut TaskTable, params: &Json, now: u64) -> (r: Result<Task, RpcError>)
    requires
        old(tasks).wf(),
    ensures
        final(tasks).wf(),
        match need(params@, "taskId"@) {
            Err(e) => fails(r, e) && *final(tasks) == *old(tasks),
            Ok(id) => match position_of(old(tasks).tasks@, id) {
                None => fails(r, task_rpc("TASK_NOT_RETRYABLE"@, TaskError::NotFound)) && *final(tasks) == *old(tasks),
                Some(i) => {
                    let t = old(tasks).tasks@[i]@;
                    if retryable(t.state) {
                        r matches Ok(task) && task@ == t.requeued(now) && task_views(final(tasks).tasks@)
                            == task_views(old(tasks).tasks@).update(i, task@) && final(tasks).index@
                            == old(tasks).index@
                    } else {
                        fails(
                            r,
                            task_rpc(
                                "TASK_NOT_RETRYABLE"@,
                                TaskError::InvalidTransition { from: t.state, to: TaskState::Queued },
                            ),
                        ) && *final(tasks) == *old(tasks)
                    }
                },
            },
        },
{
    let id = match required_str(params, "taskId") {
        Ok(s) => s,
        Err(e) => return Err(e),
    };
    match tasks.retry(id, now) {
        Ok(t) => Ok(t),
        Err(e) => Err(task_rpc_error("TASK_NOT_RETRYABLE", e)),
    }
}

/// What moving a task into a state gives.
pub open spec fn moves(
    r: Result<Task, RpcError>,
    after: TaskTable,
    before: TaskTable,
    id: Seq<char>,
    state: TaskState,
    output: Option<JsonView>,
    error: Option<TaskFailureView>,
    now: u64,
) -> bool {
    match position_of(before.tasks@, id) {
        None => fails(r, task_rpc("INVALID_TASK_STATE"@, TaskError::NotFound)) && after == before,
        Some(i) => {
            let t = before.tasks@[i]@;
            if allowed(t.state, state) {
                r matches Ok(task) && task@ == t.moved(state, output, error, now) && task_views(after.tasks@)
                    == task_views(before.tasks@).update(i, task@) && after.index@ == before.index@
            } else {
                fails(
                    r,
                    task_rpc("INVALID_TASK_STATE"@, TaskError::InvalidTransition { from: t.state, to: state }),
                ) && after == before
            }
        },
    }
}

fn move_task(
    tasks: &mut TaskTable,
    id: &str,
    state: TaskState,
    output: Option<Json>,
    error: Option<TaskFailure>,
    now: u64,
) -> (r: Result<Task, RpcError>)
    requires
        old(tasks).wf(),
    ensures
        final(tasks).wf(),
        moves(r, *final(tasks), *old(tasks), id@, state, crate::json::opt_json(output), opt_failure(error), now),
{
    match tasks.transition(id, state, output, error, now) {
        Ok(t) => Ok(t),
        Err(e) => Err(task_rpc_error("INVALID_TASK_STATE", e)),
    }
}

/// Moves the task that a request names into a state, with the output that it gives.
pub fn transition_task(tasks: &mut TaskTable, params: &Json, state: TaskState, now: u64) -> (r: Result<Task, RpcError>)
    requires
        old(tasks).wf(),
    ensures
        final(tasks).wf(),
        match need(params@, "taskId"@) {
            Err(e) => fails(r, e) && *final(tasks) == *old(tasks),
            Ok(id) => moves(r, *final(tasks), *old(tasks), id, state, params@.get("output"@), None, now),
        },
{
    let id = match required_str(params, "taskId") {
        Ok(s) => s,
        Err(e) => return Err(e),
    };
    move_task(tasks, id, state, params.copy_field("output"), None, now)
}

/// The process that runs a task, where it is known.
pub open spec fn process_of(t: TaskView) -> Option<Seq<char>> {
    match t.input.get_str("processId"@) {
        Some(p) => Some(p),
        None => match t.output {
            Some(o) => o.get_str("id"@),
            None => None,
        },
    }
}

/// What is left to do to cancel a task.
#[derive(Debug)]
pub enum Cancellation {
    /// Nothing: the task has ended before.
    Ended(Task),
    /// Nothing: the task was still queued and is cancelled.
    Settled(Task),
    /// Its process has to be stopped, where one is known. The task is told as it was when that was
    /// asked for, and as it is now.
    Stop { asked: Task, task: Task, process_id: Option<String> },
}

/// Whether a cancellation is what cancelling a task leaves to do.
pub open spec fn cancels(c: Cancellation, after: TaskTable, before: TaskTable, i: int, now: u64) -> bool {
    let t = before.tasks@[i]@;
    if t.state.ended() {
        (c matches Cancellation::Ended(x) && x@ == t) && after == before
    } else if t.state == TaskState::Queued {
        (c matches Cancellation::Settled(x) && x@ == t.moved(TaskState::Cancelled, None, None, now)) && task_views(
            after.tasks@,
        ) == task_views(before.tasks@).update(i, t.moved(TaskState::Cancelled, None, None, now)) && after.index@
            == before.index@
    } else {
        let requested = t.moved(TaskState::CancelRequested, None, None, now);
        let stopping = requested.moved(TaskState::Cancelling, None, None, now);
        (c matches Cancellation::Stop { asked, task, process_id } && asked@ == requested && task@ == stopping && opt_text(
            process_id,
        ) == process_of(t))
            && task_views(after.tasks@) == task_views(before.tasks@).update(i, stopping) && after.index@ == before.index@
    }
}

/// Begins to cancel the task that a request names, for an operator. A task that is queued is
/// cancelled at once; one that runs is cancelling until its process was stopped.
pub fn begin_cancel(tasks: &mut TaskTable, params: &Json, now: u64) -> (r: Result<Cancellation, RpcError>)
    requires
        old(tasks).wf(),
    ensures
        final(tasks).wf(),
        if params@.get_bool("_operatorAuthorized"@) != Some(true) {
            fails(r, rpc_error("OPERATOR_REQUIRED"@, "task cancellation requires an operator nonce"@))
                && *final(tasks) == *old(tasks)
        } else {
            match need(params@, "taskId"@) {
                Err(e) => fails(r, e) && *final(tasks) == *old(tasks),
                Ok(id) => match position_of(old(tasks).tasks@, id) {
                    None => fails(r, unknown("TASK_NOT_FOUND"@, "unknown task: "@, id)) && *final(tasks) == *old(tasks),
                    Some(i) => {
                        let t = old(tasks).tasks@[i]@;
                        if t.state.ended() || t.state == TaskState::Queued || allowed(
                            t.state,
                            TaskState::CancelRequested,
                        ) {
                            r matches Ok(c) && cancels(c, *final(tasks), *old(tasks), i, now)
                        } else {
                            fails(
                                r,
                                task_rpc(
                                    "INVALID_TASK_STATE"@,
                                    TaskError::InvalidTransition { from: t.state, to: TaskState::CancelRequested },
                                ),
                            ) && *final(tasks) == *old(tasks)
                        }
                    },
                },
            }
        },
{
    if params.get_bool("_operatorAuthorized") != Some(true) {
        return Err(RpcError::new("OPERATOR_REQUIRED", "task cancellation requires an operator nonce"));
    }
    let id = match required_str(params, "taskId") {
        Ok(s) => s,
        Err(e) => return Err(e),
    };
    let i = match position(&tasks.tasks, id) {
        Some(i) => i,
        None => return Err(unknown_error("TASK_NOT_FOUND", "unknown task: ", id)),
    };
    let ghost t = tasks.tasks@[i as int]@;
    let state = tasks.tasks[i].state;
    if state.terminal() {
        return Ok(Cancellation::Ended(tasks.tasks[i].clone()));
    }
    if state == TaskState::Queued {
        return match move_task(tasks, id, TaskState::Cancelled, None, None, now) {
            Ok(task) => Ok(Cancellation::Settled(task)),
            Err(e) => Err(e),
        };
    }
    let process_id = match tasks.tasks[i].input.get_text("processId") {
        Some(p) => Some(p),
        None => match &tasks.tasks[i].output {
            Some(o) => o.get_text("id"),
            None => None,
        },
    };
    let ghost before = *tasks;
    let asked = match move_task(tasks, id, TaskState::CancelRequested, None, None, now) {
        Ok(task) => task,
        Err(e) => return Err(e),
    };
    proof {
        assert(task_views(tasks.tasks@).len() == task_views(before.tasks@).len());
        assert(tasks.tasks@.len() == before.tasks@.len());
        lemma_view_names(before.tasks@, tasks.tasks@, i as int, id@);
        assert(task_views(tasks.tasks@)[i as int] == tasks.tasks@[i as int]@);
    }
    let ghost mid = *tasks;
    match move_task(tasks, id, TaskState::Cancelling, None, None, now) {
        Ok(task) => {
            proof {
                assert(task_views(tasks.tasks@) =~= task_views(before.tasks@).update(i as int, task@));
            }
            Ok(Cancellation::Stop { asked, task, process_id })
        },
        Err(e) => Err(e),
    }
}

proof fn lemma_view_names(a: Seq<Task>, b: Seq<Task>, i: int, id: Seq<char>)
    requires
        0 <= i < a.len(),
        position_of(a, id) == Some(i),
        a[i].id@ == id,
        task_views(b).len() == task_views(a).len(),
        forall|k: int| 0 <= k < a.len() && k != i ==> #[trigger] task_views(b)[k] == task_views(a)[k],
        task_views(b)[i].id == id,
    ensures
        position_of(b, id) == Some(i),
{
    assert forall|k: int| 0 <= k < a.len() implies (#[trigger] a[k]).id@ == b[k].id@ by {
        assert(task_views(a)[k] == a[k]@);
        assert(task_views(b)[k] == b[k]@);
    }
    crate::table::lemma_position_by_names(a, b, id, 0);
}

/// The state and the failure of a task whose process was to be stopped, with what came of it.
pub open spec fn stop_outcome(stopped: Result<JsonView, RpcErrorView>) -> (TaskState, Option<TaskFailureView>) {
    match stopped {
        Ok(_) => (TaskState::Cancelled, None),
        Err(e) => (
            TaskState::FailedToCancel,
            Some(TaskFailureView { code: e.code, message: e.message, retryable: e.retryable, details: e.details }),
        ),
    }
}

/// What a result holds.
pub open spec fn result_view(r: Result<Json, RpcError>) -> Result<JsonView, RpcErrorView> {
    match r {
        Ok(j) => Ok(j@),
        Err(e) => Err(e@),
    }
}

/// The error that the process of a task is not known.
pub fn no_process() -> (r: RpcError)
    ensures
        r@ == rpc_error("TASK_PROCESS_NOT_REGISTERED"@, "running task has no registered processId"@),
{
    RpcError::new("TASK_PROCESS_NOT_REGISTERED", "running task has no registered processId")
}

/// Ends the cancelling of a task with what came of stopping its process.
pub fn finish_cancel(tasks: &mut TaskTable, task_id: &str, stopped: Result<Json, RpcError>, now: u64) -> (r: Result<Task, RpcError>)
    requires
        old(tasks).wf(),
    ensures
        final(tasks).wf(),
        ({
            let s = stop_outcome(result_view(stopped));
            moves(r, *final(tasks), *old(tasks), task_id@, s.0, None, s.1, now)
        }),
{
    match stopped {
        Ok(_) => move_task(tasks, task_id, TaskState::Cancelled, None, None, now),
        Err(e) => {
            let failure = TaskFailure {
                code: e.code,
                message: e.message,
                retryable: e.retryable,
                details: e.details,
            };
            move_task(tasks, task_id, TaskState::FailedToCancel, None, Some(failure), now)
        },
    }
}

/// Cancelling a task that is over leaves it as it is, one that is queued ends at once, and one that
/// runs is first asked and then being cancelled, until the process that it named is stopped.
pub proof fn cancelling_goes_by_the_state(c: Cancellation, after: TaskTable, before: TaskTable, i: int, now: u64)
    requires
        cancels(c, after, before, i, now),
        0 <= i < before.tasks@.len(),
        before.tasks@[i].state != TaskState::CancelRequested && before.tasks@[i].state != TaskState::Cancelling,
    ensures
        match before.tasks@[i].state {
            TaskState::Queued => c matches Cancellation::Settled(x) && x@.state == TaskState::Cancelled && x@.id
                == before.tasks@[i].id@ && task_views(after.tasks@)[i].state == TaskState::Cancelled,
            TaskState::Running => c matches Cancellation::Stop { asked, task, process_id } && asked@.state
                == TaskState::CancelRequested && task@.state == TaskState::Cancelling && task@.id == before.tasks@[i].id@
                && task@.executor_id == before.tasks@[i].executor_id@ && task_views(after.tasks@)[i] == task@ && (
            before.tasks@[i].input@.get_str("processId"@) matches Some(p) ==> opt_text(process_id) == Some(p)),
            _ => c matches Cancellation::Ended(x) && x@ == before.tasks@[i]@ && after == before,
        },
        forall|k: int|
            0 <= k < before.tasks@.len() && k != i ==> #[trigger] task_views(after.tasks@)[k] == task_views(
                before.tasks@,
            )[k],
{
    assert(task_views(before.tasks@).len() == before.tasks@.len());
}

/// A task is cancelled exactly where its process was stopped; otherwise it says why it was not.
pub proof fn cancelled_means_stopped(stopped: Result<JsonView, RpcErrorView>)
    ensures
        stop_outcome(stopped).0 == TaskState::Cancelled <==> stopped is Ok,
        stopped matches Err(e) ==> stop_outcome(stopped).0 == TaskState::FailedToCancel && (stop_outcome(stopped).1
            matches Some(f) && f.code == e.code && f.message == e.message),
        stopped is Ok ==> stop_outcome(stopped).1 is None,
{
}

/// A wait lasts as long as was asked for, but never longer than an hour.
pub proof fn waits_are_bounded(params: JsonView)
    ensures
        wait_limit(params) <= 3_600_000,
        params.get_u64("timeoutMs"@) matches Some(t) ==> (t <= 3_600_000 ==> wait_limit(params) == t) && (t > 3_600_000
            ==> wait_limit(params) == 3_600_000),
        params.get_u64("timeoutMs"@) is None ==> wait_limit(params) == 30_000,
{
}

} // verus!
