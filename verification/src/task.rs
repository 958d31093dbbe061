//! Tasks: their states, their idempotent submission, their retention and their recovery.

use crate::json::{Json, JsonView};
use crate::lease::{end_of, later};
use crate::schema::{Task, TaskEvent, TaskFailure, TaskState};
use crate::table::{
    find_in, lemma_position_by_names, lemma_position_from, lemma_position_unique, lemma_without, lookup, position,
    position_of, remove_by, removed_record_is_gone, unique, upserted_record_is_found, without, Keyed,
};
use crate::text::{str_lt, text_lt, text_order_is_total, text_order_is_transitive};
use vstd::prelude::*;

verus! {

/// What an event of a task holds.
pub struct TaskEventView {
    pub sequence: u64,
    pub timestamp: u64,
    pub event_type: Seq<char>,
    pub details: JsonView,
}

/// What a failure holds.
pub struct TaskFailureView {
    pub code: Seq<char>,
    pub message: Seq<char>,
    pub retryable: bool,
    pub details: JsonView,
}

/// What a task holds.
pub struct TaskView {
    pub id: Seq<char>,
    pub correlation_id: Option<Seq<char>>,
    pub request_id: Option<Seq<char>>,
    pub workspace_session_id: Seq<char>,
    pub executor_id: Seq<char>,
    pub capability: Seq<char>,
    pub input: JsonView,
    pub output: Option<JsonView>,
    pub error: Option<TaskFailureView>,
    pub idempotency_key: Seq<char>,
    pub state: TaskState,
    pub attempt: u32,
    pub created_at: u64,
    pub updated_at: u64,
    pub events: Seq<TaskEventView>,
}

impl View for TaskEvent {
    type V = TaskEventView;

    open spec fn view(&self) -> TaskEventView {
        TaskEventView {
            sequence: self.sequence,
            timestamp: self.timestamp,
            event_type: self.event_type@,
            details: self.details@,
        }
    }
}

impl View for TaskFailure {
    type V = TaskFailureView;

    open spec fn view(&self) -> TaskFailureView {
        TaskFailureView {
            code: self.code@,
            message: self.message@,
            retryable: self.retryable,
            details: self.details@,
        }
    }
}

/// The characters of an optional text.
pub open spec fn opt_text(s: Option<String>) -> Option<Seq<char>> {
    match s {
        Some(t) => Some(t@),
        None => None,
    }
}

/// What an optional failure holds.
pub open spec fn opt_failure(f: Option<TaskFailure>) -> Option<TaskFailureView> {
    match f {
        Some(t) => Some(t@),
        None => None,
    }
}

/// What each event of a list holds.
pub open spec fn event_views(events: Seq<TaskEvent>) -> Seq<TaskEventView> {
    events.map_values(|e: TaskEvent| e@)
}

impl View for Task {
    type V = TaskView;

    open spec fn view(&self) -> TaskView {
        TaskView {
            id: self.id@,
            correlation_id: opt_text(self.correlation_id),
            request_id: opt_text(self.request_id),
            workspace_session_id: self.workspace_session_id@,
            executor_id: self.executor_id@,
            capability: self.capability@,
            input: self.input@,
            output: crate::json::opt_json(self.output),
            error: opt_failure(self.error),
            idempotency_key: self.idempotency_key@,
            state: self.state,
            attempt: self.attempt,
            created_at: self.created_at,
            updated_at: self.updated_at,
            events: event_views(self.events@),
        }
    }
}

/// What each task of a list holds.
pub open spec fn task_views(tasks: Seq<Task>) -> Seq<TaskView> {
    tasks.map_values(|t: Task| t@)
}

impl Clone for TaskEvent {
    fn clone(&self) -> (r: TaskEvent)
        ensures
            r@ == self@,
    {
        TaskEvent {
            sequence: self.sequence,
            timestamp: self.timestamp,
            event_type: self.event_type.clone(),
            details: self.details.copy(),
        }
    }
}

impl Clone for TaskFailure {
    fn clone(&self) -> (r: TaskFailure)
        ensures
            r@ == self@,
    {
        TaskFailure {
            code: self.code.clone(),
            message: self.message.clone(),
            retryable: self.retryable,
            details: self.details.copy(),
        }
    }
}

impl Clone for Task {
    fn clone(&self) -> (r: Task)
        ensures
            r@ == self@,
    {
        let mut events: Vec<TaskEvent> = Vec::new();
        let mut i: usize = 0;
        while i < self.events.len()
            invariant
                i <= self.events.len(),
                events@.len() == i,
                forall|k: int| 0 <= k < i ==> events@[k]@ == self.events@[k]@,
            decreases self.events.len() - i,
        {
            events.push(self.events[i].clone());
            i += 1;
        }
        let output = match &self.output {
            Some(j) => Some(j.copy()),
            None => None,
        };
        let error = match &self.error {
            Some(e) => Some(e.clone()),
            None => None,
        };
        assert(event_views(events@) =~= event_views(self.events@));
        Task {
            id: self.id.clone(),
            correlation_id: self.correlation_id.clone(),
            request_id: self.request_id.clone(),
            workspace_session_id: self.workspace_session_id.clone(),
            executor_id: self.executor_id.clone(),
            capability: self.capability.clone(),
            input: self.input.copy(),
            output,
            error,
            idempotency_key: self.idempotency_key.clone(),
            state: self.state,
            attempt: self.attempt,
            created_at: self.created_at,
            updated_at: self.updated_at,
            events,
        }
    }
}

/// Why a task could not be changed.
#[derive(Debug, Clone, Copy, PartialEq, Eq, Structural)]
pub enum TaskError {
    NotFound,
    InvalidTransition { from: TaskState, to: TaskState },
}

/// The name of a task state in messages.
pub open spec fn state_word(s: TaskState) -> Seq<char> {
    match s {
        TaskState::Queued => "Queued"@,
        TaskState::Running => "Running"@,
        TaskState::CancelRequested => "CancelRequested"@,
        TaskState::Cancelling => "Cancelling"@,
        TaskState::Succeeded => "Succeeded"@,
        TaskState::Failed => "Failed"@,
        TaskState::Cancelled => "Cancelled"@,
        TaskState::FailedToCancel => "FailedToCancel"@,
        TaskState::TimedOut => "TimedOut"@,
        TaskState::OutcomeUnknown => "OutcomeUnknown"@,
    }
}

fn word_of(s: TaskState) -> (r: &'static str)
    ensures
        r@ == state_word(s),
{
    match s {
        TaskState::Queued => "Queued",
        TaskState::Running => "Running",
        TaskState::CancelRequested => "CancelRequested",
        TaskState::Cancelling => "Cancelling",
        TaskState::Succeeded => "Succeeded",
        TaskState::Failed => "Failed",
        TaskState::Cancelled => "Cancelled",
        TaskState::FailedToCancel => "FailedToCancel",
        TaskState::TimedOut => "TimedOut",
        TaskState::OutcomeUnknown => "OutcomeUnknown",
    }
}

/// The message of a task error.
pub open spec fn task_error_message(e: TaskError) -> Seq<char> {
    match e {
        TaskError::NotFound => "task not found"@,
        TaskError::InvalidTransition { from, to } => "invalid transition from "@ + state_word(from) + " to "@
            + state_word(to),
    }
}

impl TaskError {
    /// The message of the error.
    pub fn message(&self) -> (r: String)
        ensures
            r@ == task_error_message(*self),
    {
        match self {
            TaskError::NotFound => "task not found".to_owned(),
            TaskError::InvalidTransition { from, to } => crate::text::concat4(
                "invalid transition from ",
                word_of(*from),
                " to ",
                word_of(*to),
            ),
        }
    }
}

impl Keyed for Task {
    open spec fn key_view(&self) -> Seq<char> {
        self.id@
    }

    fn key(&self) -> (r: &str) {
        self.id.as_str()
    }
}

/// The task that a scoped key stands for.
#[derive(Debug, PartialEq, Eq)]
pub struct KeyEntry {
    pub key: String,
    pub id: String,
}

impl Keyed for KeyEntry {
    open spec fn key_view(&self) -> Seq<char> {
        self.key@
    }

    fn key(&self) -> (r: &str) {
        self.key.as_str()
    }
}

/// An idempotency key within its session, executor and capability.
pub open spec fn scoped_view(session: Seq<char>, executor: Seq<char>, capability: Seq<char>, key: Seq<char>) -> Seq<
    char,
> {
    session + "\0"@ + executor + "\0"@ + capability + "\0"@ + key
}

/// An idempotency key within its session, executor and capability.
pub fn scoped_idempotency_key(workspace_session_id: &str, executor_id: &str, capability: &str, key: &str) -> (r: String)
    ensures
        r@ == scoped_view(workspace_session_id@, executor_id@, capability@, key@),
{
    let mut s = workspace_session_id.to_owned();
    s.append("\0");
    s.append(executor_id);
    s.append("\0");
    s.append(capability);
    s.append("\0");
    s.append(key);
    s
}

/// The scoped key of a task.
pub open spec fn scoped_of(t: Task) -> Seq<char> {
    scoped_view(t.workspace_session_id@, t.executor_id@, t.capability@, t.idempotency_key@)
}

fn scoped_key_of(t: &Task) -> (r: String)
    ensures
        r@ == scoped_of(*t),
{
    scoped_idempotency_key(
        t.workspace_session_id.as_str(),
        t.executor_id.as_str(),
        t.capability.as_str(),
        t.idempotency_key.as_str(),
    )
}

/// Whether a task may go from one state to another.
pub open spec fn allowed(from: TaskState, to: TaskState) -> bool {
    match from {
        TaskState::Queued => to == TaskState::Running || to == TaskState::Cancelled,
        TaskState::Running => to == TaskState::CancelRequested || to == TaskState::Succeeded || to
            == TaskState::Failed || to == TaskState::Cancelled || to == TaskState::TimedOut || to
            == TaskState::OutcomeUnknown,
        TaskState::CancelRequested => to == TaskState::Cancelling,
        TaskState::Cancelling => to == TaskState::Cancelled || to == TaskState::FailedToCancel,
        _ => false,
    }
}

/// Whether a task that ended in a state may be tried again.
pub open spec fn retryable(s: TaskState) -> bool {
    s == TaskState::Failed || s == TaskState::TimedOut || s == TaskState::OutcomeUnknown || s
        == TaskState::FailedToCancel
}

/// Whether a task in a state was under way when its controller went away.
pub open spec fn in_flight(s: TaskState) -> bool {
    s == TaskState::Queued || s == TaskState::Running
}

/// The event that comes next in the life of a task.
pub open spec fn next_event(t: TaskView, event_type: Seq<char>, now: u64) -> TaskEventView {
    TaskEventView {
        sequence: later(t.events.len() as u64, 1),
        timestamp: now,
        event_type,
        details: JsonView::Null,
    }
}

impl TaskView {
    /// The task with one more event.
    pub open spec fn noting(self, event_type: Seq<char>, now: u64) -> TaskView {
        TaskView { events: self.events.push(next_event(self, event_type, now)), ..self }
    }

    /// The task after it went to a state.
    pub open spec fn moved(
        self,
        state: TaskState,
        output: Option<JsonView>,
        error: Option<TaskFailureView>,
        now: u64,
    ) -> TaskView {
        TaskView {
            attempt: if state == TaskState::Running && self.attempt < u32::MAX {
                (self.attempt + 1) as u32
            } else {
                self.attempt
            },
            state,
            output,
            error,
            updated_at: now,
            ..self
        }.noting("task."@ + state.name_view(), now)
    }

    /// The task after it was queued again.
    pub open spec fn requeued(self, now: u64) -> TaskView {
        TaskView { state: TaskState::Queued, output: None, error: None, updated_at: now, ..self }.noting(
            "task.retried"@,
            now,
        )
    }

    /// The task after its controller restarted without knowing its outcome.
    pub open spec fn orphaned(self, now: u64) -> TaskView {
        if in_flight(self.state) {
            TaskView {
                state: TaskState::OutcomeUnknown,
                error: Some(restart_failure()),
                updated_at: now,
                ..self
            }.noting("task.outcome-unknown"@, now)
        } else {
            self
        }
    }

    /// Whether the events are numbered from one, without a gap.
    pub open spec fn events_numbered(self) -> bool {
        forall|i: int| 0 <= i < self.events.len() ==> (#[trigger] self.events[i]).sequence == i + 1
    }
}

/// The failure of a task whose controller restarted.
pub open spec fn restart_failure() -> TaskFailureView {
    TaskFailureView {
        code: "CONTROLLER_RESTARTED"@,
        message: "controller restarted before the task outcome was recorded"@,
        retryable: true,
        details: JsonView::Null,
    }
}

/// What a task that is submitted for the first time holds.
pub open spec fn fresh_task(
    id: Seq<char>,
    session: Seq<char>,
    executor: Seq<char>,
    capability: Seq<char>,
    input: JsonView,
    key: Seq<char>,
    correlation_id: Option<Seq<char>>,
    request_id: Option<Seq<char>>,
    now: u64,
) -> TaskView {
    TaskView {
        id,
        correlation_id,
        request_id,
        workspace_session_id: session,
        executor_id: executor,
        capability,
        input,
        output: None,
        error: None,
        idempotency_key: key,
        state: TaskState::Queued,
        attempt: 0,
        created_at: now,
        updated_at: now,
        events: Seq::empty(),
    }.noting("task.queued"@, now)
}

/// Whether the tasks of a list stand in the order of their identities, each once.
pub open spec fn ordered(tasks: Seq<Task>) -> bool {
    forall|i: int, j: int|
        0 <= i < j < tasks.len() ==> text_lt((#[trigger] tasks[i]).id@, (#[trigger] tasks[j]).id@)
}

/// Where a task with an identity belongs in an ordered list: before the first greater one.
pub open spec fn slot_from(tasks: Seq<Task>, id: Seq<char>, from: int) -> int
    decreases tasks.len() - from,
{
    if from < 0 || from >= tasks.len() || text_lt(id, tasks[from].id@) {
        from
    } else {
        slot_from(tasks, id, from + 1)
    }
}

/// Where a task with an identity belongs in an ordered list.
pub open spec fn slot(tasks: Seq<Task>, id: Seq<char>) -> int {
    slot_from(tasks, id, 0)
}

proof fn lemma_slot(tasks: Seq<Task>, id: Seq<char>, from: int)
    requires
        0 <= from <= tasks.len(),
    ensures
        from <= slot_from(tasks, id, from) <= tasks.len(),
        forall|j: int| from <= j < slot_from(tasks, id, from) ==> !text_lt(id, (#[trigger] tasks[j]).id@),
        slot_from(tasks, id, from) < tasks.len() ==> text_lt(id, tasks[slot_from(tasks, id, from)].id@),
    decreases tasks.len() - from,
{
    if from < tasks.len() && !text_lt(id, tasks[from].id@) {
        lemma_slot(tasks, id, from + 1);
    }
}

proof fn lemma_insert_ordered(tasks: Seq<Task>, t: Task)
    requires
        ordered(tasks),
        position_of(tasks, t.id@) is None,
    ensures
        ordered(tasks.insert(slot(tasks, t.id@), t)),
{
    let p = slot(tasks, t.id@);
    let r = tasks.insert(p, t);
    lemma_slot(tasks, t.id@, 0);
    lemma_position_from(tasks, t.id@, 0);
    assert forall|i: int, j: int| 0 <= i < j < r.len() implies text_lt((#[trigger] r[i]).id@, (
    #[trigger] r[j]).id@) by {
        if j == p {
            text_order_is_total(tasks[i].id@, t.id@);
        } else if i == p {
            let k = j - 1;
            if k > p {
                text_order_is_transitive(t.id@, tasks[p].id@, tasks[k].id@);
            }
        }
    }
}

/// An ordered list has each identity once.
pub proof fn ordered_is_unique(tasks: Seq<Task>)
    requires
        ordered(tasks),
    ensures
        unique(tasks),
{
    assert forall|i: int, j: int| 0 <= i < j < tasks.len() implies (#[trigger] tasks[i]).key_view() != (
    #[trigger] tasks[j]).key_view() by {
        text_order_is_total(tasks[i].id@, tasks[j].id@);
    }
}

/// Whether the scoped keys of an index stand for tasks that have them.
pub open spec fn indexes(index: Seq<KeyEntry>, tasks: Seq<Task>) -> bool {
    forall|k: int|
        0 <= k < index.len() ==> (find_in(tasks, (#[trigger] index[k]).id@) matches Some(t) && scoped_of(t)
            == index[k].key@)
}

/// Whether the scoped key of every task stands for it.
pub open spec fn keyed_by(index: Seq<KeyEntry>, tasks: Seq<Task>) -> bool {
    forall|i: int|
        0 <= i < tasks.len() ==> key_id(index, scoped_of(#[trigger] tasks[i])) == Some(tasks[i].id@)
}

/// Whether no two tasks of a list share a scoped key.
pub open spec fn keys_differ(all: Seq<Task>) -> bool {
    forall|i: int, j: int| 0 <= i < j < all.len() ==> scoped_of(#[trigger] all[i]) != scoped_of(#[trigger] all[j])
}

/// Whether an index is another one with one more key, which stands for a task.
pub open spec fn one_more_key(after: Seq<KeyEntry>, before: Seq<KeyEntry>, key: Seq<char>, id: Seq<char>) -> bool {
    &&& after.len() == before.len() + 1
    &&& after.drop_last() == before
    &&& after.last().key@ == key
    &&& after.last().id@ == id
}

/// The tasks of a controller, in the order of their identities, and what their idempotency keys
/// stand for.
#[derive(Debug)]
pub struct TaskTable {
    pub tasks: Vec<Task>,
    pub index: Vec<KeyEntry>,
}

/// The tasks of a list from a position on, in order, where of those that share an identity the
/// last counts.
pub open spec fn load_from(all: Seq<Task>, n: int) -> Seq<Task>
    decreases all.len() - n,
{
    if n < 0 || n >= all.len() {
        Seq::empty()
    } else {
        let rest = load_from(all, n + 1);
        if position_of(rest, all[n].id@) is Some {
            rest
        } else {
            rest.insert(slot(rest, all[n].id@), all[n])
        }
    }
}

/// The task that a scoped key stands for in a list from a position on: the last that has it.
pub open spec fn key_owner(all: Seq<Task>, n: int, key: Seq<char>) -> Option<Seq<char>>
    decreases all.len() - n,
{
    if n < 0 || n >= all.len() {
        None
    } else {
        match key_owner(all, n + 1, key) {
            Some(id) => Some(id),
            None => if scoped_of(all[n]) == key {
                Some(all[n].id@)
            } else {
                None
            },
        }
    }
}

/// The task that a scoped key stands for in an index.
pub open spec fn key_id(index: Seq<KeyEntry>, key: Seq<char>) -> Option<Seq<char>> {
    match find_in(index, key) {
        Some(e) => Some(e.id@),
        None => None,
    }
}

/// Whether a scoped key stands for nothing, or for a task that is there.
pub open spec fn answered(index: Seq<KeyEntry>, tasks: Seq<Task>, key: Seq<char>) -> bool {
    key_id(index, key) matches Some(id) ==> position_of(tasks, id) is Some
}

/// Whether no two tasks of a list share an identity.
pub open spec fn distinct(all: Seq<Task>) -> bool {
    forall|i: int, j: int| 0 <= i < j < all.len() ==> (#[trigger] all[i]).id@ != (#[trigger] all[j]).id@
}

/// Every key of tasks that were loaded stands for a task that is there.
pub proof fn loaded_keys_are_answered(all: Seq<Task>, n: int, key: Seq<char>)
    requires
        0 <= n,
    ensures
        key_owner(all, n, key) matches Some(id) ==> position_of(load_from(all, n), id) is Some,
    decreases all.len() - n,
{
    if n < all.len() {
        loaded_keys_are_answered(all, n + 1, key);
        lemma_load_ordered(all, n + 1);
        let rest = load_from(all, n + 1);
        let r = load_from(all, n);
        let p = slot(rest, all[n].id@);
        lemma_slot(rest, all[n].id@, 0);
        match key_owner(all, n, key) {
            Some(id) => {
                lemma_position_from(rest, id, 0);
                lemma_position_from(r, id, 0);
                if position_of(rest, all[n].id@) is None {
                    match position_of(rest, id) {
                        Some(m) => {
                            if m < p {
                                assert(r[m] == rest[m]);
                            } else {
                                assert(r[m + 1] == rest[m]);
                            }
                        },
                        None => {
                            assert(r[p] == all[n]);
                        },
                    }
                }
            },
            None => {},
        }
    }
}

/// Every task that was loaded is found by its identity, where no later one has the same.
pub proof fn loaded_tasks_are_found(all: Seq<Task>, n: int, i: int)
    requires
        0 <= n <= i < all.len(),
        forall|j: int| i < j < all.len() ==> (#[trigger] all[j]).id@ != all[i].id@,
    ensures
        ordered(load_from(all, n)),
        find_in(load_from(all, n), all[i].id@) == Some(all[i]),
    decreases all.len() - n,
{
    lemma_load_ordered(all, n);
    lemma_load_ordered(all, n + 1);
    let rest = load_from(all, n + 1);
    let r = load_from(all, n);
    ordered_is_unique(r);
    lemma_position_from(rest, all[i].id@, 0);
    lemma_slot(rest, all[n].id@, 0);
    let p = slot(rest, all[n].id@);
    if n == i {
        match position_of(rest, all[i].id@) {
            Some(k) => {
                lemma_load_from(all, n + 1, k);
                let j = choose|j: int| n + 1 <= j < all.len() && #[trigger] all[j] == rest[k];
                assert(all[j].id@ == all[i].id@);
            },
            None => {
                assert(r[p] == all[n]);
                lemma_position_unique(r, p);
            },
        }
    } else {
        loaded_tasks_are_found(all, n + 1, i);
        let m = position_of(rest, all[i].id@)->0;
        if position_of(rest, all[n].id@) is None {
            if m < p {
                assert(r[m] == rest[m]);
                lemma_position_unique(r, m);
            } else {
                assert(r[m + 1] == rest[m]);
                lemma_position_unique(r, m + 1);
            }
        }
    }
}

proof fn lemma_load_ordered(all: Seq<Task>, n: int)
    requires
        0 <= n,
    ensures
        ordered(load_from(all, n)),
    decreases all.len() - n,
{
    if n < all.len() {
        lemma_load_ordered(all, n + 1);
        let rest = load_from(all, n + 1);
        if position_of(rest, all[n].id@) is None {
            lemma_insert_ordered(rest, all[n]);
        }
    }
}

proof fn lemma_load_from(all: Seq<Task>, n: int, k: int)
    requires
        0 <= n,
        0 <= k < load_from(all, n).len(),
    ensures
        exists|j: int| n <= j < all.len() && #[trigger] all[j] == load_from(all, n)[k],
    decreases all.len() - n,
{
    if n < all.len() {
        let rest = load_from(all, n + 1);
        let r = load_from(all, n);
        let p = slot(rest, all[n].id@);
        lemma_slot(rest, all[n].id@, 0);
        if position_of(rest, all[n].id@) is Some {
            lemma_load_from(all, n + 1, k);
            let j = choose|j: int| n + 1 <= j < all.len() && #[trigger] all[j] == rest[k];
            assert(all[j] == r[k]);
        } else if k == p {
            assert(all[n] == r[k]);
        } else {
            let m = if k < p {
                k
            } else {
                k - 1
            };
            assert(rest[m] == r[k]);
            lemma_load_from(all, n + 1, m);
            let j = choose|j: int| n + 1 <= j < all.len() && #[trigger] all[j] == rest[m];
            assert(all[j] == r[k]);
        }
    }
}

proof fn lemma_indexes_same(index: Seq<KeyEntry>, a: Seq<Task>, b: Seq<Task>)
    requires
        indexes(index, a),
        a.len() == b.len(),
        forall|i: int| 0 <= i < a.len() ==> (#[trigger] a[i]).id@ == b[i].id@ && scoped_of(a[i]) == scoped_of(b[i]),
    ensures
        indexes(index, b),
{
    assert forall|k: int| 0 <= k < index.len() implies (find_in(b, (#[trigger] index[k]).id@) matches Some(t)
        && scoped_of(t) == index[k].key@) by {
        lemma_position_by_names(a, b, index[k].id@, 0);
        lemma_position_from(a, index[k].id@, 0);
    }
}

proof fn lemma_indexes_insert(index: Seq<KeyEntry>, tasks: Seq<Task>, t: Task, entry: KeyEntry)
    requires
        ordered(tasks),
        unique(index),
        indexes(index, tasks),
        position_of(tasks, t.id@) is None,
        position_of(index, entry.key@) is None,
        entry.key@ == scoped_of(t),
        entry.id@ == t.id@,
    ensures
        indexes(index.push(entry), tasks.insert(slot(tasks, t.id@), t)),
        unique(index.push(entry)),
{
    let p = slot(tasks, t.id@);
    let r = tasks.insert(p, t);
    lemma_insert_ordered(tasks, t);
    ordered_is_unique(r);
    lemma_slot(tasks, t.id@, 0);
    lemma_position_from(index, entry.key@, 0);
    lemma_position_unique(r, p);
    assert forall|k: int| 0 <= k < index.push(entry).len() implies (find_in(
        r,
        (#[trigger] index.push(entry)[k]).id@,
    ) matches Some(x) && scoped_of(x) == index.push(entry)[k].key@) by {
        if k < index.len() {
            assert(index.push(entry)[k] == index[k]);
            let id = index[k].id@;
            lemma_position_from(tasks, id, 0);
            match position_of(tasks, id) {
                Some(m) => {
                    if m < p {
                        assert(r[m] == tasks[m]);
                        lemma_position_unique(r, m);
                    } else {
                        assert(r[m + 1] == tasks[m]);
                        lemma_position_unique(r, m + 1);
                    }
                },
                None => {},
            }
        }
    }
}

/// The tasks that ended before a time.
pub open spec fn stale(t: Task, cutoff: u64) -> bool {
    t.state.ended() && t.updated_at < cutoff
}

/// The tasks of a list whose mark is as wanted, in their order.
pub open spec fn marked(tasks: Seq<Task>, marks: Seq<bool>, wanted: bool) -> Seq<Task>
    decreases tasks.len(),
{
    if tasks.len() == 0 {
        tasks
    } else {
        let rest = marked(tasks.drop_last(), marks, wanted);
        if marks[tasks.len() - 1] == wanted {
            rest.push(tasks.last())
        } else {
            rest
        }
    }
}

/// The index without the keys of some tasks.
pub open spec fn without_keys(index: Seq<KeyEntry>, tasks: Seq<Task>) -> Seq<KeyEntry>
    decreases tasks.len(),
{
    if tasks.len() == 0 {
        index
    } else {
        without(without_keys(index, tasks.drop_last()), scoped_of(tasks.last()))
    }
}

/// Whether a task is one of those of a list whose mark is as wanted.
pub open spec fn has_marked(tasks: Seq<Task>, marks: Seq<bool>, wanted: bool, t: Task) -> bool {
    exists|k: int| 0 <= k < tasks.len() && marks[k] == wanted && #[trigger] tasks[k] == t
}

proof fn lemma_marked(tasks: Seq<Task>, marks: Seq<bool>, wanted: bool)
    requires
        marks.len() >= tasks.len(),
    ensures
        forall|j: int|
            0 <= j < marked(tasks, marks, wanted).len() ==> has_marked(
                tasks,
                marks,
                wanted,
                #[trigger] marked(tasks, marks, wanted)[j],
            ),
        forall|k: int|
            0 <= k < tasks.len() && marks[k] == wanted ==> marked(tasks, marks, wanted).contains(#[trigger] tasks[k]),
        ordered(tasks) ==> ordered(marked(tasks, marks, wanted)),
        marked(tasks, marks, wanted).len() <= tasks.len(),
    decreases tasks.len(),
{
    if tasks.len() > 0 {
        let head = tasks.drop_last();
        let m = marked(tasks, marks, wanted);
        let mh = marked(head, marks, wanted);
        lemma_marked(head, marks, wanted);
        assert forall|j: int| 0 <= j < m.len() implies has_marked(tasks, marks, wanted, #[trigger] m[j]) by {
            if j < mh.len() {
                assert(has_marked(head, marks, wanted, mh[j]));
                let k = choose|k: int| 0 <= k < head.len() && marks[k] == wanted && head[k] == mh[j];
                assert(tasks[k] == m[j]);
            } else {
                assert(tasks[tasks.len() - 1] == m[j]);
            }
        }
        assert forall|k: int| 0 <= k < tasks.len() && marks[k] == wanted implies m.contains(#[trigger] tasks[k]) by {
            if k < head.len() {
                assert(mh.contains(head[k]));
                let j = choose|j: int| 0 <= j < mh.len() && mh[j] == head[k];
                assert(m[j] == tasks[k]);
            } else {
                assert(m[mh.len() as int] == tasks[k]);
            }
        }
        if ordered(tasks) {
            assert(ordered(head)) by {
                assert forall|a: int, b: int| 0 <= a < b < head.len() implies text_lt(
                    (#[trigger] head[a]).id@,
                    (#[trigger] head[b]).id@,
                ) by {
                    assert(text_lt(tasks[a].id@, tasks[b].id@));
                }
            }
            assert forall|i: int, j: int| 0 <= i < j < m.len() implies text_lt((#[trigger] m[i]).id@, (
            #[trigger] m[j]).id@) by {
                if j == mh.len() {
                    assert(has_marked(head, marks, wanted, mh[i]));
                    let k = choose|k: int| 0 <= k < head.len() && marks[k] == wanted && head[k] == mh[i];
                    assert(text_lt(tasks[k].id@, tasks[tasks.len() - 1].id@));
                }
            }
        }
    }
}

proof fn lemma_without_keys(index: Seq<KeyEntry>, tasks: Seq<Task>)
    requires
        unique(index),
    ensures
        unique(without_keys(index, tasks)),
        forall|k: int|
            0 <= k < without_keys(index, tasks).len() ==> index.contains(#[trigger] without_keys(index, tasks)[k]),
        forall|k: int, i: int|
            0 <= k < without_keys(index, tasks).len() && 0 <= i < tasks.len() ==> (
            #[trigger] without_keys(index, tasks)[k]).key@ != scoped_of(#[trigger] tasks[i]),
    decreases tasks.len(),
{
    if tasks.len() > 0 {
        let head = tasks.drop_last();
        let part = without_keys(index, head);
        let all = without_keys(index, tasks);
        lemma_without_keys(index, head);
        lemma_without(part, scoped_of(tasks.last()));
        assert forall|k: int| 0 <= k < all.len() implies index.contains(#[trigger] all[k]) by {
            assert(part.contains(all[k]));
            let m = choose|m: int| 0 <= m < part.len() && part[m] == all[k];
            assert(index.contains(part[m]));
        }
        assert forall|k: int, i: int| 0 <= k < all.len() && 0 <= i < tasks.len() implies (
        #[trigger] all[k]).key@ != scoped_of(#[trigger] tasks[i]) by {
            if i < head.len() {
                assert(part.contains(all[k]));
                let m = choose|m: int| 0 <= m < part.len() && part[m] == all[k];
                assert(part[m].key@ != scoped_of(head[i]));
            } else {
                assert(all[k].key_view() != scoped_of(tasks.last()));
            }
        }
    }
}

proof fn lemma_indexes_removed(index: Seq<KeyEntry>, tasks: Seq<Task>, marks: Seq<bool>)
    requires
        ordered(tasks),
        unique(index),
        indexes(index, tasks),
        marks.len() == tasks.len(),
    ensures
        indexes(without_keys(index, marked(tasks, marks, true)), marked(tasks, marks, false)),
{
    let gone = marked(tasks, marks, true);
    let kept = marked(tasks, marks, false);
    let left = without_keys(index, gone);
    lemma_marked(tasks, marks, true);
    lemma_marked(tasks, marks, false);
    lemma_without_keys(index, gone);
    ordered_is_unique(kept);
    assert forall|k: int| 0 <= k < left.len() implies (find_in(kept, (#[trigger] left[k]).id@) matches Some(t)
        && scoped_of(t) == left[k].key@) by {
        let e = left[k];
        assert(index.contains(e));
        let m = choose|m: int| 0 <= m < index.len() && index[m] == e;
        assert(index[m] == e);
        lemma_position_from(tasks, e.id@, 0);
        let p = position_of(tasks, e.id@)->0;
        if marks[p] {
            assert(gone.contains(tasks[p]));
            let g = choose|g: int| 0 <= g < gone.len() && gone[g] == tasks[p];
            assert(left[k].key@ != scoped_of(gone[g]));
        } else {
            assert(kept.contains(tasks[p]));
            let q = choose|q: int| 0 <= q < kept.len() && kept[q] == tasks[p];
            lemma_position_unique(kept, q);
        }
    }
}

/// How many tasks are not marked.
pub open spec fn kept_count(marks: Seq<bool>) -> nat
    decreases marks.len(),
{
    if marks.len() == 0 {
        0
    } else {
        kept_count(marks.drop_last()) + (if marks.last() {
            0nat
        } else {
            1nat
        })
    }
}

/// The encoded size of the tasks that are not marked.
pub open spec fn kept_bytes(sizes: Seq<usize>, marks: Seq<bool>) -> nat
    decreases marks.len(),
{
    if marks.len() == 0 {
        0
    } else {
        kept_bytes(sizes, marks.drop_last()) + (if marks.last() {
            0nat
        } else {
            sizes[marks.len() - 1] as nat
        })
    }
}

/// The sum of sizes.
pub open spec fn total(sizes: Seq<usize>) -> nat
    decreases sizes.len(),
{
    if sizes.len() == 0 {
        0
    } else {
        total(sizes.drop_last()) + sizes.last() as nat
    }
}

/// The task that ended longest ago among those not marked: of two that ended at once, the one
/// with the smaller identity.
pub open spec fn oldest(tasks: Seq<Task>, marks: Seq<bool>, upto: int) -> Option<int>
    decreases upto,
{
    if upto <= 0 {
        None
    } else {
        let before = oldest(tasks, marks, upto - 1);
        let t = tasks[upto - 1];
        if marks[upto - 1] || !t.state.ended() {
            before
        } else {
            match before {
                Some(i) => if t.updated_at < tasks[i].updated_at {
                    Some(upto - 1)
                } else {
                    before
                },
                None => Some(upto - 1),
            }
        }
    }
}

proof fn lemma_oldest(tasks: Seq<Task>, marks: Seq<bool>, upto: int)
    requires
        0 <= upto <= tasks.len(),
        marks.len() == tasks.len(),
    ensures
        match oldest(tasks, marks, upto) {
            Some(i) => 0 <= i < upto && !marks[i] && tasks[i].state.ended() && (forall|j: int|
                0 <= j < upto && !marks[j] && (#[trigger] tasks[j]).state.ended() ==> tasks[i].updated_at
                    < tasks[j].updated_at || (tasks[i].updated_at == tasks[j].updated_at && i <= j)),
            None => forall|j: int| 0 <= j < upto && (#[trigger] tasks[j]).state.ended() ==> marks[j],
        },
    decreases upto,
{
    if upto > 0 {
        lemma_oldest(tasks, marks, upto - 1);
    }
}

proof fn lemma_count_update(marks: Seq<bool>, i: int)
    requires
        0 <= i < marks.len(),
        !marks[i],
    ensures
        kept_count(marks.update(i, true)) == kept_count(marks) - 1,
    decreases marks.len(),
{
    let m = marks.update(i, true);
    if i == marks.len() - 1 {
        assert(m.drop_last() =~= marks.drop_last());
    } else {
        assert(m.drop_last() =~= marks.drop_last().update(i, true));
        lemma_count_update(marks.drop_last(), i);
    }
}

proof fn lemma_bytes_update(sizes: Seq<usize>, marks: Seq<bool>, i: int)
    requires
        0 <= i < marks.len(),
        !marks[i],
    ensures
        kept_bytes(sizes, marks.update(i, true)) == kept_bytes(sizes, marks) - sizes[i],
    decreases marks.len(),
{
    let m = marks.update(i, true);
    if i == marks.len() - 1 {
        assert(m.drop_last() =~= marks.drop_last());
    } else {
        assert(m.drop_last() =~= marks.drop_last().update(i, true));
        lemma_bytes_update(sizes, marks.drop_last(), i);
    }
}

proof fn lemma_bytes_bound(sizes: Seq<usize>, marks: Seq<bool>)
    requires
        marks.len() <= sizes.len(),
    ensures
        kept_bytes(sizes, marks) <= total(sizes.take(marks.len() as int)),
        kept_count(marks) <= marks.len(),
    decreases marks.len(),
{
    if marks.len() > 0 {
        lemma_bytes_bound(sizes, marks.drop_last());
        assert(sizes.take(marks.len() as int).drop_last() =~= sizes.take(marks.len() - 1));
    }
}

/// The marks after the tasks that ended longest ago were marked, one by one, until what is left
/// fits or no ended task is left.
pub open spec fn evicted(
    tasks: Seq<Task>,
    sizes: Seq<usize>,
    marks: Seq<bool>,
    max_count: nat,
    max_bytes: nat,
) -> Seq<bool>
    decreases kept_count(marks),
    when marks.len() == tasks.len()
    via evicted_decreases
{
    if kept_count(marks) <= max_count && kept_bytes(sizes, marks) <= max_bytes {
        marks
    } else {
        match oldest(tasks, marks, tasks.len() as int) {
            Some(i) => evicted(tasks, sizes, marks.update(i, true), max_count, max_bytes),
            None => marks,
        }
    }
}

#[via_fn]
proof fn evicted_decreases(
    tasks: Seq<Task>,
    sizes: Seq<usize>,
    marks: Seq<bool>,
    max_count: nat,
    max_bytes: nat,
) {
    lemma_oldest(tasks, marks, tasks.len() as int);
    match oldest(tasks, marks, tasks.len() as int) {
        Some(i) => {
            lemma_count_update(marks, i);
        },
        None => {},
    }
}

/// The marks of the tasks that ended before a time.
pub open spec fn stale_marks(tasks: Seq<Task>, cutoff: u64) -> Seq<bool> {
    tasks.map_values(|t: Task| stale(t, cutoff))
}

/// The time that lies a span before another, or zero.
pub open spec fn earlier(now: u64, span: u64) -> u64 {
    if span <= now {
        (now - span) as u64
    } else {
        0
    }
}

/// The time that lies `span` before `now`, or zero.
pub fn start_of(now: u64, span: u64) -> (r: u64)
    ensures
        r == earlier(now, span),
{
    if span <= now {
        now - span
    } else {
        0
    }
}

/// Retention never takes a task that has not ended.
pub proof fn eviction_spares_active_tasks(
    tasks: Seq<Task>,
    sizes: Seq<usize>,
    marks: Seq<bool>,
    max_count: nat,
    max_bytes: nat,
)
    requires
        marks.len() == tasks.len(),
        forall|i: int| 0 <= i < tasks.len() && marks[i] ==> (#[trigger] tasks[i]).state.ended(),
    ensures
        evicted(tasks, sizes, marks, max_count, max_bytes).len() == tasks.len(),
        forall|i: int|
            0 <= i < tasks.len() && evicted(tasks, sizes, marks, max_count, max_bytes)[i] ==> (
            #[trigger] tasks[i]).state.ended(),
    decreases kept_count(marks),
{
    lemma_oldest(tasks, marks, tasks.len() as int);
    if !(kept_count(marks) <= max_count && kept_bytes(sizes, marks) <= max_bytes) {
        match oldest(tasks, marks, tasks.len() as int) {
            Some(i) => {
                lemma_count_update(marks, i);
                eviction_spares_active_tasks(tasks, sizes, marks.update(i, true), max_count, max_bytes);
            },
            None => {},
        }
    }
}

/// After retention what is left fits its limits, or every task that is left is still active.
pub proof fn eviction_reaches_its_limits(
    tasks: Seq<Task>,
    sizes: Seq<usize>,
    marks: Seq<bool>,
    max_count: nat,
    max_bytes: nat,
)
    requires
        marks.len() == tasks.len(),
    ensures
        ({
            let m = evicted(tasks, sizes, marks, max_count, max_bytes);
            (kept_count(m) <= max_count && kept_bytes(sizes, m) <= max_bytes) || (forall|i: int|
                0 <= i < tasks.len() && (#[trigger] tasks[i]).state.ended() ==> m[i])
        }),
    decreases kept_count(marks),
{
    lemma_oldest(tasks, marks, tasks.len() as int);
    if !(kept_count(marks) <= max_count && kept_bytes(sizes, marks) <= max_bytes) {
        match oldest(tasks, marks, tasks.len() as int) {
            Some(i) => {
                lemma_count_update(marks, i);
                eviction_reaches_its_limits(tasks, sizes, marks.update(i, true), max_count, max_bytes);
            },
            None => {},
        }
    }
}

/// Retention takes the oldest first: of two ended tasks, one that it takes ended before one that
/// it leaves, or both ended at once and it has the smaller identity.
pub proof fn eviction_takes_the_oldest_first(
    tasks: Seq<Task>,
    sizes: Seq<usize>,
    marks: Seq<bool>,
    max_count: nat,
    max_bytes: nat,
    taken: int,
    left: int,
)
    requires
        ordered(tasks),
        marks.len() == tasks.len(),
        0 <= taken < tasks.len(),
        0 <= left < tasks.len(),
        !marks[taken],
        evicted(tasks, sizes, marks, max_count, max_bytes)[taken],
        !evicted(tasks, sizes, marks, max_count, max_bytes)[left],
        tasks[left].state.ended(),
    ensures
        tasks[taken].updated_at < tasks[left].updated_at || (tasks[taken].updated_at == tasks[left].updated_at
            && text_lt(tasks[taken].id@, tasks[left].id@)),
    decreases kept_count(marks),
{
    lemma_oldest(tasks, marks, tasks.len() as int);
    if !(kept_count(marks) <= max_count && kept_bytes(sizes, marks) <= max_bytes) {
        match oldest(tasks, marks, tasks.len() as int) {
            Some(i) => {
                lemma_count_update(marks, i);
                lemma_marks_stay(tasks, sizes, marks.update(i, true), max_count, max_bytes, left);
                if i != taken {
                    eviction_takes_the_oldest_first(
                        tasks,
                        sizes,
                        marks.update(i, true),
                        max_count,
                        max_bytes,
                        taken,
                        left,
                    );
                } else {
                    assert(!marks[left]);
                    assert(taken != left);
                    assert(taken < left ==> text_lt(tasks[taken].id@, tasks[left].id@));
                }
            },
            None => {},
        }
    }
}

/// Retention takes no more than it has to: had it left the last task that it took, by end and
/// identity, what is left would not fit its limits.
pub proof fn eviction_stops_at_its_limits(
    tasks: Seq<Task>,
    sizes: Seq<usize>,
    marks: Seq<bool>,
    max_count: nat,
    max_bytes: nat,
    last: int,
)
    requires
        ordered(tasks),
        marks.len() == tasks.len(),
        0 <= last < tasks.len(),
        !marks[last],
        evicted(tasks, sizes, marks, max_count, max_bytes)[last],
        forall|j: int|
            0 <= j < tasks.len() && !marks[j] && evicted(tasks, sizes, marks, max_count, max_bytes)[j] ==> (
            #[trigger] tasks[j]).updated_at < tasks[last].updated_at || (tasks[j].updated_at
                == tasks[last].updated_at && j <= last),
    ensures
        ({
            let but_last = evicted(tasks, sizes, marks, max_count, max_bytes).update(last, false);
            kept_count(but_last) > max_count || kept_bytes(sizes, but_last) > max_bytes
        }),
    decreases kept_count(marks),
{
    lemma_oldest(tasks, marks, tasks.len() as int);
    if !(kept_count(marks) <= max_count && kept_bytes(sizes, marks) <= max_bytes) {
        match oldest(tasks, marks, tasks.len() as int) {
            Some(i) => {
                let next = marks.update(i, true);
                let done = evicted(tasks, sizes, next, max_count, max_bytes);
                lemma_count_update(marks, i);
                lemma_eviction_length(tasks, sizes, next, max_count, max_bytes);
                if i != last {
                    eviction_stops_at_its_limits(tasks, sizes, next, max_count, max_bytes, last);
                } else {
                    assert forall|k: int| 0 <= k < tasks.len() implies done[k] == next[k] by {
                        lemma_marks_stay(tasks, sizes, next, max_count, max_bytes, k);
                        if done[k] && !next[k] {
                            lemma_taken_had_ended(tasks, sizes, next, max_count, max_bytes, k);
                            assert(tasks[k].updated_at < tasks[last].updated_at || (tasks[k].updated_at
                                == tasks[last].updated_at && k <= last));
                            assert(tasks[k].state.ended());
                        }
                    }
                    assert(done.update(last, false) =~= marks);
                }
            },
            None => {},
        }
    }
}

proof fn lemma_eviction_length(
    tasks: Seq<Task>,
    sizes: Seq<usize>,
    marks: Seq<bool>,
    max_count: nat,
    max_bytes: nat,
)
    requires
        marks.len() == tasks.len(),
    ensures
        evicted(tasks, sizes, marks, max_count, max_bytes).len() == tasks.len(),
    decreases kept_count(marks),
{
    lemma_oldest(tasks, marks, tasks.len() as int);
    if !(kept_count(marks) <= max_count && kept_bytes(sizes, marks) <= max_bytes) {
        match oldest(tasks, marks, tasks.len() as int) {
            Some(i) => {
                lemma_count_update(marks, i);
                lemma_eviction_length(tasks, sizes, marks.update(i, true), max_count, max_bytes);
            },
            None => {},
        }
    }
}

proof fn lemma_taken_had_ended(
    tasks: Seq<Task>,
    sizes: Seq<usize>,
    marks: Seq<bool>,
    max_count: nat,
    max_bytes: nat,
    k: int,
)
    requires
        marks.len() == tasks.len(),
        0 <= k < tasks.len(),
        !marks[k],
        evicted(tasks, sizes, marks, max_count, max_bytes)[k],
    ensures
        tasks[k].state.ended(),
    decreases kept_count(marks),
{
    lemma_oldest(tasks, marks, tasks.len() as int);
    if !(kept_count(marks) <= max_count && kept_bytes(sizes, marks) <= max_bytes) {
        match oldest(tasks, marks, tasks.len() as int) {
            Some(i) => {
                lemma_count_update(marks, i);
                if i != k {
                    lemma_taken_had_ended(tasks, sizes, marks.update(i, true), max_count, max_bytes, k);
                }
            },
            None => {},
        }
    }
}

/// Retention leaves what fits its limits as it is.
pub proof fn eviction_takes_nothing_that_fits(
    tasks: Seq<Task>,
    sizes: Seq<usize>,
    marks: Seq<bool>,
    max_count: nat,
    max_bytes: nat,
)
    requires
        marks.len() == tasks.len(),
        kept_count(marks) <= max_count,
        kept_bytes(sizes, marks) <= max_bytes,
    ensures
        evicted(tasks, sizes, marks, max_count, max_bytes) == marks,
{
}

proof fn lemma_marks_stay(
    tasks: Seq<Task>,
    sizes: Seq<usize>,
    marks: Seq<bool>,
    max_count: nat,
    max_bytes: nat,
    k: int,
)
    requires
        marks.len() == tasks.len(),
        0 <= k < tasks.len(),
    ensures
        marks[k] ==> evicted(tasks, sizes, marks, max_count, max_bytes)[k],
    decreases kept_count(marks),
{
    lemma_oldest(tasks, marks, tasks.len() as int);
    if !(kept_count(marks) <= max_count && kept_bytes(sizes, marks) <= max_bytes) {
        match oldest(tasks, marks, tasks.len() as int) {
            Some(i) => {
                lemma_count_update(marks, i);
                lemma_marks_stay(tasks, sizes, marks.update(i, true), max_count, max_bytes, k);
            },
            None => {},
        }
    }
}

/// A task that has ended leaves its state by no transition.
pub proof fn ended_tasks_stay_ended(from: TaskState, to: TaskState)
    requires
        from.ended(),
    ensures
        !allowed(from, to),
{
}

/// A task keeps the numbering of its events through every change.
pub proof fn events_stay_numbered(
    t: TaskView,
    state: TaskState,
    output: Option<JsonView>,
    error: Option<TaskFailureView>,
    now: u64,
)
    requires
        t.events_numbered(),
        t.events.len() < u64::MAX,
    ensures
        t.moved(state, output, error, now).events_numbered(),
        t.requeued(now).events_numbered(),
        t.orphaned(now).events_numbered(),
{
}

fn push_event(task: &mut Task, event_type: &str, now: u64)
    ensures
        final(task)@ == old(task)@.noting(event_type@, now),
        final(task).id == old(task).id,
        scoped_of(*final(task)) == scoped_of(*old(task)),
{
    let ghost before = task@;
    let ghost evs = task.events@;
    let event = TaskEvent {
        sequence: end_of(task.events.len() as u64, 1),
        timestamp: now,
        event_type: event_type.to_owned(),
        details: Json::Null,
    };
    task.events.push(event);
    assert(event_views(task.events@) =~= before.events.push(next_event(before, event_type@, now)));
}

impl TaskTable {
    /// Whether the table is in order.
    pub open spec fn wf(self) -> bool {
        ordered(self.tasks@) && unique(self.index@)
    }

    /// Whether every scoped key stands for a task that has it. This fails only for tasks that
    /// were stored under one identity with different keys: each of the keys then stands for the
    /// last of them.
    pub open spec fn matched(self) -> bool {
        indexes(self.index@, self.tasks@)
    }

    /// Whether the scoped key of every task stands for it. This fails only for tasks that were
    /// stored with one scoped key, or under one identity.
    pub open spec fn keyed(self) -> bool {
        keyed_by(self.index@, self.tasks@)
    }

    /// Whether a scoped key stands for nothing, or for a task that is there.
    pub open spec fn answers_key(self, key: Seq<char>) -> bool {
        answered(self.index@, self.tasks@, key)
    }

    /// Whether work that is submitted is new, or was submitted before as a task that is there.
    pub fn answers(&self, workspace_session_id: &str, executor_id: &str, capability: &str, idempotency_key: &str) -> (r:
        bool)
        ensures
            r == self.answers_key(scoped_view(workspace_session_id@, executor_id@, capability@, idempotency_key@)),
    {
        let key = scoped_idempotency_key(workspace_session_id, executor_id, capability, idempotency_key);
        match position(&self.index, key.as_str()) {
            Some(k) => position(&self.tasks, self.index[k].id.as_str()).is_some(),
            None => true,
        }
    }

    /// The table without tasks.
    pub fn new() -> (r: TaskTable)
        ensures
            r.wf(),
            r.matched(),
            r.keyed(),
            r.tasks@.len() == 0,
            r.index@.len() == 0,
    {
        TaskTable { tasks: Vec::new(), index: Vec::new() }
    }

    fn slot_of(&self, id: &str) -> (r: usize)
        ensures
            r == slot(self.tasks@, id@),
            r <= self.tasks@.len(),
    {
        let mut i: usize = 0;
        while i < self.tasks.len()
            invariant
                i <= self.tasks.len(),
                slot(self.tasks@, id@) == slot_from(self.tasks@, id@, i as int),
            decreases self.tasks.len() - i,
        {
            if str_lt(id, self.tasks[i].id.as_str()) {
                return i;
            }
            i += 1;
        }
        i
    }

    /// The table of some tasks. Of tasks that share an identity the last counts, and of tasks
    /// that share a scoped key the last has it.
    pub fn from_tasks(tasks: Vec<Task>) -> (r: TaskTable)
        ensures
            r.wf(),
            r.tasks@ == load_from(tasks@, 0),
            forall|key: Seq<char>| #[trigger] key_id(r.index@, key) == key_owner(tasks@, 0, key),
            forall|key: Seq<char>| #[trigger] r.answers_key(key),
            distinct(tasks@) ==> r.matched(),
            distinct(tasks@) && keys_differ(tasks@) ==> r.keyed(),
    {
        let ghost all = tasks@;
        let mut rest = tasks;
        let mut table = TaskTable::new();
        assert forall|key: Seq<char>| #[trigger] key_id(table.index@, key) == key_owner(all, all.len() as int, key) by {
            lemma_position_from(table.index@, key, 0);
        }
        while rest.len() > 0
            invariant
                table.wf(),
                rest@.len() <= all.len(),
                rest@ == all.take(rest@.len() as int),
                table.tasks@ == load_from(all, rest@.len() as int),
                forall|key: Seq<char>|
                    #[trigger] key_id(table.index@, key) == key_owner(all, rest@.len() as int, key),
                distinct(all) ==> table.matched(),
            decreases rest@.len(),
        {
            let ghost before = table;
            let ghost n = rest@.len() as int;
            let task = rest.pop().unwrap();
            assert(task == all[n - 1]);
            assert(rest@ =~= all.take(n - 1));
            let known = position(&table.tasks, task.id.as_str()).is_some();
            let key = scoped_key_of(&task);
            let taken = position(&table.index, key.as_str()).is_some();
            let entry = KeyEntry { key, id: task.id.clone() };
            proof {
                if distinct(all) {
                    if known {
                        let k = position_of(before.tasks@, task.id@)->0;
                        lemma_position_from(before.tasks@, task.id@, 0);
                        lemma_load_from(all, n, k);
                        let j = choose|j: int| n <= j < all.len() && #[trigger] all[j] == before.tasks@[k];
                        assert(all[n - 1].id@ != all[j].id@);
                    }
                    if taken {
                        lemma_indexes_grow(before.index@, before.tasks@, task);
                    } else {
                        lemma_indexes_insert(before.index@, before.tasks@, task, entry);
                    }
                }
            }
            if !taken {
                table.index.push(entry);
            }
            if !known {
                let at = table.slot_of(task.id.as_str());
                proof {
                    lemma_insert_ordered(table.tasks@, task);
                    lemma_slot(table.tasks@, task.id@, 0);
                }
                table.tasks.insert(at, task);
            }
            proof {
                if !taken {
                    assert(table.index@ =~= crate::table::upserted(before.index@, entry));
                    lemma_position_from(before.index@, entry.key@, 0);
                }
                assert forall|k: Seq<char>| #[trigger] key_id(table.index@, k) == key_owner(all, n - 1, k) by {
                    assert(key_id(before.index@, k) == key_owner(all, n, k));
                    if !taken {
                        upserted_record_is_found(before.index@, entry, k);
                    }
                }
            }
        }
        proof {
            assert forall|key: Seq<char>| #[trigger] table.answers_key(key) by {
                loaded_keys_are_answered(all, 0, key);
                assert(key_id(table.index@, key) == key_owner(all, 0, key));
            }
            if keys_differ(all) {
                assert forall|i: int| 0 <= i < table.tasks@.len() implies key_id(
                    table.index@,
                    scoped_of(#[trigger] table.tasks@[i]),
                ) == Some(table.tasks@[i].id@) by {
                    lemma_load_from(all, 0, i);
                    let j = choose|j: int| 0 <= j < all.len() && #[trigger] all[j] == table.tasks@[i];
                    lemma_key_owner(all, 0, j);
                    assert(key_id(table.index@, scoped_of(all[j])) == key_owner(all, 0, scoped_of(all[j])));
                }
            }
        }
        table
    }

    /// The task with an identity.
    pub fn get(&self, id: &str) -> (r: Option<&Task>)
        ensures
            match r {
                Some(t) => find_in(self.tasks@, id@) == Some(*t),
                None => find_in(self.tasks@, id@) is None,
            },
    {
        lookup(&self.tasks, id)
    }

    /// Copies of all tasks, in the order of their identities.
    pub fn snapshot(&self) -> (r: Vec<Task>)
        ensures
            task_views(r@) == task_views(self.tasks@),
    {
        let mut out: Vec<Task> = Vec::new();
        let mut i: usize = 0;
        while i < self.tasks.len()
            invariant
                i <= self.tasks.len(),
                out@.len() == i,
                forall|k: int| 0 <= k < i ==> out@[k]@ == self.tasks@[k]@,
            decreases self.tasks.len() - i,
        {
            out.push(self.tasks[i].clone());
            i += 1;
        }
        assert(task_views(out@) =~= task_views(self.tasks@));
        out
    }

    /// Submits a task. A task with the same session, executor, capability and key that is already
    /// known is returned instead, and nothing changes.
    pub fn submit_traced(
        &mut self,
        workspace_session_id: &str,
        executor_id: &str,
        capability: &str,
        input: Json,
        idempotency_key: &str,
        correlation_id: Option<String>,
        request_id: Option<String>,
        now: u64,
        id: &str,
    ) -> (r: (Task, bool))
        requires
            old(self).wf(),
            position_of(old(self).tasks@, id@) is None,
            old(self).answers_key(scoped_view(workspace_session_id@, executor_id@, capability@, idempotency_key@)),
        ensures
            final(self).wf(),
            old(self).matched() ==> final(self).matched(),
            old(self).keyed() ==> final(self).keyed(),
            forall|key: Seq<char>| old(self).answers_key(key) ==> #[trigger] final(self).answers_key(key),
            r.1 == (find_in(
                old(self).index@,
                scoped_view(workspace_session_id@, executor_id@, capability@, idempotency_key@),
            ) is Some),
            r.1 ==> *final(self) == *old(self) && (find_in(
                old(self).index@,
                scoped_view(workspace_session_id@, executor_id@, capability@, idempotency_key@),
            ) matches Some(e) && (find_in(old(self).tasks@, e.id@) matches Some(t) && r.0@ == t@)),
            !r.1 ==> r.0@ == fresh_task(
                id@,
                workspace_session_id@,
                executor_id@,
                capability@,
                input@,
                idempotency_key@,
                opt_text(correlation_id),
                opt_text(request_id),
                now,
            ) && task_views(final(self).tasks@) == task_views(old(self).tasks@).insert(
                slot(old(self).tasks@, id@),
                r.0@,
            ) && one_more_key(
                final(self).index@,
                old(self).index@,
                scoped_view(workspace_session_id@, executor_id@, capability@, idempotency_key@),
                id@,
            ),
            find_in(
                final(self).index@,
                scoped_view(workspace_session_id@, executor_id@, capability@, idempotency_key@),
            ) matches Some(e) && e.id@ == r.0@.id && (find_in(final(self).tasks@, e.id@) matches Some(t) && t@
                == r.0@),
    {
        let key = scoped_idempotency_key(workspace_session_id, executor_id, capability, idempotency_key);
        if let Some(k) = position(&self.index, key.as_str()) {
            let known = self.get(self.index[k].id.as_str());
            assert(key_id(self.index@, key@) == Some(self.index@[k as int].id@));
            let task = known.unwrap().clone();
            proof {
                lemma_position_from(self.tasks@, self.index@[k as int].id@, 0);
            }
            return (task, true);
        }
        let mut task = Task {
            id: id.to_owned(),
            correlation_id,
            request_id,
            workspace_session_id: workspace_session_id.to_owned(),
            executor_id: executor_id.to_owned(),
            capability: capability.to_owned(),
            input,
            output: None,
            error: None,
            idempotency_key: idempotency_key.to_owned(),
            state: TaskState::Queued,
            attempt: 0,
            created_at: now,
            updated_at: now,
            events: Vec::new(),
        };
        assert(event_views(task.events@) =~= Seq::empty());
        push_event(&mut task, "task.queued", now);
        let at = self.slot_of(id);
        let entry = KeyEntry { key, id: task.id.clone() };
        let result = task.clone();
        let ghost before = *self;
        proof {
            lemma_insert_ordered(self.tasks@, task);
            if self.matched() {
                lemma_indexes_insert(self.index@, self.tasks@, task, entry);
            }
            if self.keyed() {
                lemma_keyed_insert(self.index@, self.tasks@, task, entry);
            }
            assert forall|k: Seq<char>| self.answers_key(k) implies #[trigger] answered(
                self.index@.push(entry),
                self.tasks@.insert(at as int, task),
                k,
            ) by {
                lemma_answered_insert(self.index@, self.tasks@, task, entry, k);
            }
            lemma_slot(self.tasks@, id@, 0);
            lemma_position_from(self.index@, entry.key@, 0);
        }
        self.index.push(entry);
        self.tasks.insert(at, task);
        proof {
            assert(self.index@.drop_last() =~= before.index@);
            assert(task_views(self.tasks@) =~= task_views(before.tasks@).insert(at as int, result@));
            ordered_is_unique(self.tasks@);
            lemma_position_unique(self.tasks@, at as int);
            lemma_position_unique(self.index@, before.index@.len() as int);
        }
        (result, false)
    }

    /// Submits a task that no request is known for.
    pub fn submit(
        &mut self,
        workspace_session_id: &str,
        executor_id: &str,
        capability: &str,
        input: Json,
        idempotency_key: &str,
        now: u64,
        id: &str,
    ) -> (r: (Task, bool))
        requires
            old(self).wf(),
            position_of(old(self).tasks@, id@) is None,
            old(self).answers_key(scoped_view(workspace_session_id@, executor_id@, capability@, idempotency_key@)),
        ensures
            final(self).wf(),
            old(self).matched() ==> final(self).matched(),
            old(self).keyed() ==> final(self).keyed(),
            forall|key: Seq<char>| old(self).answers_key(key) ==> #[trigger] final(self).answers_key(key),
            r.1 == (find_in(
                old(self).index@,
                scoped_view(workspace_session_id@, executor_id@, capability@, idempotency_key@),
            ) is Some),
            r.1 ==> *final(self) == *old(self) && (find_in(
                old(self).index@,
                scoped_view(workspace_session_id@, executor_id@, capability@, idempotency_key@),
            ) matches Some(e) && (find_in(old(self).tasks@, e.id@) matches Some(t) && r.0@ == t@)),
            !r.1 ==> r.0@ == fresh_task(
                id@,
                workspace_session_id@,
                executor_id@,
                capability@,
                input@,
                idempotency_key@,
                None,
                None,
                now,
            ) && task_views(final(self).tasks@) == task_views(old(self).tasks@).insert(
                slot(old(self).tasks@, id@),
                r.0@,
            ) && one_more_key(
                final(self).index@,
                old(self).index@,
                scoped_view(workspace_session_id@, executor_id@, capability@, idempotency_key@),
                id@,
            ),
            find_in(
                final(self).index@,
                scoped_view(workspace_session_id@, executor_id@, capability@, idempotency_key@),
            ) matches Some(e) && e.id@ == r.0@.id && (find_in(final(self).tasks@, e.id@) matches Some(t) && t@
                == r.0@),
    {
        self.submit_traced(workspace_session_id, executor_id, capability, input, idempotency_key, None, None, now, id)
    }

    /// Moves a task to a state that its own state allows.
    pub fn transition(
        &mut self,
        id: &str,
        state: TaskState,
        output: Option<Json>,
        error: Option<TaskFailure>,
        now: u64,
    ) -> (r: Result<Task, TaskError>)
        requires
            old(self).wf(),
        ensures
            final(self).wf(),
            old(self).matched() ==> final(self).matched(),
            old(self).keyed() ==> final(self).keyed(),
            forall|key: Seq<char>| old(self).answers_key(key) ==> #[trigger] final(self).answers_key(key),
            match position_of(old(self).tasks@, id@) {
                None => r == Err::<Task, TaskError>(TaskError::NotFound) && *final(self) == *old(self),
                Some(i) => {
                    let t = old(self).tasks@[i]@;
                    if allowed(t.state, state) {
                        &&& r matches Ok(task) && task@ == t.moved(
                            state,
                            crate::json::opt_json(output),
                            opt_failure(error),
                            now,
                        ) && task_views(final(self).tasks@) == task_views(old(self).tasks@).update(i, task@)
                        &&& final(self).index@ == old(self).index@
                    } else {
                        r == Err::<Task, TaskError>(TaskError::InvalidTransition { from: t.state, to: state })
                            && *final(self) == *old(self)
                    }
                },
            },
    {
        let i = match position(&self.tasks, id) {
            Some(i) => i,
            None => return Err(TaskError::NotFound),
        };
        let from = self.tasks[i].state;
        let ok = match (from, state) {
            (TaskState::Queued, TaskState::Running) => true,
            (TaskState::Queued, TaskState::Cancelled) => true,
            (TaskState::Running, TaskState::CancelRequested) => true,
            (TaskState::CancelRequested, TaskState::Cancelling) => true,
            (TaskState::Cancelling, TaskState::Cancelled) => true,
            (TaskState::Cancelling, TaskState::FailedToCancel) => true,
            (TaskState::Running, TaskState::Succeeded) => true,
            (TaskState::Running, TaskState::Failed) => true,
            (TaskState::Running, TaskState::Cancelled) => true,
            (TaskState::Running, TaskState::TimedOut) => true,
            (TaskState::Running, TaskState::OutcomeUnknown) => true,
            _ => false,
        };
        if !ok {
            return Err(TaskError::InvalidTransition { from, to: state });
        }
        let ghost before = *self;
        if state == TaskState::Running && self.tasks[i].attempt < u32::MAX {
            self.tasks[i].attempt = self.tasks[i].attempt + 1;
        }
        self.tasks[i].state = state;
        self.tasks[i].output = output;
        self.tasks[i].error = error;
        self.tasks[i].updated_at = now;
        let event_type = crate::text::concat2("task.", state.name());
        push_event(&mut self.tasks[i], event_type.as_str(), now);
        proof {
            lemma_one_changed(before.index@, before.tasks@, self.tasks@, i as int);
            assert(forall|k: Seq<char>| before.answers_key(k) ==> #[trigger] self.answers_key(k));
            assert(task_views(self.tasks@) =~= task_views(before.tasks@).update(i as int, self.tasks@[i as int]@));
        }
        Ok(self.tasks[i].clone())
    }

    /// Queues a task again that failed, timed out, could not be cancelled or has an unknown outcome.
    pub fn retry(&mut self, id: &str, now: u64) -> (r: Result<Task, TaskError>)
        requires
            old(self).wf(),
        ensures
            final(self).wf(),
            old(self).matched() ==> final(self).matched(),
            old(self).keyed() ==> final(self).keyed(),
            forall|key: Seq<char>| old(self).answers_key(key) ==> #[trigger] final(self).answers_key(key),
            match position_of(old(self).tasks@, id@) {
                None => r == Err::<Task, TaskError>(TaskError::NotFound) && *final(self) == *old(self),
                Some(i) => {
                    let t = old(self).tasks@[i]@;
                    if retryable(t.state) {
                        &&& r matches Ok(task) && task@ == t.requeued(now) && task_views(final(self).tasks@)
                            == task_views(old(self).tasks@).update(i, task@)
                        &&& final(self).index@ == old(self).index@
                    } else {
                        r == Err::<Task, TaskError>(
                            TaskError::InvalidTransition { from: t.state, to: TaskState::Queued },
                        ) && *final(self) == *old(self)
                    }
                },
            },
    {
        let i = match position(&self.tasks, id) {
            Some(i) => i,
            None => return Err(TaskError::NotFound),
        };
        let from = self.tasks[i].state;
        match from {
            TaskState::Failed | TaskState::TimedOut | TaskState::OutcomeUnknown | TaskState::FailedToCancel => {},
            _ => return Err(TaskError::InvalidTransition { from, to: TaskState::Queued }),
        }
        let ghost before = *self;
        self.tasks[i].state = TaskState::Queued;
        self.tasks[i].output = None;
        self.tasks[i].error = None;
        self.tasks[i].updated_at = now;
        push_event(&mut self.tasks[i], "task.retried", now);
        proof {
            lemma_one_changed(before.index@, before.tasks@, self.tasks@, i as int);
            assert(forall|k: Seq<char>| before.answers_key(k) ==> #[trigger] self.answers_key(k));
            assert(task_views(self.tasks@) =~= task_views(before.tasks@).update(i as int, self.tasks@[i as int]@));
        }
        Ok(self.tasks[i].clone())
    }

    /// Gives up on the tasks that were under way when the controller went away, and returns them.
    pub fn recover_orphans(&mut self, now: u64) -> (r: Vec<Task>)
        requires
            old(self).wf(),
        ensures
            final(self).wf(),
            old(self).matched() ==> final(self).matched(),
            old(self).keyed() ==> final(self).keyed(),
            forall|key: Seq<char>| old(self).answers_key(key) ==> #[trigger] final(self).answers_key(key),
            task_views(final(self).tasks@) == task_views(old(self).tasks@).map_values(
                |t: TaskView| t.orphaned(now),
            ),
            final(self).index@ == old(self).index@,
            task_views(r@) == recovered_views(task_views(old(self).tasks@), now),
    {
        let ghost before = *self;
        let mut recovered: Vec<Task> = Vec::new();
        let mut i: usize = 0;
        let n = self.tasks.len();
        while i < n
            invariant
                n == before.tasks@.len(),
                self.tasks@.len() == n,
                i <= n,
                self.index@ == before.index@,
                forall|k: int|
                    0 <= k < n ==> (#[trigger] self.tasks@[k]).id == before.tasks@[k].id && scoped_of(
                        self.tasks@[k],
                    ) == scoped_of(before.tasks@[k]),
                forall|k: int| 0 <= k < i ==> (#[trigger] self.tasks@[k])@ == before.tasks@[k]@.orphaned(now),
                forall|k: int| i <= k < n ==> #[trigger] self.tasks@[k] == before.tasks@[k],
                task_views(recovered@) == recovered_views(task_views(before.tasks@).take(i as int), now),
            decreases n - i,
        {
            let ghost views = task_views(before.tasks@);
            proof {
                assert(views.take(i + 1).drop_last() =~= views.take(i as int));
                assert(views.take(i + 1).last() == before.tasks@[i as int]@);
            }
            let state = self.tasks[i].state;
            if state == TaskState::Queued || state == TaskState::Running {
                self.tasks[i].state = TaskState::OutcomeUnknown;
                self.tasks[i].error = Some(
                    TaskFailure {
                        code: "CONTROLLER_RESTARTED".to_owned(),
                        message: "controller restarted before the task outcome was recorded".to_owned(),
                        retryable: true,
                        details: Json::Null,
                    },
                );
                self.tasks[i].updated_at = now;
                push_event(&mut self.tasks[i], "task.outcome-unknown", now);
                let ghost part = recovered@;
                recovered.push(self.tasks[i].clone());
                proof {
                    assert(task_views(recovered@) =~= task_views(part).push(self.tasks@[i as int]@));
                }
            }
            i += 1;
        }
        proof {
            let views = task_views(before.tasks@);
            assert(views.take(n as int) =~= views);
            assert(task_views(self.tasks@) =~= views.map_values(|t: TaskView| t.orphaned(now)));
            assert forall|a: int, b: int| 0 <= a < b < self.tasks@.len() implies text_lt(
                (#[trigger] self.tasks@[a]).id@,
                (#[trigger] self.tasks@[b]).id@,
            ) by {
                assert(text_lt(before.tasks@[a].id@, before.tasks@[b].id@));
            }
            assert forall|k: int| 0 <= k < before.tasks@.len() implies (#[trigger] before.tasks@[k]).id@
                == self.tasks@[k].id@ && scoped_of(before.tasks@[k]) == scoped_of(self.tasks@[k]) by {
                assert(self.tasks@[k].id == before.tasks@[k].id);
            }
            if before.matched() {
                lemma_indexes_same(before.index@, before.tasks@, self.tasks@);
            }
            if before.keyed() {
                lemma_keyed_same(before.index@, before.tasks@, self.tasks@);
            }
            lemma_answered_same(before.index@, before.tasks@, self.tasks@);
            assert(forall|k: Seq<char>| before.answers_key(k) ==> #[trigger] self.answers_key(k));
        }
        recovered
    }

    fn remove_marked(&mut self, marks: &Vec<bool>) -> (r: Vec<Task>)
        requires
            old(self).wf(),
            marks@.len() == old(self).tasks@.len(),
        ensures
            final(self).wf(),
            old(self).matched() ==> final(self).matched(),
            old(self).keyed() ==> final(self).keyed(),
            r@ == marked(old(self).tasks@, marks@, true),
            final(self).tasks@ == marked(old(self).tasks@, marks@, false),
            final(self).index@ == without_keys(old(self).index@, r@),
    {
        let ghost all = self.tasks@;
        let ghost index = self.index@;
        let mut removed: Vec<Task> = Vec::new();
        let n = self.tasks.len();
        let mut i: usize = 0;
        let mut done: usize = 0;
        proof {
            assert(all.take(0) =~= Seq::empty());
            assert(self.tasks@ =~= marked(all.take(0), marks@, false) + all.skip(0));
        }
        while done < n
            invariant
                n == all.len(),
                marks@.len() == n,
                done <= n,
                i <= done,
                i == marked(all.take(done as int), marks@, false).len(),
                self.tasks@ == marked(all.take(done as int), marks@, false) + all.skip(done as int),
                removed@ == marked(all.take(done as int), marks@, true),
                self.index@ == without_keys(index, removed@),
            decreases n - done,
        {
            let ghost next = all.take(done + 1);
            let ghost part = removed@;
            proof {
                assert(next.drop_last() =~= all.take(done as int));
                assert(next.last() == all[done as int]);
                assert(self.tasks@[i as int] == all[done as int]);
            }
            if marks[done] {
                let task = self.tasks.remove(i);
                let key = scoped_key_of(&task);
                remove_by(&mut self.index, key.as_str());
                removed.push(task);
                proof {
                    assert(removed@.drop_last() =~= part);
                    assert(self.tasks@ =~= marked(next, marks@, false) + all.skip(done + 1));
                }
            } else {
                proof {
                    assert(self.tasks@ =~= marked(next, marks@, false) + all.skip(done + 1));
                }
                i += 1;
            }
            done += 1;
        }
        proof {
            assert(all.take(n as int) =~= all);
            assert(all.skip(n as int) =~= Seq::empty());
            assert(self.tasks@ =~= marked(all, marks@, false));
            lemma_marked(all, marks@, false);
            lemma_without_keys(index, removed@);
            if indexes(index, all) {
                lemma_indexes_removed(index, all, marks@);
            }
            if keyed_by(index, all) {
                lemma_keyed_removed(index, all, marks@);
            }
        }
        removed
    }

    fn mark_stale(&self, cutoff: u64) -> (r: Vec<bool>)
        ensures
            r@ == stale_marks(self.tasks@, cutoff),
    {
        let mut marks: Vec<bool> = Vec::new();
        let mut i: usize = 0;
        while i < self.tasks.len()
            invariant
                i <= self.tasks.len(),
                marks@.len() == i,
                forall|k: int| 0 <= k < i ==> marks@[k] == stale(self.tasks@[k], cutoff),
            decreases self.tasks.len() - i,
        {
            marks.push(self.tasks[i].state.terminal() && self.tasks[i].updated_at < cutoff);
            i += 1;
        }
        assert(marks@ =~= stale_marks(self.tasks@, cutoff));
        marks
    }

    /// Removes the tasks that ended before `cutoff`, and returns them. What they were submitted
    /// with can be submitted again.
    pub fn prune_terminal_before(&mut self, cutoff: u64) -> (r: Vec<Task>)
        requires
            old(self).wf(),
        ensures
            final(self).wf(),
            old(self).matched() ==> final(self).matched(),
            old(self).keyed() ==> final(self).keyed(),
            r@ == marked(old(self).tasks@, stale_marks(old(self).tasks@, cutoff), true),
            final(self).tasks@ == marked(old(self).tasks@, stale_marks(old(self).tasks@, cutoff), false),
            final(self).index@ == without_keys(old(self).index@, r@),
    {
        let marks = self.mark_stale(cutoff);
        self.remove_marked(&marks)
    }

    /// Removes the tasks that ended longer than `retention_ms` before `now`, and then the oldest
    /// of the other ended tasks until at most `max_count` tasks are left whose encoded sizes add
    /// up to at most `max_bytes`, or only tasks that have not ended. `sizes` gives the encoded
    /// size of each task, in the order of the table.
    pub fn prune_retention(
        &mut self,
        now: u64,
        retention_ms: u64,
        max_count: usize,
        max_bytes: usize,
        sizes: &Vec<usize>,
    ) -> (r: Vec<Task>)
        requires
            old(self).wf(),
            sizes@.len() == old(self).tasks@.len(),
            total(sizes@) <= usize::MAX,
        ensures
            final(self).wf(),
            old(self).matched() ==> final(self).matched(),
            old(self).keyed() ==> final(self).keyed(),
            ({
                let marks = evicted(
                    old(self).tasks@,
                    sizes@,
                    stale_marks(old(self).tasks@, earlier(now, retention_ms)),
                    max_count as nat,
                    max_bytes as nat,
                );
                &&& r@ == marked(old(self).tasks@, marks, true)
                &&& final(self).tasks@ == marked(old(self).tasks@, marks, false)
                &&& final(self).index@ == without_keys(old(self).index@, r@)
            }),
    {
        let cutoff = start_of(now, retention_ms);
        let mut marks = self.mark_stale(cutoff);
        let ghost first = marks@;
        let n = self.tasks.len();
        let mut count: usize = 0;
        let mut bytes: usize = 0;
        let mut i: usize = 0;
        while i < n
            invariant
                n == self.tasks@.len(),
                sizes@.len() == n,
                marks@.len() == n,
                i <= n,
                total(sizes@) <= usize::MAX,
                count == kept_count(marks@.take(i as int)),
                count <= i,
                bytes == kept_bytes(sizes@, marks@.take(i as int)),
            decreases n - i,
        {
            proof {
                assert(marks@.take(i + 1).drop_last() =~= marks@.take(i as int));
                lemma_bytes_bound(sizes@, marks@.take(i + 1));
                lemma_total_grows(sizes@, i + 1);
            }
            if !marks[i] {
                count += 1;
                bytes += sizes[i];
            }
            i += 1;
        }
        assert(marks@.take(n as int) =~= marks@);
        let ghost goal = evicted(self.tasks@, sizes@, first, max_count as nat, max_bytes as nat);
        loop
            invariant
                n == self.tasks@.len(),
                sizes@.len() == n,
                marks@.len() == n,
                total(sizes@) <= usize::MAX,
                count == kept_count(marks@),
                bytes == kept_bytes(sizes@, marks@),
                goal == evicted(self.tasks@, sizes@, marks@, max_count as nat, max_bytes as nat),
            ensures
                marks@ == goal,
                marks@.len() == n,
            decreases kept_count(marks@),
        {
            if count <= max_count && bytes <= max_bytes {
                break;
            }
            let found = self.find_oldest(&marks);
            match found {
                None => {
                    break;
                },
                Some(k) => {
                    proof {
                        lemma_oldest(self.tasks@, marks@, n as int);
                        lemma_count_update(marks@, k as int);
                        lemma_bytes_update(sizes@, marks@, k as int);
                    }
                    marks.set(k, true);
                    count -= 1;
                    bytes -= sizes[k];
                },
            }
        }
        self.remove_marked(&marks)
    }

    fn find_oldest(&self, marks: &Vec<bool>) -> (r: Option<usize>)
        requires
            marks@.len() == self.tasks@.len(),
        ensures
            match r {
                Some(i) => oldest(self.tasks@, marks@, self.tasks@.len() as int) == Some(i as int) && i
                    < self.tasks@.len(),
                None => oldest(self.tasks@, marks@, self.tasks@.len() as int) is None,
            },
    {
        let mut best: Option<usize> = None;
        let mut i: usize = 0;
        while i < self.tasks.len()
            invariant
                i <= self.tasks.len(),
                marks@.len() == self.tasks@.len(),
                match best {
                    Some(k) => oldest(self.tasks@, marks@, i as int) == Some(k as int) && k < i,
                    None => oldest(self.tasks@, marks@, i as int) is None,
                },
            decreases self.tasks.len() - i,
        {
            if !marks[i] && self.tasks[i].state.terminal() {
                let better = match best {
                    Some(k) => self.tasks[i].updated_at < self.tasks[k].updated_at,
                    None => true,
                };
                if better {
                    best = Some(i);
                }
            }
            i += 1;
        }
        best
    }
}

/// The tasks of a list that a restart gives up on, in their order.
pub open spec fn recovered_views(tasks: Seq<TaskView>, now: u64) -> Seq<TaskView>
    decreases tasks.len(),
{
    if tasks.len() == 0 {
        tasks
    } else {
        let rest = recovered_views(tasks.drop_last(), now);
        if in_flight(tasks.last().state) {
            rest.push(tasks.last().orphaned(now))
        } else {
            rest
        }
    }
}

/// After a restart no task is queued or running: those that were have an unknown outcome and may
/// be tried again.
pub proof fn restart_leaves_nothing_in_flight(tasks: Seq<TaskView>, now: u64, i: int)
    requires
        0 <= i < tasks.len(),
    ensures
        ({
            let t = tasks.map_values(|t: TaskView| t.orphaned(now))[i];
            &&& !in_flight(t.state)
            &&& in_flight(tasks[i].state) ==> t.state == TaskState::OutcomeUnknown && retryable(t.state) && t.error
                == Some(restart_failure())
            &&& !in_flight(tasks[i].state) ==> t == tasks[i]
        }),
{
}

proof fn lemma_total_grows(sizes: Seq<usize>, k: int)
    requires
        0 <= k <= sizes.len(),
    ensures
        total(sizes.take(k)) <= total(sizes),
    decreases sizes.len(),
{
    if k < sizes.len() {
        lemma_total_grows(sizes.drop_last(), k);
        assert(sizes.drop_last().take(k) =~= sizes.take(k));
    } else {
        assert(sizes.take(k) =~= sizes);
    }
}

proof fn lemma_one_changed(index: Seq<KeyEntry>, a: Seq<Task>, b: Seq<Task>, i: int)
    requires
        ordered(a),
        0 <= i < a.len(),
        a.len() == b.len(),
        forall|k: int| 0 <= k < a.len() && k != i ==> a[k] == b[k],
        a[i].id@ == b[i].id@,
        scoped_of(a[i]) == scoped_of(b[i]),
    ensures
        ordered(b),
        indexes(index, a) ==> indexes(index, b),
        keyed_by(index, a) ==> keyed_by(index, b),
        forall|key: Seq<char>| #[trigger] answered(index, b, key) == answered(index, a, key),
{
    assert forall|x: int, y: int| 0 <= x < y < b.len() implies text_lt((#[trigger] b[x]).id@, (
    #[trigger] b[y]).id@) by {
        assert(text_lt(a[x].id@, a[y].id@));
    }
    assert forall|k: int| 0 <= k < a.len() implies (#[trigger] a[k]).id@ == b[k].id@ && scoped_of(a[k])
        == scoped_of(b[k]) by {
        if k != i {
            assert(a[k] == b[k]);
        }
    }
    if indexes(index, a) {
        lemma_indexes_same(index, a, b);
    }
    if keyed_by(index, a) {
        lemma_keyed_same(index, a, b);
    }
    lemma_answered_same(index, a, b);
}

proof fn lemma_keyed_same(index: Seq<KeyEntry>, a: Seq<Task>, b: Seq<Task>)
    requires
        keyed_by(index, a),
        a.len() == b.len(),
        forall|i: int| 0 <= i < a.len() ==> (#[trigger] a[i]).id@ == b[i].id@ && scoped_of(a[i]) == scoped_of(b[i]),
    ensures
        keyed_by(index, b),
{
    assert forall|i: int| 0 <= i < b.len() implies key_id(index, scoped_of(#[trigger] b[i])) == Some(b[i].id@) by {
        assert(a[i].id@ == b[i].id@);
    }
}

proof fn lemma_answered_same(index: Seq<KeyEntry>, a: Seq<Task>, b: Seq<Task>)
    requires
        a.len() == b.len(),
        forall|i: int| 0 <= i < a.len() ==> (#[trigger] a[i]).id@ == b[i].id@,
    ensures
        forall|key: Seq<char>| #[trigger] answered(index, b, key) == answered(index, a, key),
{
    assert forall|key: Seq<char>| #[trigger] answered(index, b, key) == answered(index, a, key) by {
        if let Some(id) = key_id(index, key) {
            lemma_position_by_names(a, b, id, 0);
        }
    }
}

proof fn lemma_indexes_grow(index: Seq<KeyEntry>, tasks: Seq<Task>, t: Task)
    requires
        ordered(tasks),
        indexes(index, tasks),
        position_of(tasks, t.id@) is None,
    ensures
        indexes(index, tasks.insert(slot(tasks, t.id@), t)),
{
    let p = slot(tasks, t.id@);
    let r = tasks.insert(p, t);
    lemma_insert_ordered(tasks, t);
    ordered_is_unique(r);
    lemma_slot(tasks, t.id@, 0);
    assert forall|k: int| 0 <= k < index.len() implies (find_in(r, (#[trigger] index[k]).id@) matches Some(x)
        && scoped_of(x) == index[k].key@) by {
        let id = index[k].id@;
        lemma_position_from(tasks, id, 0);
        match position_of(tasks, id) {
            Some(m) => {
                if m < p {
                    assert(r[m] == tasks[m]);
                    lemma_position_unique(r, m);
                } else {
                    assert(r[m + 1] == tasks[m]);
                    lemma_position_unique(r, m + 1);
                }
            },
            None => {},
        }
    }
}

/// A key that was submitted stands for its task, and every other key for what it stood for: to
/// submit the same work again gives the same task.
pub proof fn submitted_key_stands_for_its_task(
    after: Seq<KeyEntry>,
    before: Seq<KeyEntry>,
    key: Seq<char>,
    id: Seq<char>,
    other: Seq<char>,
)
    requires
        unique(after),
        one_more_key(after, before, key, id),
    ensures
        key_id(after, key) == Some(id),
        other != key ==> key_id(after, other) == key_id(before, other),
{
    let n = before.len() as int;
    lemma_position_unique(after, n);
    if other != key {
        lemma_position_from(after, other, 0);
        lemma_position_from(before, other, 0);
        assert forall|i: int| 0 <= i < n implies after[i] == before[i] by {
            assert(after.drop_last()[i] == before[i]);
        }
    }
}

/// Where every scoped key stands for a task that has it, whatever is submitted is new or was
/// submitted before as a task that is there.
pub proof fn matched_table_answers_every_key(t: TaskTable, key: Seq<char>)
    requires
        t.matched(),
    ensures
        t.answers_key(key),
{
    lemma_position_from(t.index@, key, 0);
    if let Some(k) = position_of(t.index@, key) {
        assert(find_in(t.tasks@, t.index@[k].id@) is Some);
    }
}

proof fn lemma_answered_insert(index: Seq<KeyEntry>, tasks: Seq<Task>, t: Task, entry: KeyEntry, key: Seq<char>)
    requires
        position_of(tasks, t.id@) is None,
        position_of(index, entry.key@) is None,
        entry.id@ == t.id@,
        answered(index, tasks, key),
    ensures
        answered(index.push(entry), tasks.insert(slot(tasks, t.id@), t), key),
{
    let p = slot(tasks, t.id@);
    let r = tasks.insert(p, t);
    let more = index.push(entry);
    lemma_slot(tasks, t.id@, 0);
    lemma_position_from(index, entry.key@, 0);
    assert(more =~= crate::table::upserted(index, entry));
    upserted_record_is_found(index, entry, key);
    if let Some(id) = key_id(more, key) {
        lemma_position_from(r, id, 0);
        lemma_position_from(tasks, id, 0);
        match position_of(tasks, id) {
            Some(m) => {
                if m < p {
                    assert(r[m] == tasks[m]);
                } else {
                    assert(r[m + 1] == tasks[m]);
                }
            },
            None => {
                assert(r[p] == t);
            },
        }
    }
}

proof fn lemma_key_owner(all: Seq<Task>, n: int, j: int)
    requires
        0 <= n <= j < all.len(),
        keys_differ(all),
    ensures
        key_owner(all, n, scoped_of(all[j])) == Some(all[j].id@),
    decreases all.len() - n,
{
    if n < j {
        lemma_key_owner(all, n + 1, j);
    } else {
        lemma_key_absent(all, n + 1, scoped_of(all[j]));
    }
}

proof fn lemma_key_absent(all: Seq<Task>, n: int, key: Seq<char>)
    requires
        0 <= n,
        forall|i: int| n <= i < all.len() ==> scoped_of(#[trigger] all[i]) != key,
    ensures
        key_owner(all, n, key) is None,
    decreases all.len() - n,
{
    if n < all.len() {
        lemma_key_absent(all, n + 1, key);
    }
}

proof fn lemma_keyed_insert(index: Seq<KeyEntry>, tasks: Seq<Task>, t: Task, entry: KeyEntry)
    requires
        keyed_by(index, tasks),
        position_of(index, entry.key@) is None,
        entry.key@ == scoped_of(t),
        entry.id@ == t.id@,
    ensures
        keyed_by(index.push(entry), tasks.insert(slot(tasks, t.id@), t)),
{
    let p = slot(tasks, t.id@);
    let r = tasks.insert(p, t);
    let more = index.push(entry);
    lemma_slot(tasks, t.id@, 0);
    lemma_position_from(index, entry.key@, 0);
    assert(more =~= crate::table::upserted(index, entry));
    assert forall|i: int| 0 <= i < r.len() implies key_id(more, scoped_of(#[trigger] r[i])) == Some(r[i].id@) by {
        upserted_record_is_found(index, entry, scoped_of(r[i]));
        if i != p {
            let k = if i < p {
                i
            } else {
                i - 1
            };
            assert(r[i] == tasks[k]);
            assert(key_id(index, scoped_of(tasks[k])) == Some(tasks[k].id@));
        }
    }
}

proof fn lemma_other_keys_stay(index: Seq<KeyEntry>, gone: Seq<Task>, key: Seq<char>)
    requires
        forall|i: int| 0 <= i < gone.len() ==> scoped_of(#[trigger] gone[i]) != key,
    ensures
        key_id(without_keys(index, gone), key) == key_id(index, key),
    decreases gone.len(),
{
    if gone.len() > 0 {
        let head = gone.drop_last();
        assert forall|i: int| 0 <= i < head.len() implies scoped_of(#[trigger] head[i]) != key by {
            assert(head[i] == gone[i]);
        }
        lemma_other_keys_stay(index, head, key);
        assert(scoped_of(gone[gone.len() - 1]) != key);
        removed_record_is_gone(without_keys(index, head), scoped_of(gone.last()), key);
    }
}

proof fn lemma_keyed_removed(index: Seq<KeyEntry>, tasks: Seq<Task>, marks: Seq<bool>)
    requires
        ordered(tasks),
        keyed_by(index, tasks),
        marks.len() == tasks.len(),
    ensures
        keyed_by(without_keys(index, marked(tasks, marks, true)), marked(tasks, marks, false)),
{
    let kept = marked(tasks, marks, false);
    lemma_marked(tasks, marks, false);
    assert forall|j: int| 0 <= j < kept.len() implies key_id(
        without_keys(index, marked(tasks, marks, true)),
        scoped_of(#[trigger] kept[j]),
    ) == Some(kept[j].id@) by {
        assert(has_marked(tasks, marks, false, kept[j]));
        let k = choose|k: int| 0 <= k < tasks.len() && marks[k] == false && tasks[k] == kept[j];
        keys_of_kept_tasks_stay(index, tasks, marks, k);
    }
}

/// The keys of the tasks that a prune leaves still stand for them.
pub proof fn keys_of_kept_tasks_stay(index: Seq<KeyEntry>, tasks: Seq<Task>, marks: Seq<bool>, k: int)
    requires
        ordered(tasks),
        keyed_by(index, tasks),
        marks.len() == tasks.len(),
        0 <= k < tasks.len(),
        !marks[k],
    ensures
        key_id(without_keys(index, marked(tasks, marks, true)), scoped_of(tasks[k])) == Some(tasks[k].id@),
{
    let gone = marked(tasks, marks, true);
    lemma_marked(tasks, marks, true);
    ordered_is_unique(tasks);
    assert(key_id(index, scoped_of(tasks[k])) == Some(tasks[k].id@));
    assert forall|i: int| 0 <= i < gone.len() implies scoped_of(#[trigger] gone[i]) != scoped_of(tasks[k]) by {
        assert(has_marked(tasks, marks, true, gone[i]));
        let m = choose|m: int| 0 <= m < tasks.len() && marks[m] == true && tasks[m] == gone[i];
        assert(key_id(index, scoped_of(tasks[m])) == Some(tasks[m].id@));
        assert(tasks[m].key_view() != tasks[k].key_view());
    }
    lemma_other_keys_stay(index, gone, scoped_of(tasks[k]));
}

/// Pruning takes exactly the tasks that ended before a time, and leaves every other as it is: a
/// task is left if and only if it was there and did not end before it.
pub proof fn pruning_takes_only_what_ended(tasks: Seq<Task>, cutoff: u64, t: Task)
    requires
        ordered(tasks),
    ensures
        marked(tasks, stale_marks(tasks, cutoff), true).contains(t) == (tasks.contains(t) && stale(t, cutoff)),
        marked(tasks, stale_marks(tasks, cutoff), false).contains(t) == (tasks.contains(t) && !stale(t, cutoff)),
{
    let marks = stale_marks(tasks, cutoff);
    lemma_marked(tasks, marks, true);
    lemma_marked(tasks, marks, false);
    lemma_marked_exactly(tasks, marks, true, t);
    lemma_marked_exactly(tasks, marks, false, t);
    if tasks.contains(t) {
        let k = choose|k: int| 0 <= k < tasks.len() && tasks[k] == t;
        assert(marks[k] == stale(tasks[k], cutoff));
        assert(has_marked(tasks, marks, stale(t, cutoff), t));
    }
}

proof fn lemma_marked_exactly(tasks: Seq<Task>, marks: Seq<bool>, wanted: bool, t: Task)
    requires
        marks.len() == tasks.len(),
    ensures
        marked(tasks, marks, wanted).contains(t) == has_marked(tasks, marks, wanted, t),
{
    lemma_marked(tasks, marks, wanted);
    let m = marked(tasks, marks, wanted);
    if m.contains(t) {
        let j = choose|j: int| 0 <= j < m.len() && m[j] == t;
        assert(has_marked(tasks, marks, wanted, m[j]));
    }
    if has_marked(tasks, marks, wanted, t) {
        let k = choose|k: int| 0 <= k < tasks.len() && marks[k] == wanted && tasks[k] == t;
        assert(m.contains(tasks[k]));
    }
}

/// What was pruned can be submitted anew: the keys of the tasks that were removed stand for
/// nothing any more.
pub proof fn pruned_keys_are_free(index: Seq<KeyEntry>, removed: Seq<Task>, i: int)
    requires
        unique(index),
        0 <= i < removed.len(),
    ensures
        find_in(without_keys(index, removed), scoped_of(removed[i])) is None,
{
    lemma_without_keys(index, removed);
    lemma_position_from(without_keys(index, removed), scoped_of(removed[i]), 0);
}

/// Where a task may come from, for each state that it goes to. It is set running only from the
/// queue, ends in success, failure or an unknown outcome only from running, and is called off from
/// the queue, from running or while it is being cancelled.
pub proof fn task_goes_its_way(from: TaskState, to: TaskState)
    ensures
        allowed(from, to) == (match to {
            TaskState::Queued => false,
            TaskState::Running => from == TaskState::Queued,
            TaskState::CancelRequested => from == TaskState::Running,
            TaskState::Cancelling => from == TaskState::CancelRequested,
            TaskState::Succeeded => from == TaskState::Running,
            TaskState::Failed => from == TaskState::Running,
            TaskState::Cancelled => from == TaskState::Queued || from == TaskState::Running || from
                == TaskState::Cancelling,
            TaskState::FailedToCancel => from == TaskState::Cancelling,
            TaskState::TimedOut => from == TaskState::Running,
            TaskState::OutcomeUnknown => from == TaskState::Running,
        }),
{
}

/// A task may be tried again exactly where it is over without having succeeded or been called off.
pub proof fn only_failures_are_tried_again(s: TaskState)
    ensures
        retryable(s) == ((forall|to: TaskState| !#[trigger] allowed(s, to)) && s != TaskState::Succeeded && s
            != TaskState::Cancelled),
{
    assert(allowed(TaskState::Queued, TaskState::Running));
    assert(allowed(TaskState::Running, TaskState::Failed));
    assert(allowed(TaskState::CancelRequested, TaskState::Cancelling));
    assert(allowed(TaskState::Cancelling, TaskState::Cancelled));
}

/// Going to a state changes the state, the outcome and the time, notes the event, and counts an
/// attempt when the task is set running; everything else stays.
pub proof fn moved_task_keeps_what_it_is(
    t: TaskView,
    state: TaskState,
    output: Option<JsonView>,
    error: Option<TaskFailureView>,
    now: u64,
)
    ensures
        ({
            let m = t.moved(state, output, error, now);
            &&& m.state == state && m.output == output && m.error == error && m.updated_at == now
            &&& m.id == t.id && m.input == t.input && m.capability == t.capability && m.executor_id == t.executor_id
            &&& m.workspace_session_id == t.workspace_session_id && m.idempotency_key == t.idempotency_key
            &&& m.created_at == t.created_at && m.correlation_id == t.correlation_id && m.request_id == t.request_id
            &&& state != TaskState::Running ==> m.attempt == t.attempt
            &&& state == TaskState::Running && t.attempt < u32::MAX ==> m.attempt == t.attempt + 1
            &&& m.events.len() == t.events.len() + 1 && m.events.drop_last() == t.events
        }),
        ({
            let q = t.requeued(now);
            &&& q.state == TaskState::Queued && q.output is None && q.error is None && q.attempt == t.attempt
            &&& q.id == t.id && q.input == t.input && q.idempotency_key == t.idempotency_key
        }),
{
    let m = t.moved(state, output, error, now);
    assert(m.events.drop_last() =~= t.events);
}

/// A task has ended exactly where it can go nowhere from its state without being tried again.
pub proof fn ended_means_nothing_follows(s: TaskState)
    ensures
        s.ended() == (forall|to: TaskState| !#[trigger] allowed(s, to)),
{
    assert(allowed(TaskState::Queued, TaskState::Running));
    assert(allowed(TaskState::Running, TaskState::Failed));
    assert(allowed(TaskState::CancelRequested, TaskState::Cancelling));
    assert(allowed(TaskState::Cancelling, TaskState::Cancelled));
}

} // verus!
