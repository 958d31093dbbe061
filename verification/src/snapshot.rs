//! What a controller shows of itself on the dashboard.

use crate::json::{json_or_null, json_views, text_or_null, u64_or_null, Json, JsonView};
use crate::lease::{end_of, later};
use crate::rpc::{Called, CalledView};
use crate::schema::{
    AgentInstance, AgentState, Approval, ApprovalState, Artifact, ControllerPeer, Executor,
    Generation, GenerationState, HealthStatus, Lease, LeaseKind, SessionState, Task, WorkspaceSession,
};
use crate::state::Controller;
use crate::table::{find_in, lookup, position, position_of};
use crate::task::opt_text;
use crate::text::starts_with;
use vstd::prelude::*;

verus! {

/// Something that is shown as a document.
pub trait Shown {
    /// What is shown.
    spec fn row_view(&self) -> JsonView;

    /// Shows it.
    fn row(&self) -> (r: Json)
        ensures
            r@ == self.row_view(),
    ;
}

/// What is shown of each of some records.
pub open spec fn rows_view<T: Shown>(items: Seq<T>) -> Seq<JsonView> {
    Seq::new(items.len(), |i: int| items[i].row_view())
}

/// Shows each of some records.
pub fn rows<T: Shown>(items: &Vec<T>) -> (r: Json)
    ensures
        r@ == JsonView::Array(rows_view(items@)),
{
    let mut out: Vec<Json> = Vec::new();
    let mut i: usize = 0;
    while i < items.len()
        invariant
            i <= items.len(),
            out@.len() == i,
            forall|k: int| 0 <= k < i ==> (#[trigger] out@[k])@ == items@[k].row_view(),
        decreases items.len() - i,
    {
        out.push(items[i].row());
        i += 1;
    }
    assert(json_views(out@) =~= rows_view(items@));
    Json::array(out)
}

/// The name of a health in documents.
pub open spec fn health_view(h: HealthStatus) -> Seq<char> {
    match h {
        HealthStatus::Ready => "ready"@,
        HealthStatus::Degraded => "degraded"@,
        HealthStatus::Offline => "offline"@,
        HealthStatus::Unknown => "unknown"@,
    }
}

/// The name of a health in documents.
pub fn health(h: HealthStatus) -> (r: &'static str)
    ensures
        r@ == health_view(h),
{
    match h {
        HealthStatus::Ready => "ready",
        HealthStatus::Degraded => "degraded",
        HealthStatus::Offline => "offline",
        HealthStatus::Unknown => "unknown",
    }
}

/// The name of a session's state in documents.
pub open spec fn session_state_view(s: SessionState) -> Seq<char> {
    match s {
        SessionState::Active => "active"@,
        SessionState::Completed => "completed"@,
        SessionState::Archived => "archived"@,
    }
}

fn session_state(s: SessionState) -> (r: &'static str)
    ensures
        r@ == session_state_view(s),
{
    match s {
        SessionState::Active => "active",
        SessionState::Completed => "completed",
        SessionState::Archived => "archived",
    }
}

/// The name of an approval's state in documents.
pub open spec fn approval_state_view(s: ApprovalState) -> Seq<char> {
    match s {
        ApprovalState::Pending => "pending"@,
        ApprovalState::Approved => "approved"@,
        ApprovalState::Consumed => "consumed"@,
        ApprovalState::Revoked => "revoked"@,
        ApprovalState::Expired => "expired"@,
    }
}

fn approval_state(s: ApprovalState) -> (r: &'static str)
    ensures
        r@ == approval_state_view(s),
{
    match s {
        ApprovalState::Pending => "pending",
        ApprovalState::Approved => "approved",
        ApprovalState::Consumed => "consumed",
        ApprovalState::Revoked => "revoked",
        ApprovalState::Expired => "expired",
    }
}

/// The name of a generation's state in documents.
pub open spec fn generation_state_view(s: GenerationState) -> Seq<char> {
    match s {
        GenerationState::Reserved => "reserved"@,
        GenerationState::Materializing => "materializing"@,
        GenerationState::Materialized => "materialized"@,
        GenerationState::Validated => "validated"@,
        GenerationState::Finalized => "finalized"@,
        GenerationState::SmokePassed => "smoke-passed"@,
        GenerationState::Active => "active"@,
        GenerationState::Superseded => "superseded"@,
        GenerationState::Failed => "failed"@,
    }
}

fn generation_state(s: GenerationState) -> (r: &'static str)
    ensures
        r@ == generation_state_view(s),
{
    match s {
        GenerationState::Reserved => "reserved",
        GenerationState::Materializing => "materializing",
        GenerationState::Materialized => "materialized",
        GenerationState::Validated => "validated",
        GenerationState::Finalized => "finalized",
        GenerationState::SmokePassed => "smoke-passed",
        GenerationState::Active => "active",
        GenerationState::Superseded => "superseded",
        GenerationState::Failed => "failed",
    }
}

/// The name of an agent's state in documents.
pub open spec fn agent_state_view(s: AgentState) -> Seq<char> {
    match s {
        AgentState::Starting => "starting"@,
        AgentState::Running => "running"@,
        AgentState::Stopped => "stopped"@,
        AgentState::Failed => "failed"@,
    }
}

fn agent_state(s: AgentState) -> (r: &'static str)
    ensures
        r@ == agent_state_view(s),
{
    match s {
        AgentState::Starting => "starting",
        AgentState::Running => "running",
        AgentState::Stopped => "stopped",
        AgentState::Failed => "failed",
    }
}

impl Shown for ControllerPeer {
    open spec fn row_view(&self) -> JsonView {
        JsonView::obj().plus("health"@, JsonView::Text(health_view(self.health))).plus(
            "id"@,
            JsonView::Text(self.metadata.id@),
        )
    }

    fn row(&self) -> (r: Json) {
        Json::obj().plus("health", Json::text(health(self.health))).plus("id", Json::text(self.metadata.id.as_str()))
    }
}

impl Shown for Executor {
    open spec fn row_view(&self) -> JsonView {
        JsonView::obj().plus("capabilityCount"@, JsonView::Unsigned(self.capabilities@.len() as u64)).plus(
            "health"@,
            JsonView::Text(health_view(self.health)),
        ).plus("id"@, JsonView::Text(self.metadata.id@))
    }

    fn row(&self) -> (r: Json) {
        Json::obj().plus("capabilityCount", Json::Unsigned(self.capabilities.len() as u64)).plus(
            "health",
            Json::text(health(self.health)),
        ).plus("id", Json::text(self.metadata.id.as_str()))
    }
}

impl Shown for Lease {
    open spec fn row_view(&self) -> JsonView {
        JsonView::obj().plus("expiresAt"@, JsonView::Unsigned(self.expires_at)).plus(
            "fence"@,
            JsonView::Unsigned(self.fence),
        ).plus("handoffTo"@, text_or_null(opt_text(self.handoff_to))).plus("id"@, JsonView::Text(self.id@)).plus(
            "kind"@,
            JsonView::Text(
                if self.kind == LeaseKind::Driver {
                    "driver"@
                } else {
                    "resource"@
                },
            ),
        ).plus("owner"@, JsonView::Text(self.owner@)).plus("resource"@, JsonView::Text(self.resource@))
    }

    fn row(&self) -> (r: Json) {
        let kind = if self.kind == LeaseKind::Driver {
            "driver"
        } else {
            "resource"
        };
        Json::obj().plus("expiresAt", Json::Unsigned(self.expires_at)).plus("fence", Json::Unsigned(self.fence)).plus(
            "handoffTo",
            Json::opt_text(&self.handoff_to),
        ).plus("id", Json::text(self.id.as_str())).plus("kind", Json::text(kind)).plus(
            "owner",
            Json::text(self.owner.as_str()),
        ).plus("resource", Json::text(self.resource.as_str()))
    }
}

impl Shown for Approval {
    open spec fn row_view(&self) -> JsonView {
        JsonView::obj().plus("createdAt"@, JsonView::Unsigned(self.created_at)).plus(
            "digest"@,
            JsonView::Text(self.digest@),
        ).plus("expiresAt"@, u64_or_null(self.expires_at)).plus("id"@, JsonView::Text(self.id@)).plus(
            "owner"@,
            JsonView::Text(self.owner@),
        ).plus("state"@, JsonView::Text(approval_state_view(self.state)))
    }

    fn row(&self) -> (r: Json) {
        Json::obj().plus("createdAt", Json::Unsigned(self.created_at)).plus(
            "digest",
            Json::text(self.digest.as_str()),
        ).plus("expiresAt", Json::opt_u64(self.expires_at)).plus("id", Json::text(self.id.as_str())).plus(
            "owner",
            Json::text(self.owner.as_str()),
        ).plus("state", Json::text(approval_state(self.state)))
    }
}

impl Shown for Artifact {
    open spec fn row_view(&self) -> JsonView {
        JsonView::obj().plus("artifactType"@, JsonView::Text(self.artifact_type@)).plus(
            "createdAt"@,
            JsonView::Unsigned(self.created_at),
        ).plus("digest"@, JsonView::Text(self.digest@)).plus("size"@, JsonView::Unsigned(self.size))
    }

    fn row(&self) -> (r: Json) {
        Json::obj().plus("artifactType", Json::text(self.artifact_type.as_str())).plus(
            "createdAt",
            Json::Unsigned(self.created_at),
        ).plus("digest", Json::text(self.digest.as_str())).plus("size", Json::Unsigned(self.size))
    }
}

impl Shown for Generation {
    open spec fn row_view(&self) -> JsonView {
        JsonView::obj().plus("id"@, JsonView::Text(self.id@)).plus(
            "state"@,
            JsonView::Text(generation_state_view(self.state)),
        )
    }

    fn row(&self) -> (r: Json) {
        Json::obj().plus("id", Json::text(self.id.as_str())).plus("state", Json::text(generation_state(self.state)))
    }
}

impl Shown for AgentInstance {
    open spec fn row_view(&self) -> JsonView {
        JsonView::obj().plus("executorId"@, JsonView::Text(self.executor_id@)).plus(
            "id"@,
            JsonView::Text(self.id@),
        ).plus("role"@, JsonView::Text(self.role@)).plus("state"@, JsonView::Text(agent_state_view(self.state))).plus(
            "workspaceSessionId"@,
            JsonView::Text(self.workspace_session_id@),
        )
    }

    fn row(&self) -> (r: Json) {
        Json::obj().plus("executorId", Json::text(self.executor_id.as_str())).plus(
            "id",
            Json::text(self.id.as_str()),
        ).plus("role", Json::text(self.role.as_str())).plus("state", Json::text(agent_state(self.state))).plus(
            "workspaceSessionId",
            Json::text(self.workspace_session_id.as_str()),
        )
    }
}

/// What is shown of a session, `shown` being how it wants to be shown.
pub open spec fn session_row_view(s: WorkspaceSession, shown: JsonView) -> JsonView {
    JsonView::obj().plus("id"@, JsonView::Text(s.metadata.id@)).plus("objective"@, JsonView::Text(s.objective@)).plus(
        "observability"@,
        shown,
    ).plus("state"@, JsonView::Text(session_state_view(s.state)))
}

/// What is shown of each session.
pub open spec fn session_rows_view(items: Seq<WorkspaceSession>, shown: Seq<JsonView>) -> Seq<JsonView> {
    Seq::new(items.len(), |i: int| session_row_view(items[i], shown[i]))
}

fn session_rows(items: &Vec<WorkspaceSession>, shown: &Vec<Json>) -> (r: Json)
    requires
        items@.len() == shown@.len(),
    ensures
        r@ == JsonView::Array(session_rows_view(items@, json_views(shown@))),
{
    let mut out: Vec<Json> = Vec::new();
    let mut i: usize = 0;
    while i < items.len()
        invariant
            i <= items.len(),
            items@.len() == shown@.len(),
            out@.len() == i,
            forall|k: int| 0 <= k < i ==> (#[trigger] out@[k])@ == session_row_view(items@[k], shown@[k]@),
        decreases items.len() - i,
    {
        let s = &items[i];
        out.push(
            Json::obj().plus("id", Json::text(s.metadata.id.as_str())).plus(
                "objective",
                Json::text(s.objective.as_str()),
            ).plus("observability", shown[i].copy()).plus("state", Json::text(session_state(s.state))),
        );
        i += 1;
    }
    assert(json_views(out@) =~= session_rows_view(items@, json_views(shown@)));
    Json::array(out)
}

/// What is shown of a lease of a port.
pub open spec fn port_row(l: Lease) -> JsonView {
    JsonView::obj().plus("expiresAt"@, JsonView::Unsigned(l.expires_at)).plus("id"@, JsonView::Text(l.id@)).plus(
        "owner"@,
        JsonView::Text(l.owner@),
    ).plus("resource"@, JsonView::Text(l.resource@))
}

/// What is shown of the ports among the first `n` leases.
pub open spec fn port_rows(leases: Seq<Lease>, n: int) -> Seq<JsonView>
    decreases n,
{
    if n <= 0 {
        Seq::empty()
    } else if "port:"@.is_prefix_of(leases[n - 1].resource@) {
        port_rows(leases, n - 1).push(port_row(leases[n - 1]))
    } else {
        port_rows(leases, n - 1)
    }
}

fn shown_ports(leases: &Vec<Lease>) -> (r: Json)
    ensures
        r@ == JsonView::Array(port_rows(leases@, leases@.len() as int)),
{
    let mut out: Vec<Json> = Vec::new();
    let mut i: usize = 0;
    proof {
        assert(json_views(out@) =~= Seq::empty());
    }
    while i < leases.len()
        invariant
            i <= leases.len(),
            json_views(out@) == port_rows(leases@, i as int),
        decreases leases.len() - i,
    {
        let l = &leases[i];
        if starts_with(l.resource.as_str(), "port:") {
            let ghost before = out@;
            let row = Json::obj().plus("expiresAt", Json::Unsigned(l.expires_at)).plus(
                "id",
                Json::text(l.id.as_str()),
            ).plus("owner", Json::text(l.owner.as_str())).plus("resource", Json::text(l.resource.as_str()));
            out.push(row);
            proof {
                assert(json_views(out@) =~= json_views(before).push(row@));
            }
        }
        i += 1;
    }
    Json::array(out)
}

/// How long the capability of a task may take, where its executor is known to have it.
pub open spec fn task_timeout(executors: Seq<Executor>, t: Task) -> Option<u64> {
    match find_in(executors, t.executor_id@) {
        Some(e) => match find_in(e.capabilities@, t.capability@) {
            Some(c) => Some(c.timeout_ms),
            None => None,
        },
        None => None,
    }
}

fn timeout_of(executors: &Vec<Executor>, t: &Task) -> (r: Option<u64>)
    ensures
        r == task_timeout(executors@, *t),
{
    match lookup(executors, t.executor_id.as_str()) {
        Some(e) => match lookup(&e.capabilities, t.capability.as_str()) {
            Some(c) => Some(c.timeout_ms),
            None => None,
        },
        None => None,
    }
}

/// What is shown of a task.
pub open spec fn task_row(executors: Seq<Executor>, t: Task) -> JsonView {
    let timeout = task_timeout(executors, t);
    JsonView::obj().plus("capability"@, JsonView::Text(t.capability@)).plus(
        "createdAt"@,
        JsonView::Unsigned(t.created_at),
    ).plus("executorId"@, JsonView::Text(t.executor_id@)).plus(
        "expectedBy"@,
        match timeout {
            Some(n) => JsonView::Unsigned(later(t.created_at, n)),
            None => JsonView::Null,
        },
    ).plus("id"@, JsonView::Text(t.id@)).plus("state"@, JsonView::Text(t.state.name_view())).plus(
        "timeoutMs"@,
        u64_or_null(timeout),
    ).plus("updatedAt"@, JsonView::Unsigned(t.updated_at)).plus(
        "workspaceSessionId"@,
        JsonView::Text(t.workspace_session_id@),
    )
}

/// What is shown of each task.
pub open spec fn task_rows(executors: Seq<Executor>, tasks: Seq<Task>) -> Seq<JsonView> {
    Seq::new(tasks.len(), |i: int| task_row(executors, tasks[i]))
}

fn shown_tasks(executors: &Vec<Executor>, tasks: &Vec<Task>) -> (r: Json)
    ensures
        r@ == JsonView::Array(task_rows(executors@, tasks@)),
{
    let mut out: Vec<Json> = Vec::new();
    let mut i: usize = 0;
    while i < tasks.len()
        invariant
            i <= tasks.len(),
            out@.len() == i,
            forall|k: int| 0 <= k < i ==> (#[trigger] out@[k])@ == task_row(executors@, tasks@[k]),
        decreases tasks.len() - i,
    {
        let t = &tasks[i];
        let timeout = timeout_of(executors, t);
        let expected = match timeout {
            Some(n) => Json::Unsigned(end_of(t.created_at, n)),
            None => Json::Null,
        };
        out.push(
            Json::obj().plus("capability", Json::text(t.capability.as_str())).plus(
                "createdAt",
                Json::Unsigned(t.created_at),
            ).plus("executorId", Json::text(t.executor_id.as_str())).plus("expectedBy", expected).plus(
                "id",
                Json::text(t.id.as_str()),
            ).plus("state", Json::text(t.state.name())).plus("timeoutMs", Json::opt_u64(timeout)).plus(
                "updatedAt",
                Json::Unsigned(t.updated_at),
            ).plus("workspaceSessionId", Json::text(t.workspace_session_id.as_str())),
        );
        i += 1;
    }
    assert(json_views(out@) =~= task_rows(executors@, tasks@));
    Json::array(out)
}

/// The documents that an executor's answer lists under a name, where it is an answer that succeeded.
pub open spec fn listed(called: CalledView, key: Seq<char>) -> Option<Seq<JsonView>> {
    match called {
        CalledView::Answered(response) => if response.ok {
            Some(
                match json_or_null(response.result).get_array(key) {
                    Some(items) => items,
                    None => Seq::empty(),
                },
            )
        } else {
            None
        },
        CalledView::Unreachable(_) => None,
    }
}

fn list_of<'a>(called: &'a Called, key: &str, none: &'a Vec<Json>) -> (r: Option<&'a Vec<Json>>)
    requires
        none@.len() == 0,
    ensures
        (match r {
            Some(items) => Some(json_views(items@)),
            None => None,
        }) == listed(called@, key@),
{
    assert(json_views(none@) =~= Seq::empty());
    match called {
        Called::Answered(response) => if response.ok {
            match &response.result {
                Some(result) => match result.get_array(key) {
                    Some(items) => Some(items),
                    None => Some(none),
                },
                None => Some(none),
            }
        } else {
            None
        },
        Called::Unreachable(_) => None,
    }
}

/// What is shown of a process.
pub open spec fn process_row(p: JsonView) -> JsonView {
    JsonView::obj().plus("id"@, p.get_or_null("id"@)).plus("pid"@, p.get_or_null("pid"@)).plus(
        "readiness"@,
        p.get_or_null("readiness"@),
    ).plus("restartable"@, p.get_or_null("restartable"@)).plus("startedAt"@, p.get_or_null("startedAt"@)).plus(
        "state"@,
        p.get_or_null("state"@),
    ).plus("updatedAt"@, p.get_or_null("updatedAt"@))
}

/// What is shown of each process.
pub open spec fn process_rows(items: Seq<JsonView>) -> Seq<JsonView> {
    Seq::new(items.len(), |i: int| process_row(items[i]))
}

/// What is shown of an executor's processes; they are stale where it did not list them.
pub open spec fn process_node(executor_id: Seq<char>, called: CalledView) -> JsonView {
    JsonView::obj().plus("executorId"@, JsonView::Text(executor_id)).plus(
        "processes"@,
        JsonView::Array(
            match listed(called, "processes"@) {
                Some(items) => process_rows(items),
                None => Seq::empty(),
            },
        ),
    ).plus("stale"@, JsonView::Bool(listed(called, "processes"@) is None))
}

/// Shows an executor's processes, by what it answered to a request to list them.
pub fn shown_processes(executor_id: &str, called: &Called) -> (r: Json)
    ensures
        r@ == process_node(executor_id@, called@),
{
    let none: Vec<Json> = Vec::new();
    let mut out: Vec<Json> = Vec::new();
    let mut stale = true;
    if let Some(items) = list_of(called, "processes", &none) {
        stale = false;
        let ghost all = json_views(items@);
        let mut i: usize = 0;
        while i < items.len()
            invariant
                i <= items.len(),
                all == json_views(items@),
                out@.len() == i,
                forall|k: int| 0 <= k < i ==> (#[trigger] out@[k])@ == process_row(all[k]),
            decreases items.len() - i,
        {
            let p = &items[i];
            assert(all[i as int] == p@);
            out.push(
                Json::obj().plus("id", p.copy_or_null("id")).plus("pid", p.copy_or_null("pid")).plus(
                    "readiness",
                    p.copy_or_null("readiness"),
                ).plus("restartable", p.copy_or_null("restartable")).plus("startedAt", p.copy_or_null("startedAt")).plus(
                    "state",
                    p.copy_or_null("state"),
                ).plus("updatedAt", p.copy_or_null("updatedAt")),
            );
            i += 1;
        }
        assert(json_views(out@) =~= process_rows(all));
    } else {
        assert(json_views(out@) =~= Seq::empty());
    }
    Json::obj().plus("executorId", Json::text(executor_id)).plus("processes", Json::array(out)).plus(
        "stale",
        Json::Bool(stale),
    )
}

/// What is shown of each of an executor's tunnels.
pub open spec fn tunnel_rows(executor_id: Seq<char>, items: Seq<JsonView>) -> Seq<JsonView> {
    Seq::new(items.len(), |i: int| items[i].with("executorId"@, JsonView::Text(executor_id)))
}

/// Whether the executor's name can be put into each of some tunnels.
pub open spec fn nameable(items: Seq<JsonView>) -> bool {
    forall|i: int| 0 <= i < items.len() ==> (#[trigger] items[i]).settable()
}

/// Whether an executor is asked for its tunnels: it offers to list them.
pub fn lists_tunnels(executor: &Executor) -> (r: bool)
    ensures
        r == (position_of(executor.capabilities@, "tunnel.list"@) is Some),
{
    position(&executor.capabilities, "tunnel.list").is_some()
}

/// Whether the executor's name can be put into each tunnel that an executor listed.
pub fn tunnels_are_nameable(called: &Called) -> (r: bool)
    ensures
        r == (listed(called@, "tunnels"@) matches Some(items) ==> nameable(items)),
{
    let none: Vec<Json> = Vec::new();
    if let Some(items) = list_of(called, "tunnels", &none) {
        let ghost all = json_views(items@);
        let mut i: usize = 0;
        while i < items.len()
            invariant
                i <= items.len(),
                all == json_views(items@),
                listed(called@, "tunnels"@) == Some(all),
                forall|k: int| 0 <= k < i ==> (#[trigger] all[k]).settable(),
            decreases items.len() - i,
        {
            assert(all[i as int] == items@[i as int]@);
            let fine = match &items[i] {
                Json::Object(_) => true,
                Json::Null => true,
                _ => false,
            };
            if !fine {
                assert(!all[i as int].settable());
                return false;
            }
            i += 1;
        }
    }
    true
}

/// Shows an executor's tunnels, by what it answered to a request to list them: each with the
/// name of the executor, and none where it did not list them.
pub fn shown_tunnels(executor_id: &str, called: &Called) -> (r: Vec<Json>)
    requires
        listed(called@, "tunnels"@) matches Some(items) ==> nameable(items),
    ensures
        json_views(r@) == (match listed(called@, "tunnels"@) {
            Some(items) => tunnel_rows(executor_id@, items),
            None => Seq::empty(),
        }),
{
    let none: Vec<Json> = Vec::new();
    let mut out: Vec<Json> = Vec::new();
    if let Some(items) = list_of(called, "tunnels", &none) {
        let ghost all = json_views(items@);
        let mut i: usize = 0;
        while i < items.len()
            invariant
                i <= items.len(),
                all == json_views(items@),
                nameable(all),
                out@.len() == i,
                forall|k: int|
                    0 <= k < i ==> (#[trigger] out@[k])@ == all[k].with("executorId"@, JsonView::Text(executor_id@)),
            decreases items.len() - i,
        {
            assert(all[i as int] == items@[i as int]@);
            let mut tunnel = items[i].copy();
            tunnel.set("executorId", Json::text(executor_id));
            out.push(tunnel);
            i += 1;
        }
        assert(json_views(out@) =~= tunnel_rows(executor_id@, all));
    } else {
        assert(json_views(out@) =~= Seq::empty());
    }
    out
}

/// What a controller shows of itself, where `shown` holds how each session wants to be shown.
pub open spec fn snapshot_view(
    c: Controller,
    shown: Seq<JsonView>,
    process_nodes: Seq<JsonView>,
    tunnels: Seq<JsonView>,
    now: u64,
) -> JsonView {
    JsonView::obj().plus("agents"@, JsonView::Array(rows_view(c.state.agents@))).plus(
        "approvals"@,
        JsonView::Array(rows_view(c.state.approvals@)),
    ).plus("artifacts"@, JsonView::Array(rows_view(c.state.artifacts@))).plus(
        "controller"@,
        JsonView::obj().plus("id"@, JsonView::Text(c.id@)).plus("status"@, JsonView::Text("ready"@)),
    ).plus("controllers"@, JsonView::Array(rows_view(c.state.controllers@))).plus(
        "executors"@,
        JsonView::Array(rows_view(c.state.executors@)),
    ).plus("generatedAt"@, JsonView::Unsigned(now)).plus(
        "generations"@,
        JsonView::Array(rows_view(c.state.generations@)),
    ).plus("leases"@, JsonView::Array(rows_view(c.leases.leases@))).plus(
        "ports"@,
        JsonView::Array(port_rows(c.leases.leases@, c.leases.leases@.len() as int)),
    ).plus("processNodes"@, JsonView::Array(process_nodes)).plus(
        "sessions"@,
        JsonView::Array(session_rows_view(c.state.sessions@, shown)),
    ).plus("tasks"@, JsonView::Array(task_rows(c.state.executors@, c.tasks.tasks@))).plus(
        "tunnels"@,
        JsonView::Array(tunnels),
    )
}

impl Controller {
    /// Shows what the controller knows. `shown` holds how each session wants to be shown, the
    /// other two what the executors told of their processes and tunnels.
    pub fn dashboard_snapshot(&self, shown: &Vec<Json>, process_nodes: Vec<Json>, tunnels: Vec<Json>, now: u64) -> (r:
        Json)
        requires
            shown@.len() == self.state.sessions@.len(),
        ensures
            r@ == snapshot_view(*self, json_views(shown@), json_views(process_nodes@), json_views(tunnels@), now),
    {
        let own = Json::obj().plus("id", Json::text(self.id.as_str())).plus("status", Json::text("ready"));
        Json::obj().plus("agents", rows(&self.state.agents)).plus("approvals", rows(&self.state.approvals)).plus(
            "artifacts",
            rows(&self.state.artifacts),
        ).plus("controller", own).plus("controllers", rows(&self.state.controllers)).plus(
            "executors",
            rows(&self.state.executors),
        ).plus("generatedAt", Json::Unsigned(now)).plus("generations", rows(&self.state.generations)).plus(
            "leases",
            rows(&self.leases.leases),
        ).plus("ports", shown_ports(&self.leases.leases)).plus("processNodes", Json::array(process_nodes)).plus(
            "sessions",
            session_rows(&self.state.sessions, shown),
        ).plus("tasks", shown_tasks(&self.state.executors, &self.tasks.tasks)).plus("tunnels", Json::array(tunnels))
    }
}

/// Whether two leases are the same but for their tokens.
pub open spec fn same_but_token(a: Lease, b: Lease) -> bool {
    a == (Lease { token: a.token, ..b })
}

/// What a controller shows says nothing of the tokens of its leases: with other tokens it would
/// show the same.
pub proof fn snapshot_hides_tokens(
    a: Controller,
    b: Controller,
    shown: Seq<JsonView>,
    process_nodes: Seq<JsonView>,
    tunnels: Seq<JsonView>,
    now: u64,
)
    requires
        a.id@ == b.id@,
        a.state == b.state,
        a.tasks == b.tasks,
        a.leases.leases@.len() == b.leases.leases@.len(),
        forall|i: int|
            0 <= i < a.leases.leases@.len() ==> same_but_token(#[trigger] a.leases.leases@[i], b.leases.leases@[i]),
    ensures
        snapshot_view(a, shown, process_nodes, tunnels, now) == snapshot_view(b, shown, process_nodes, tunnels, now),
{
    let x = a.leases.leases@;
    let y = b.leases.leases@;
    assert forall|i: int| 0 <= i < x.len() implies rows_view(x)[i] == rows_view(y)[i] by {
        assert(same_but_token(x[i], y[i]));
    }
    assert(rows_view(x) =~= rows_view(y));
    lemma_ports(x, y, x.len() as int);
}

proof fn lemma_ports(x: Seq<Lease>, y: Seq<Lease>, n: int)
    requires
        n <= x.len(),
        x.len() == y.len(),
        forall|i: int| 0 <= i < x.len() ==> same_but_token(#[trigger] x[i], y[i]),
    ensures
        port_rows(x, n) == port_rows(y, n),
    decreases n,
{
    if n > 0 {
        lemma_ports(x, y, n - 1);
        assert(same_but_token(x[n - 1], y[n - 1]));
    }
}

} // verus!
