//! Invoking a capability of an executor: who may, with which input, under which leases, and what
//! becomes of the task.

use crate::approval::consume;
use crate::driver::{draining, workspace_is_draining};
use crate::evidence::field_or;
use crate::json::{lemma_with, Json, JsonView};
use crate::lease::{begins, lease_rpc, map_lease_error, LeaseTable, LeasesView};
use crate::lock::{
    authority_template, command_digest, command_digest_view, command_requires_approval, lock_view,
    render_capability_authority_resource, risky,
};
use crate::paths::{path_within, within};
use crate::rpc::{fails, need, required_str, retryable_error, rpc_error, unknown, unknown_error, RpcError, RpcErrorView};
use crate::schema::{
    Approval, ApprovalState, CapabilityAuthority, CapabilityDescriptor, DriverHandoffState, ExecutionKind, Executor, Lease,
    ReadGrant, ReadGrantState, Task, TaskState, WorkspaceSession,
};
use crate::session::stored_authority;
use crate::state::Controller;
use crate::table::{
    find_in, lemma_position_from, lemma_position_unique, lookup, position, position_of, remove_by, upsert_by, upserted,
    without, Keyed,
};
use crate::task::{fresh_task, one_more_key, opt_text, scoped_view, slot, task_views, TaskTable, TaskView};
use crate::text::{concat2, concat3, concat4, contains, decimal, list_has, starts_with, str_eq, u64_text, views};
use vstd::prelude::*;

verus! {

impl Keyed for CapabilityDescriptor {
    open spec fn key_view(&self) -> Seq<char> {
        self.name@
    }

    fn key(&self) -> (r: &str) {
        self.name.as_str()
    }
}

/// Whom and what an invocation concerns: the positions of the executor and of its capability, and
/// the texts that the request names.
#[derive(Debug)]
pub struct Subject {
    pub executor: usize,
    pub capability: usize,
    pub executor_id: String,
    pub name: String,
    pub session: String,
    /// The epoch of the authority over the session.
    pub epoch: u64,
    pub owner: String,
    pub key: String,
}

/// What a subject holds.
pub struct SubjectView {
    pub executor: int,
    pub capability: int,
    pub executor_id: Seq<char>,
    pub name: Seq<char>,
    pub session: Seq<char>,
    pub epoch: u64,
    pub owner: Seq<char>,
    pub key: Seq<char>,
}

impl View for Subject {
    type V = SubjectView;

    open spec fn view(&self) -> SubjectView {
        SubjectView {
            executor: self.executor as int,
            capability: self.capability as int,
            executor_id: self.executor_id@,
            name: self.name@,
            session: self.session@,
            epoch: self.epoch,
            owner: self.owner@,
            key: self.key@,
        }
    }
}

/// Whether a capability is of the second version of the protocol.
pub open spec fn second_version(version: Seq<char>) -> bool {
    version == "2"@ || "2."@.is_prefix_of(version)
}

/// Whom and what a request to invoke a capability concerns, or why it is refused: the session has
/// to be governed by this controller, and the executor has to offer the capability in the second
/// version.
pub open spec fn subject_view(
    id: Seq<char>,
    sessions: Seq<WorkspaceSession>,
    executors: Seq<Executor>,
    params: JsonView,
) -> Result<SubjectView, RpcErrorView> {
    match (need(params, "executorId"@), need(params, "capability"@), need(params, "workspaceSessionId"@)) {
        (Err(e), _, _) => Err(e),
        (Ok(_), Err(e), _) => Err(e),
        (Ok(_), Ok(_), Err(e)) => Err(e),
        (Ok(executor_id), Ok(name), Ok(session)) => match stored_authority(sessions, session) {
            None => Err(unknown("SESSION_NOT_FOUND"@, "unknown session: "@, session)),
            Some(a) => if a.0 != id {
                Err(rpc_error("NOT_SESSION_AUTHORITY"@, "session is owned by "@ + a.0))
            } else {
                match (need(params, "owner"@), need(params, "idempotencyKey"@)) {
                    (Err(e), _) => Err(e),
                    (Ok(_), Err(e)) => Err(e),
                    (Ok(owner), Ok(key)) => match position_of(executors, executor_id) {
                        None => Err(unknown("EXECUTOR_NOT_FOUND"@, "unknown executor: "@, executor_id)),
                        Some(x) => match position_of(executors[x].capabilities@, name) {
                            None => Err(
                                unknown("CAPABILITY_NOT_FOUND"@, "executor does not provide "@, name),
                            ),
                            Some(c) => if !second_version(executors[x].capabilities@[c].version@) {
                                Err(
                                    rpc_error(
                                        "PEER_CAPABILITY_VERSION_MISMATCH"@,
                                        executor_id + "/"@ + name + " does not implement authority protocol v2"@,
                                    ),
                                )
                            } else {
                                Ok(
                                    SubjectView {
                                        executor: x,
                                        capability: c,
                                        executor_id,
                                        name,
                                        session,
                                        epoch: a.1,
                                        owner,
                                        key,
                                    },
                                )
                            },
                        },
                    },
                }
            },
        },
    }
}

/// Whom and what a request to invoke a capability concerns.
pub fn invocation_subject(id: &str, sessions: &Vec<WorkspaceSession>, executors: &Vec<Executor>, params: &Json) -> (r: Result<
    Subject,
    RpcError,
>)
    ensures
        match subject_view(id@, sessions@, executors@, params@) {
            Ok(s) => r matches Ok(x) && x@ == s && x.executor < executors@.len() && x.capability
                < executors@[x.executor as int].capabilities@.len(),
            Err(e) => fails(r, e),
        },
{
    let executor_id = match required_str(params, "executorId") {
        Ok(s) => s,
        Err(e) => return Err(e),
    };
    let name = match required_str(params, "capability") {
        Ok(s) => s,
        Err(e) => return Err(e),
    };
    let session = match required_str(params, "workspaceSessionId") {
        Ok(s) => s,
        Err(e) => return Err(e),
    };
    let authority = match lookup(sessions, session) {
        Some(s) => &s.authority,
        None => return Err(unknown_error("SESSION_NOT_FOUND", "unknown session: ", session)),
    };
    let authority = match authority {
        Some(a) => a,
        None => return Err(unknown_error("SESSION_NOT_FOUND", "unknown session: ", session)),
    };
    if !str_eq(authority.controller_id.as_str(), id) {
        let m = concat2("session is owned by ", authority.controller_id.as_str());
        return Err(RpcError::new("NOT_SESSION_AUTHORITY", m.as_str()));
    }
    let owner = match required_str(params, "owner") {
        Ok(s) => s,
        Err(e) => return Err(e),
    };
    let key = match required_str(params, "idempotencyKey") {
        Ok(s) => s,
        Err(e) => return Err(e),
    };
    let x = match position(executors, executor_id) {
        Some(x) => x,
        None => return Err(unknown_error("EXECUTOR_NOT_FOUND", "unknown executor: ", executor_id)),
    };
    let c = match position(&executors[x].capabilities, name) {
        Some(c) => c,
        None => return Err(unknown_error("CAPABILITY_NOT_FOUND", "executor does not provide ", name)),
    };
    let version = executors[x].capabilities[c].version.as_str();
    if !str_eq(version, "2") && !starts_with(version, "2.") {
        let m = concat4(executor_id, "/", name, " does not implement authority protocol v2");
        return Err(RpcError::new("PEER_CAPABILITY_VERSION_MISMATCH", m.as_str()));
    }
    Ok(
        Subject {
            executor: x,
            capability: c,
            executor_id: executor_id.to_owned(),
            name: name.to_owned(),
            session: session.to_owned(),
            epoch: authority.epoch,
            owner: owner.to_owned(),
            key: key.to_owned(),
        },
    )
}

/// Whether a grant lets a session read a path on an executor with a capability.
pub open spec fn covers(g: ReadGrant, session: Seq<char>, executor: Seq<char>, capability: Seq<char>, path: Seq<char>) -> bool {
    g.workspace_session_id@ == session && g.executor_id@ == executor && g.state == ReadGrantState::Approved && views(
        g.capabilities@,
    ).contains(capability) && within(path, g.real_root@)
}

/// The first grant at or after a position that covers a path.
pub open spec fn covering_from(
    grants: Seq<ReadGrant>,
    session: Seq<char>,
    executor: Seq<char>,
    capability: Seq<char>,
    path: Seq<char>,
    from: int,
) -> Option<int>
    decreases grants.len() - from,
{
    if from < 0 || from >= grants.len() {
        None
    } else if covers(grants[from], session, executor, capability, path) {
        Some(from)
    } else {
        covering_from(grants, session, executor, capability, path, from + 1)
    }
}

/// Whether a capability reads files.
pub open spec fn reads_files(name: Seq<char>) -> bool {
    name == "filesystem.resolve"@ || name == "filesystem.stat"@ || name == "filesystem.read"@ || name
        == "filesystem.list"@ || name == "filesystem.search"@
}

/// The field of its input with the path that a capability reads, and the capability that a grant
/// for it has to name.
pub open spec fn read_path(name: Seq<char>) -> Option<(Seq<char>, Seq<char>)> {
    if reads_files(name) {
        Some(("path"@, name))
    } else if name == "application.inspect"@ {
        Some(("applicationPath"@, "filesystem.read"@))
    } else if name == "application.materialize"@ {
        Some(("baselinePath"@, "filesystem.read"@))
    } else {
        None
    }
}

/// An input with the session, and with the grant that covers the path it names.
pub open spec fn with_grant(
    grants: Seq<ReadGrant>,
    input: JsonView,
    session: Seq<char>,
    executor: Seq<char>,
    capability: Seq<char>,
    key: Seq<char>,
) -> JsonView {
    let a = input.with("_workspaceSessionId"@, JsonView::Text(session));
    match a.get_str(key) {
        Some(path) => match covering_from(grants, session, executor, capability, path, 0) {
            Some(i) => a.with("_readGrantId"@, JsonView::Text(grants[i].id@)),
            None => a,
        },
        None => a,
    }
}

/// The text of a field, or another.
pub open spec fn text_of(j: JsonView, key: Seq<char>, default: Seq<char>) -> Seq<char> {
    match j.get_str(key) {
        Some(s) => s,
        None => default,
    }
}

/// The environment of an agent that is started.
pub open spec fn agent_env(input: JsonView, session: Seq<char>, executor: Seq<char>, owner: Seq<char>) -> JsonView {
    let role = text_of(input, "role"@, "agent"@);
    let env = match input.get("env"@) {
        Some(JsonView::Object(f)) => JsonView::Object(f),
        _ => JsonView::obj(),
    };
    env.with("WORKBENCH_WORKSPACE_SESSION_ID"@, JsonView::Text(session)).with(
        "WORKBENCH_NODE_ID"@,
        JsonView::Text(executor),
    ).with("WORKBENCH_AGENT_ROLE"@, JsonView::Text(role)).with(
        "WORKBENCH_AGENT_ID"@,
        JsonView::Text(text_of(input, "agentId"@, owner)),
    ).with("WORKBENCH_RUN_SUMMARY"@, JsonView::Text(role + " task in "@ + session))
}

/// The input of an invocation as it is checked: with the grant under which it reads, and for an
/// agent with its environment.
pub open spec fn prepared_input(grants: Seq<ReadGrant>, s: SubjectView, input: JsonView) -> JsonView {
    match read_path(s.name) {
        Some(p) => with_grant(grants, input, s.session, s.executor_id, p.1, p.0),
        None => if s.name == "agent.start"@ {
            input.with("env"@, agent_env(input, s.session, s.executor_id, s.owner))
        } else {
            input
        },
    }
}

/// The input that a request gives.
pub open spec fn given_input(params: JsonView) -> JsonView {
    field_or(params, "input"@, JsonView::obj())
}

/// Whether the input of a capability is added to before it is checked.
pub open spec fn adds_to_input(name: Seq<char>) -> bool {
    read_path(name) is Some || name == "agent.start"@
}

fn find_covering(grants: &Vec<ReadGrant>, session: &str, executor: &str, capability: &str, path: &str) -> (r: Option<usize>)
    ensures
        match r {
            Some(i) => i < grants@.len() && covering_from(grants@, session@, executor@, capability@, path@, 0) == Some(
                i as int,
            ),
            None => covering_from(grants@, session@, executor@, capability@, path@, 0) is None,
        },
{
    let mut i: usize = 0;
    while i < grants.len()
        invariant
            i <= grants.len(),
            covering_from(grants@, session@, executor@, capability@, path@, 0) == covering_from(
                grants@,
                session@,
                executor@,
                capability@,
                path@,
                i as int,
            ),
        decreases grants.len() - i,
    {
        let g = &grants[i];
        if str_eq(g.workspace_session_id.as_str(), session) && str_eq(g.executor_id.as_str(), executor) && g.state
            == ReadGrantState::Approved && list_has(&g.capabilities, capability) && path_within(
            path,
            g.real_root.as_str(),
        ) {
            return Some(i);
        }
        i += 1;
    }
    None
}

fn add_grant(grants: &Vec<ReadGrant>, input: &mut Json, session: &str, executor: &str, capability: &str, key: &str)
    requires
        old(input)@.settable(),
    ensures
        final(input)@ == with_grant(grants@, old(input)@, session@, executor@, capability@, key@),
{
    proof {
        lemma_with(input@, "_workspaceSessionId"@, JsonView::Text(session@), key@);
    }
    input.set("_workspaceSessionId", Json::text(session));
    if let Some(path) = input.get_text(key) {
        if let Some(i) = find_covering(grants, session, executor, capability, path.as_str()) {
            input.set("_readGrantId", Json::text(grants[i].id.as_str()));
        }
    }
}

fn text_or(j: &Json, key: &str, default: &str) -> (r: String)
    ensures
        r@ == text_of(j@, key@, default@),
{
    match j.get_text(key) {
        Some(s) => s,
        None => default.to_owned(),
    }
}

fn start_env(input: &Json, session: &str, executor: &str, owner: &str) -> (r: Json)
    ensures
        r@ == agent_env(input@, session@, executor@, owner@),
{
    let role = text_or(input, "role", "agent");
    let agent = text_or(input, "agentId", owner);
    let mut env = match input.get("env") {
        Some(Json::Object(_)) => input.copy_or_null("env"),
        _ => Json::obj(),
    };
    let ghost e0 = env@;
    proof {
        assert(e0 is Object);
        lemma_with(e0, "WORKBENCH_WORKSPACE_SESSION_ID"@, JsonView::Text(session@), ""@);
    }
    env.set("WORKBENCH_WORKSPACE_SESSION_ID", Json::text(session));
    proof {
        lemma_with(env@, "WORKBENCH_NODE_ID"@, JsonView::Text(executor@), ""@);
    }
    env.set("WORKBENCH_NODE_ID", Json::text(executor));
    proof {
        lemma_with(env@, "WORKBENCH_AGENT_ROLE"@, JsonView::Text(role@), ""@);
    }
    env.set("WORKBENCH_AGENT_ROLE", Json::text(role.as_str()));
    proof {
        lemma_with(env@, "WORKBENCH_AGENT_ID"@, JsonView::Text(agent@), ""@);
    }
    env.set("WORKBENCH_AGENT_ID", Json::text(agent.as_str()));
    let summary = concat3(role.as_str(), " task in ", session);
    env.set("WORKBENCH_RUN_SUMMARY", Json::text(summary.as_str()));
    env
}

/// The input of an invocation as it is checked. That of a capability that reads or starts an agent
/// has to be an object or null.
pub fn prepare_input(grants: &Vec<ReadGrant>, subject: &Subject, params: &Json) -> (r: Json)
    requires
        adds_to_input(subject.name@) ==> given_input(params@).settable(),
    ensures
        r@ == prepared_input(grants@, subject@, given_input(params@)),
{
    let mut input = match params.get("input") {
        Some(v) => v.copy(),
        None => Json::obj(),
    };
    let name = subject.name.as_str();
    let session = subject.session.as_str();
    let executor = subject.executor_id.as_str();
    if str_eq(name, "filesystem.resolve") || str_eq(name, "filesystem.stat") || str_eq(name, "filesystem.read") || str_eq(
        name,
        "filesystem.list",
    ) || str_eq(name, "filesystem.search") {
        add_grant(grants, &mut input, session, executor, name, "path");
    } else if str_eq(name, "application.inspect") {
        add_grant(grants, &mut input, session, executor, "filesystem.read", "applicationPath");
    } else if str_eq(name, "application.materialize") {
        add_grant(grants, &mut input, session, executor, "filesystem.read", "baselinePath");
    } else if str_eq(name, "agent.start") {
        let env = start_env(&input, session, executor, subject.owner.as_str());
        input.set("env", env);
    }
    input
}

/// The error that the driver of a workspace is asked for.
pub open spec fn drains() -> RpcErrorView {
    rpc_error(
        "DRIVER_DRAINING"@,
        "workspace driver is draining for an automatic handoff; new mutations are disabled"@,
    )
}

/// The lease that authorizes an invocation, where its capability needs one; or why the invocation
/// is not authorized.
pub open spec fn authority_view(
    t: LeasesView,
    contract: CapabilityAuthority,
    s: SubjectView,
    input: JsonView,
    params: JsonView,
    now: u64,
) -> Result<Option<Lease>, RpcErrorView> {
    match contract {
        CapabilityAuthority::Nothing => Ok(None),
        CapabilityAuthority::WorkspaceDriver => match need(params, "driverToken"@) {
            Err(e) => Err(e),
            Ok(token) => match t.check("workspace:"@ + s.session, s.owner, token, now) {
                Err(e) => Err(lease_rpc(e)),
                Ok(l) => Ok(Some(l)),
            },
        },
        CapabilityAuthority::ResourceLease { resource } => {
            let template = authority_template(resource@, s.executor_id);
            match lock_view(template, input) {
                Err(e) => Err(e),
                Ok(name) => match need(params, "authorityLeaseToken"@) {
                    Err(e) => Err(e),
                    Ok(token) => match t.check(name, s.owner, token, now) {
                        Err(e) => Err(lease_rpc(e)),
                        Ok(l) => Ok(Some(l)),
                    },
                },
            }
        },
    }
}

/// The lease that authorizes an invocation, where its capability needs one.
pub fn required_authority(
    leases: &LeaseTable,
    contract: &CapabilityAuthority,
    subject: &Subject,
    input: &Json,
    params: &Json,
    now: u64,
) -> (r: Result<Option<Lease>, RpcError>)
    ensures
        match authority_view(leases@, *contract, subject@, input@, params@, now) {
            Ok(l) => r == Ok::<Option<Lease>, RpcError>(l),
            Err(e) => fails(r, e),
        },
{
    match contract {
        CapabilityAuthority::Nothing => Ok(None),
        CapabilityAuthority::WorkspaceDriver => {
            let token = match required_str(params, "driverToken") {
                Ok(s) => s,
                Err(e) => return Err(e),
            };
            let resource = concat2("workspace:", subject.session.as_str());
            match leases.validate(resource.as_str(), subject.owner.as_str(), token, now) {
                Ok(l) => Ok(Some(l.clone())),
                Err(e) => Err(map_lease_error(e)),
            }
        },
        CapabilityAuthority::ResourceLease { resource } => {
            let name = match render_capability_authority_resource(
                resource.as_str(),
                subject.executor_id.as_str(),
                input,
            ) {
                Ok(s) => s,
                Err(e) => return Err(e),
            };
            let token = match required_str(params, "authorityLeaseToken") {
                Ok(s) => s,
                Err(e) => return Err(e),
            };
            match leases.validate(name.as_str(), subject.owner.as_str(), token, now) {
                Ok(l) => Ok(Some(l.clone())),
                Err(e) => Err(map_lease_error(e)),
            }
        },
    }
}

/// An invocation that is authorized, with its input as it is checked against the schema.
#[derive(Debug)]
pub struct Invocation {
    pub subject: Subject,
    pub input: Json,
    pub authority: Option<Lease>,
    /// Whether the capability needs no authority.
    pub readonly: bool,
}

/// The input and the lease of an authorized invocation, or why it is refused.
pub open spec fn authorized(c: Controller, params: JsonView, now: u64) -> Result<
    (SubjectView, JsonView, Option<Lease>),
    RpcErrorView,
> {
    match subject_view(c.id@, c.state.sessions@, c.state.executors@, params) {
        Err(e) => Err(e),
        Ok(s) => {
            let contract = c.state.executors@[s.executor].capabilities@[s.capability].authority;
            let input = prepared_input(c.state.read_grants@, s, given_input(params));
            if held_back(c, s, now) {
                Err(drains())
            } else {
                match authority_view(c.leases@, contract, s, input, params, now) {
                    Err(e) => Err(e),
                    Ok(l) => Ok((s, input, l)),
                }
            }
        },
    }
}

/// Whether the driver of the workspace that an invocation concerns is asked for, so that nothing
/// new may change it.
pub open spec fn held_back(c: Controller, s: SubjectView, now: u64) -> bool {
    c.state.executors@[s.executor].capabilities@[s.capability].authority == CapabilityAuthority::WorkspaceDriver
        && draining(c.state.driver_handoff_requests@, s.session, s.owner, now)
}

/// Whether the input that a request gives is added to: where its capability reads, or starts an
/// agent that is not held back.
pub open spec fn input_grows(c: Controller, params: JsonView, now: u64) -> bool {
    match subject_view(c.id@, c.state.sessions@, c.state.executors@, params) {
        Err(_) => false,
        Ok(s) => read_path(s.name) is Some || (s.name == "agent.start"@ && !held_back(c, s, now)),
    }
}

/// Whether the input that a request gives can be added to where it is: it is an object or null.
pub fn can_prepare_input(c: &Controller, params: &Json, now: u64) -> (r: bool)
    ensures
        r == (input_grows(*c, params@, now) ==> given_input(params@).settable()),
{
    let subject = match invocation_subject(c.id.as_str(), &c.state.sessions, &c.state.executors, params) {
        Ok(s) => s,
        Err(_) => return true,
    };
    let name = subject.name.as_str();
    let reads = str_eq(name, "filesystem.resolve") || str_eq(name, "filesystem.stat") || str_eq(name, "filesystem.read")
        || str_eq(name, "filesystem.list") || str_eq(name, "filesystem.search") || str_eq(name, "application.inspect")
        || str_eq(name, "application.materialize");
    if !reads && (!str_eq(name, "agent.start") || is_held_back(c, &subject, now)) {
        return true;
    }
    match params.get("input") {
        Some(Json::Object(_)) => true,
        Some(Json::Null) => true,
        Some(_) => false,
        None => true,
    }
}

fn is_held_back(c: &Controller, subject: &Subject, now: u64) -> (r: bool)
    requires
        subject.executor < c.state.executors@.len(),
        subject.capability < c.state.executors@[subject.executor as int].capabilities@.len(),
    ensures
        r == held_back(*c, subject@, now),
{
    let driver = match &c.state.executors[subject.executor].capabilities[subject.capability].authority {
        CapabilityAuthority::WorkspaceDriver => true,
        _ => false,
    };
    driver && workspace_is_draining(
        &c.state.driver_handoff_requests,
        subject.session.as_str(),
        subject.owner.as_str(),
        now,
    )
}

/// Decides whether a request may invoke a capability, and with which input. An input that is added
/// to has to be an object or null.
pub fn authorize_invocation(c: &Controller, params: &Json, now: u64) -> (r: Result<Invocation, RpcError>)
    requires
        input_grows(*c, params@, now) ==> given_input(params@).settable(),
    ensures
        match authorized(*c, params@, now) {
            Err(e) => fails(r, e),
            Ok(a) => r matches Ok(x) && x.subject@ == a.0 && x.input@ == a.1 && x.authority == a.2 && x.readonly == (
            c.state.executors@[a.0.executor].capabilities@[a.0.capability].authority == CapabilityAuthority::Nothing)
                && x.subject.executor < c.state.executors@.len() && x.subject.capability
                < c.state.executors@[a.0.executor].capabilities@.len(),
        },
{
    let subject = match invocation_subject(c.id.as_str(), &c.state.sessions, &c.state.executors, params) {
        Ok(s) => s,
        Err(e) => return Err(e),
    };
    let contract = &c.state.executors[subject.executor].capabilities[subject.capability].authority;
    let readonly = match contract {
        CapabilityAuthority::Nothing => true,
        _ => false,
    };
    if is_held_back(c, &subject, now) {
        return Err(
            RpcError::new(
                "DRIVER_DRAINING",
                "workspace driver is draining for an automatic handoff; new mutations are disabled",
            ),
        );
    }
    let input = prepare_input(&c.state.read_grants, &subject, params);
    let authority = match required_authority(&c.leases, contract, &subject, &input, params, now) {
        Ok(l) => l,
        Err(e) => return Err(e),
    };
    Ok(Invocation { subject, input, authority, readonly })
}

/// Whether an invocation runs on its own, while the request is answered at once.
pub open spec fn runs_async(params: JsonView, kind: ExecutionKind) -> Result<bool, RpcErrorView> {
    let mode = text_of(params, "executionMode"@, "auto"@);
    if mode != "auto"@ && mode != "sync"@ && mode != "async"@ {
        Err(rpc_error("INVALID_PARAMS"@, "executionMode must be auto, sync, or async"@))
    } else {
        Ok(
            params.get_str("_resumeTaskId"@) is None && (mode == "async"@ || (mode == "auto"@ && kind
                == ExecutionKind::Background)),
        )
    }
}

/// Whether an invocation runs on its own, while the request is answered at once.
pub fn execution_mode(params: &Json, kind: ExecutionKind) -> (r: Result<bool, RpcError>)
    ensures
        match runs_async(params@, kind) {
            Ok(b) => r == Ok::<bool, RpcError>(b),
            Err(e) => fails(r, e),
        },
{
    let mode = text_or(params, "executionMode", "auto");
    let auto = str_eq(mode.as_str(), "auto");
    let sync = str_eq(mode.as_str(), "sync");
    let concurrent = str_eq(mode.as_str(), "async");
    if !auto && !sync && !concurrent {
        return Err(RpcError::new("INVALID_PARAMS", "executionMode must be auto, sync, or async"));
    }
    let resumes = params.get_str("_resumeTaskId").is_some();
    Ok(!resumes && (concurrent || (auto && kind == ExecutionKind::Background)))
}

/// The token with which the worker of a task takes it up.
#[derive(Debug)]
pub struct ResumeToken {
    pub task_id: String,
    pub token: String,
}

impl Keyed for ResumeToken {
    open spec fn key_view(&self) -> Seq<char> {
        self.task_id@
    }

    fn key(&self) -> (r: &str) {
        self.task_id.as_str()
    }
}

/// Whether a request has the token of the task that it takes up.
pub open spec fn holds_resume(tokens: Seq<ResumeToken>, params: JsonView) -> bool {
    match (params.get_str("_resumeTaskId"@), params.get_str("_resumeToken"@)) {
        (Some(task), Some(token)) => find_in(tokens, task) matches Some(t) && t.token@ == token,
        _ => false,
    }
}

/// Whether a request has the token of the task that it takes up; the token is then used up.
pub fn take_resume_token(tokens: &mut Vec<ResumeToken>, params: &Json) -> (r: bool)
    ensures
        r == holds_resume(old(tokens)@, params@),
        final(tokens)@ == (if r {
            without(old(tokens)@, params@.get_str("_resumeTaskId"@)->0)
        } else {
            old(tokens)@
        }),
{
    let task = match params.get_str("_resumeTaskId") {
        Some(t) => t,
        None => return false,
    };
    let token = match params.get_str("_resumeToken") {
        Some(t) => t,
        None => return false,
    };
    let fits = match lookup(tokens, task) {
        Some(t) => str_eq(t.token.as_str(), token),
        None => false,
    };
    if fits {
        remove_by(tokens, task);
    }
    fits
}

/// A resume token that was used up takes up no task again.
pub proof fn resume_token_is_used_once(tokens: Seq<ResumeToken>, params: JsonView)
    requires
        holds_resume(tokens, params),
    ensures
        !holds_resume(without(tokens, params.get_str("_resumeTaskId"@)->0), params),
{
    let task = params.get_str("_resumeTaskId"@)->0;
    crate::table::removed_record_is_gone(tokens, task, task);
    lemma_position_from(tokens, task, 0);
    lemma_position_from(without(tokens, task), task, 0);
}

/// A task that was submitted to run on its own.
#[derive(Debug)]
pub struct AsyncTask {
    pub task: Task,
    pub reused: bool,
    /// The parameters of the request with which its worker invokes the capability.
    pub worker: Json,
}

/// The parameters with which the worker of a task invokes its capability.
pub open spec fn worker_params(params: JsonView, task: Seq<char>, token: Seq<char>) -> JsonView {
    params.with("executionMode"@, JsonView::Text("sync"@)).with("_resumeTaskId"@, JsonView::Text(task)).with(
        "_resumeToken"@,
        JsonView::Text(token),
    )
}

/// Submits a task that runs on its own, unless too many do. The worker that runs it gets a token
/// with which it takes the task up.
pub fn submit_async(
    tasks: &mut TaskTable,
    tokens: &mut Vec<ResumeToken>,
    active: &mut usize,
    maximum: usize,
    invocation: &Invocation,
    params: &Json,
    correlation_id: Option<String>,
    request_id: Option<String>,
    now: u64,
    id: &str,
    token: &str,
) -> (r: Result<AsyncTask, RpcError>)
    requires
        old(tasks).wf(),
        position_of(old(tasks).tasks@, id@) is None,
        *old(active) < maximum ==> old(tasks).answers_key(
            scoped_view(
                invocation.subject@.session,
                invocation.subject@.executor_id,
                invocation.subject@.name,
                invocation.subject@.key,
            ),
        ),
        params@ is Object,
    ensures
        final(tasks).wf(),
        if *old(active) >= maximum {
            fails(
                r,
                retryable_error(
                    "TASK_QUEUE_FULL"@,
                    "controller async task limit "@ + decimal(maximum as nat) + " reached"@,
                ),
            ) && *final(tasks) == *old(tasks) && final(tokens)@ == old(tokens)@ && *final(active) == *old(active)
        } else {
            let s = invocation.subject@;
            let entry = find_in(old(tasks).index@, scoped_view(s.session, s.executor_id, s.name, s.key));
            &&& r matches Ok(a)
            &&& a.reused == (entry is Some)
            &&& a.reused ==> *final(tasks) == *old(tasks) && final(tokens)@ == old(tokens)@ && *final(active) == *old(
                active,
            ) && (find_in(old(tasks).tasks@, entry->0.id@) matches Some(t) && a.task@ == t@)
            &&& !a.reused ==> {
                &&& a.task@ == fresh_task(
                    id@,
                    s.session,
                    s.executor_id,
                    s.name,
                    invocation.input@,
                    s.key,
                    opt_text(correlation_id),
                    opt_text(request_id),
                    now,
                )
                &&& task_views(final(tasks).tasks@) == task_views(old(tasks).tasks@).insert(
                    slot(old(tasks).tasks@, id@),
                    a.task@,
                )
                &&& one_more_key(
                    final(tasks).index@,
                    old(tasks).index@,
                    scoped_view(s.session, s.executor_id, s.name, s.key),
                    id@,
                )
                &&& *final(active) == *old(active) + 1
                &&& a.worker@ == worker_params(params@, id@, token@)
                &&& exists|t: ResumeToken|
                    #![trigger upserted(old(tokens)@, t)]
                    t.task_id@ == id@ && t.token@ == token@ && final(tokens)@ == upserted(old(tokens)@, t)
            }
        },
{
    if *active >= maximum {
        let n = u64_text(maximum as u64);
        let m = concat3("controller async task limit ", n.as_str(), " reached");
        return Err(RpcError::transient("TASK_QUEUE_FULL", m.as_str()));
    }
    let s = &invocation.subject;
    let (task, reused) = tasks.submit_traced(
        s.session.as_str(),
        s.executor_id.as_str(),
        s.name.as_str(),
        invocation.input.copy(),
        s.key.as_str(),
        correlation_id,
        request_id,
        now,
        id,
    );
    if reused {
        return Ok(AsyncTask { task, reused, worker: Json::Null });
    }
    *active = *active + 1;
    let mut worker = params.copy();
    proof {
        lemma_with(worker@, "executionMode"@, JsonView::Text("sync"@), ""@);
    }
    worker.set("executionMode", Json::text("sync"));
    proof {
        lemma_with(worker@, "_resumeTaskId"@, JsonView::Text(id@), ""@);
    }
    worker.set("_resumeTaskId", Json::text(id));
    worker.set("_resumeToken", Json::text(token));
    let t = ResumeToken { task_id: id.to_owned(), token: token.to_owned() };
    upsert_by(tokens, t);
    Ok(AsyncTask { task, reused, worker })
}

/// Whether a capability runs a command.
pub open spec fn runs_command(name: Seq<char>) -> bool {
    name == "process.start"@ || name == "command.run"@ || name == "artifact.build"@ || name == "agent.start"@
}

/// Uses up the approval of a command that needs one, and notes the digest of the command in its
/// input.
pub fn approve_invocation(approvals: &mut Vec<Approval>, invocation: &mut Invocation, params: &Json, now: u64) -> (r: Result<
    (),
    RpcError,
>)
    ensures
        final(invocation).subject == old(invocation).subject,
        final(invocation).authority == old(invocation).authority,
        final(invocation).readonly == old(invocation).readonly,
        ({
            let input = old(invocation).input@;
            let same = final(approvals)@ == old(approvals)@ && final(invocation).input@ == input;
            if !runs_command(old(invocation).subject@.name) || !risky(input) {
                r is Ok && same
            } else {
                match (command_digest_view(input), need(params@, "approvalId"@)) {
                    (Err(e), _) => fails(r, e) && same,
                    (Ok(_), Err(e)) => fails(r, e) && same,
                    (Ok(digest), Ok(id)) => match position_of(old(approvals)@, id) {
                        None => fails(r, rpc_error("APPROVAL_NOT_FOUND"@, "approval not found"@)) && same,
                        Some(i) => if crate::approval::authorizes(
                            old(approvals)@[i],
                            digest,
                            old(invocation).subject@.owner,
                            now,
                        ) {
                            &&& r is Ok
                            &&& final(approvals)@ == old(approvals)@.update(
                                i,
                                (Approval {
                                    state: ApprovalState::Consumed,
                                    consumed_at: Some(now),
                                    ..old(approvals)@[i]
                                }),
                            )
                            &&& final(invocation).input@ == input.with("approvalDigest"@, JsonView::Text(digest))
                        } else {
                            fails(r, crate::approval::not_authorized()) && same
                        },
                    },
                }
            }
        }),
{
    let name = invocation.subject.name.as_str();
    let runs = str_eq(name, "process.start") || str_eq(name, "command.run") || str_eq(name, "artifact.build") || str_eq(
        name,
        "agent.start",
    );
    if !runs || !command_requires_approval(&invocation.input) {
        return Ok(());
    }
    let digest = match command_digest(&invocation.input) {
        Ok(d) => d,
        Err(e) => return Err(e),
    };
    let id = match required_str(params, "approvalId") {
        Ok(s) => s,
        Err(e) => return Err(e),
    };
    match consume(approvals, id, digest.as_str(), invocation.subject.owner.as_str(), now) {
        Ok(()) => {},
        Err(e) => return Err(e),
    }
    invocation.input.set("approvalDigest", Json::text(digest.as_str()));
    Ok(())
}

/// What is done with a task that was submitted before.
#[derive(Debug)]
pub enum Reuse {
    /// It succeeded: its output is the answer.
    Finished,
    /// It is tried once more.
    Retry,
    /// Its worker takes it up.
    Run,
    /// It is under way.
    InProgress,
    /// It may not be tried again.
    Exhausted,
}

/// What is done with a task that was submitted before.
pub open spec fn reuse(state: TaskState, attempt: u32, most: u32, resumed: bool) -> Reuse {
    if state == TaskState::Succeeded {
        Reuse::Finished
    } else if (state == TaskState::Failed || state == TaskState::TimedOut || state == TaskState::OutcomeUnknown) && attempt
        < most {
        Reuse::Retry
    } else if state == TaskState::Queued && resumed {
        Reuse::Run
    } else if state == TaskState::Queued || state == TaskState::Running {
        Reuse::InProgress
    } else {
        Reuse::Exhausted
    }
}

fn decide_reuse(state: TaskState, attempt: u32, most: u32, resumed: bool) -> (r: Reuse)
    ensures
        r == reuse(state, attempt, most, resumed),
{
    match state {
        TaskState::Succeeded => Reuse::Finished,
        TaskState::Failed | TaskState::TimedOut | TaskState::OutcomeUnknown => if attempt < most {
            Reuse::Retry
        } else {
            Reuse::Exhausted
        },
        TaskState::Queued => if resumed {
            Reuse::Run
        } else {
            Reuse::InProgress
        },
        TaskState::Running => Reuse::InProgress,
        _ => Reuse::Exhausted,
    }
}

/// A task that an invocation begins.
#[derive(Debug)]
pub enum Begun {
    /// It succeeded before.
    Finished(Task),
    /// It runs.
    Running(Task),
}

/// Whether a task runs after it was queued.
pub open spec fn started(t: TaskView, now: u64) -> TaskView {
    t.moved(TaskState::Running, None, None, now)
}

/// What beginning the task of an invocation gives.
pub open spec fn begins_task(
    r: Result<Begun, RpcError>,
    after: TaskTable,
    before: TaskTable,
    s: SubjectView,
    input: JsonView,
    correlation: Option<Seq<char>>,
    request: Option<Seq<char>>,
    most: u32,
    resumed: Option<Seq<char>>,
    now: u64,
    id: Seq<char>,
) -> bool {
    match find_in(before.index@, scoped_view(s.session, s.executor_id, s.name, s.key)) {
        None => {
            let t = started(
                fresh_task(id, s.session, s.executor_id, s.name, input, s.key, correlation, request, now),
                now,
            );
            (r matches Ok(Begun::Running(x)) && x@ == t) && task_views(after.tasks@) == task_views(
                before.tasks@,
            ).insert(slot(before.tasks@, id), t) && one_more_key(
                after.index@,
                before.index@,
                scoped_view(s.session, s.executor_id, s.name, s.key),
                id,
            )
        },
        Some(entry) => match position_of(before.tasks@, entry.id@) {
            None => false,
            Some(i) => {
                let t = before.tasks@[i]@;
                match reuse(t.state, t.attempt, most, resumed == Some(t.id)) {
                    Reuse::Finished => (r matches Ok(Begun::Finished(x)) && x@ == t) && after == before,
                    Reuse::Retry => (r matches Ok(Begun::Running(x)) && x@ == started(t.requeued(now), now))
                        && task_views(after.tasks@) == task_views(before.tasks@).update(
                        i,
                        started(t.requeued(now), now),
                    ) && after.index@ == before.index@,
                    Reuse::Run => (r matches Ok(Begun::Running(x)) && x@ == started(t, now)) && task_views(after.tasks@)
                        == task_views(before.tasks@).update(i, started(t, now)) && after.index@ == before.index@,
                    Reuse::InProgress => fails(
                        r,
                        rpc_error("TASK_IN_PROGRESS"@, "task "@ + t.id + " is already in progress"@),
                    ) && after == before,
                    Reuse::Exhausted => fails(
                        r,
                        rpc_error("TASK_RETRY_EXHAUSTED"@, "task "@ + t.id + " exhausted retry policy"@),
                    ) && after == before,
                }
            },
        },
    }
}

proof fn lemma_slot_position(tasks: Seq<Task>, i: int, id: Seq<char>)
    requires
        crate::table::unique(tasks),
        0 <= i < tasks.len(),
        task_views(tasks)[i].id == id,
    ensures
        position_of(tasks, id) == Some(i),
{
    assert(task_views(tasks)[i] == tasks[i]@);
    lemma_position_unique(tasks, i);
}

/// Submits the task of an invocation, or takes up the one that was submitted before, and sets it
/// running. One that succeeded before is not run again; one that failed is, as often as its
/// capability allows.
pub fn begin_task(
    tasks: &mut TaskTable,
    invocation: &Invocation,
    max_attempts: u32,
    resumed: &Option<String>,
    correlation_id: Option<String>,
    request_id: Option<String>,
    now: u64,
    id: &str,
) -> (r: Result<Begun, RpcError>)
    requires
        old(tasks).wf(),
        position_of(old(tasks).tasks@, id@) is None,
        old(tasks).answers_key(
            scoped_view(
                invocation.subject@.session,
                invocation.subject@.executor_id,
                invocation.subject@.name,
                invocation.subject@.key,
            ),
        ),
    ensures
        final(tasks).wf(),
        begins_task(
            r,
            *final(tasks),
            *old(tasks),
            invocation.subject@,
            invocation.input@,
            opt_text(correlation_id),
            opt_text(request_id),
            max_attempts,
            opt_text(*resumed),
            now,
            id@,
        ),
{
    let ghost start = *tasks;
    let s = &invocation.subject;
    let (task, reused) = tasks.submit_traced(
        s.session.as_str(),
        s.executor_id.as_str(),
        s.name.as_str(),
        invocation.input.copy(),
        s.key.as_str(),
        correlation_id,
        request_id,
        now,
        id,
    );
    let ghost t = task@;
    let ghost mid = *tasks;
    if reused {
        proof {
            let entry = find_in(start.index@, scoped_view(s.session@, s.executor_id@, s.name@, s.key@))->0;
            lemma_position_from(start.tasks@, entry.id@, 0);
            assert(t.id == entry.id@);
        }
        let same = match resumed {
            Some(x) => str_eq(x.as_str(), task.id.as_str()),
            None => false,
        };
        match decide_reuse(task.state, task.attempt, max_attempts, same) {
            Reuse::Finished => return Ok(Begun::Finished(task)),
            Reuse::Retry => {
                match tasks.retry(task.id.as_str(), now) {
                    Ok(_) => {},
                    Err(e) => {
                        let m = e.message();
                        return Err(RpcError::new("INVALID_TASK_STATE", m.as_str()));
                    },
                }
            },
            Reuse::Run => {},
            Reuse::InProgress => {
                let m = concat3("task ", task.id.as_str(), " is already in progress");
                return Err(RpcError::new("TASK_IN_PROGRESS", m.as_str()));
            },
            Reuse::Exhausted => {
                let m = concat3("task ", task.id.as_str(), " exhausted retry policy");
                return Err(RpcError::new("TASK_RETRY_EXHAUSTED", m.as_str()));
            },
        }
    }
    let ghost queued = *tasks;
    proof {
        crate::task::ordered_is_unique(queued.tasks@);
        if reused {
            let i = position_of(start.tasks@, t.id)->0;
            assert(task_views(queued.tasks@)[i].id == t.id);
            assert(task_views(queued.tasks@).len() == queued.tasks@.len());
            lemma_slot_position(queued.tasks@, i, t.id);
            assert(task_views(queued.tasks@)[i] == queued.tasks@[i]@);
        } else {
            let i = slot(start.tasks@, id@);
            lemma_slot_bounds(start.tasks@, id@, 0);
            assert(task_views(queued.tasks@)[i] == t);
            assert(task_views(queued.tasks@).len() == queued.tasks@.len());
            lemma_slot_position(queued.tasks@, i, t.id);
            assert(task_views(queued.tasks@)[i] == queued.tasks@[i]@);
        }
    }
    match tasks.transition(task.id.as_str(), TaskState::Running, None, None, now) {
        Ok(task) => {
            proof {
                if reused {
                    let i = position_of(start.tasks@, t.id)->0;
                    assert(task_views(tasks.tasks@) =~= task_views(start.tasks@).update(i, task@));
                } else {
                    let i = slot(start.tasks@, id@);
                    assert(task_views(tasks.tasks@) =~= task_views(start.tasks@).insert(i, task@));
                }
            }
            Ok(Begun::Running(task))
        },
        Err(e) => {
            let m = e.message();
            Err(RpcError::new("INVALID_TASK_STATE", m.as_str()))
        },
    }
}

proof fn lemma_slot_bounds(tasks: Seq<Task>, id: Seq<char>, from: int)
    requires
        0 <= from <= tasks.len(),
    ensures
        from <= crate::task::slot_from(tasks, id, from) <= tasks.len(),
    decreases tasks.len() - from,
{
    if from < tasks.len() {
        lemma_slot_bounds(tasks, id, from + 1);
    }
}

/// What beginning a task that was submitted before comes to, by the state that the task is in. Only
/// a task that succeeded is answered as it stands. One that failed, timed out or has an unknown
/// outcome runs again, as the next attempt, while attempts are left. One that is queued runs for
/// the caller that resumes it. Every other one is refused, and nothing changes.
pub proof fn begun_task_goes_by_its_state(
    r: Result<Begun, RpcError>,
    after: TaskTable,
    before: TaskTable,
    s: SubjectView,
    input: JsonView,
    correlation: Option<Seq<char>>,
    request: Option<Seq<char>>,
    most: u32,
    resumed: Option<Seq<char>>,
    now: u64,
    id: Seq<char>,
    i: int,
)
    requires
        begins_task(r, after, before, s, input, correlation, request, most, resumed, now, id),
        find_in(before.index@, scoped_view(s.session, s.executor_id, s.name, s.key)) matches Some(entry)
            && position_of(before.tasks@, entry.id@) == Some(i),
        0 <= i < before.tasks@.len(),
    ensures
        r matches Ok(Begun::Finished(x)) ==> x@.state == TaskState::Succeeded && x@ == before.tasks@[i]@ && after
            == before,
        r matches Ok(Begun::Running(x)) ==> {
            &&& x@.state == TaskState::Running
            &&& x@.id == before.tasks@[i]@.id
            &&& x@.input == before.tasks@[i]@.input
            &&& before.tasks@[i]@.attempt < u32::MAX ==> x@.attempt == before.tasks@[i]@.attempt + 1
            &&& task_views(after.tasks@) == task_views(before.tasks@).update(i, x@)
            &&& after.index@ == before.index@
        },
        r is Err ==> after == before,
        match before.tasks@[i]@.state {
            TaskState::Succeeded => r matches Ok(Begun::Finished(_)),
            TaskState::Failed | TaskState::TimedOut | TaskState::OutcomeUnknown => if before.tasks@[i]@.attempt < most {
                r matches Ok(Begun::Running(_))
            } else {
                r matches Err(e) && e@.code == "TASK_RETRY_EXHAUSTED"@
            },
            TaskState::Queued => if resumed == Some(before.tasks@[i]@.id) {
                r matches Ok(Begun::Running(_))
            } else {
                r matches Err(e) && e@.code == "TASK_IN_PROGRESS"@
            },
            TaskState::Running => r matches Err(e) && e@.code == "TASK_IN_PROGRESS"@,
            TaskState::CancelRequested
            | TaskState::Cancelling
            | TaskState::Cancelled
            | TaskState::FailedToCancel => r matches Err(e) && e@.code == "TASK_RETRY_EXHAUSTED"@,
        },
{
}

/// An invocation whose key was not seen before runs at once, as the first attempt, with what it
/// asked for.
pub proof fn new_task_runs_at_once(
    r: Result<Begun, RpcError>,
    after: TaskTable,
    before: TaskTable,
    s: SubjectView,
    input: JsonView,
    correlation: Option<Seq<char>>,
    request: Option<Seq<char>>,
    most: u32,
    resumed: Option<Seq<char>>,
    now: u64,
    id: Seq<char>,
)
    requires
        begins_task(r, after, before, s, input, correlation, request, most, resumed, now, id),
        find_in(before.index@, scoped_view(s.session, s.executor_id, s.name, s.key)) is None,
    ensures
        r matches Ok(Begun::Running(x)) && {
            &&& x@.state == TaskState::Running
            &&& x@.attempt == 1
            &&& x@.id == id
            &&& x@.workspace_session_id == s.session
            &&& x@.executor_id == s.executor_id
            &&& x@.capability == s.name
            &&& x@.idempotency_key == s.key
            &&& x@.input == input
            &&& x@.output is None
            &&& x@.created_at == now
        },
{
}

/// An invocation that is let through is one of a session that this controller governs, of a
/// capability of a registered executor. Where the capability asks for the driver of the workspace,
/// the caller holds it, with its token and before its end, and nobody waits for the caller to give
/// it up; where it asks for a resource, the caller holds that resource in the same way.
pub proof fn invocation_needs_its_authority(c: Controller, params: JsonView, now: u64)
    requires
        authorized(c, params, now) is Ok,
    ensures
        ({
            let (s, input, lease) = authorized(c, params, now)->Ok_0;
            let contract = c.state.executors@[s.executor].capabilities@[s.capability].authority;
            &&& need(params, "workspaceSessionId"@) == Ok::<Seq<char>, RpcErrorView>(s.session)
            &&& need(params, "owner"@) == Ok::<Seq<char>, RpcErrorView>(s.owner)
            &&& need(params, "executorId"@) == Ok::<Seq<char>, RpcErrorView>(s.executor_id)
            &&& need(params, "capability"@) == Ok::<Seq<char>, RpcErrorView>(s.name)
            &&& need(params, "idempotencyKey"@) == Ok::<Seq<char>, RpcErrorView>(s.key)
            &&& find_in(c.state.sessions@, s.session) matches Some(w) && (w.authority matches Some(a) && a.controller_id@
                == c.id@ && a.epoch == s.epoch)
            &&& position_of(c.state.executors@, s.executor_id) == Some(s.executor)
            &&& match contract {
                CapabilityAuthority::Nothing => lease is None,
                CapabilityAuthority::WorkspaceDriver => {
                    &&& lease matches Some(l) && c.leases@.held("workspace:"@ + s.session) == Some(l) && l.owner@ == s.owner
                        && now < l.expires_at && need(params, "driverToken"@) == Ok::<Seq<char>, RpcErrorView>(l.token@)
                    &&& forall|k: int|
                        0 <= k < c.state.driver_handoff_requests@.len() && (
                        #[trigger] c.state.driver_handoff_requests@[k]).workspace_session_id@ == s.session && opt_text(
                            c.state.driver_handoff_requests@[k].previous_owner,
                        ) == Some(s.owner) && now < c.state.driver_handoff_requests@[k].expires_at ==> (
                        c.state.driver_handoff_requests@[k].state == DriverHandoffState::Completed
                            || c.state.driver_handoff_requests@[k].state == DriverHandoffState::Cancelled
                            || c.state.driver_handoff_requests@[k].state == DriverHandoffState::Expired)
                },
                CapabilityAuthority::ResourceLease { .. } => lease matches Some(l) && (exists|name: Seq<char>|
                    #[trigger] c.leases@.held(name) == Some(l)) && l.owner@ == s.owner && now < l.expires_at && need(
                    params,
                    "authorityLeaseToken"@,
                ) == Ok::<Seq<char>, RpcErrorView>(l.token@),
            }
        }),
{
    let (s, input, lease) = authorized(c, params, now)->Ok_0;
    let contract = c.state.executors@[s.executor].capabilities@[s.capability].authority;
    lemma_position_from(c.state.sessions@, s.session, 0);
    if contract == CapabilityAuthority::WorkspaceDriver {
        let requests = c.state.driver_handoff_requests@;
        assert(!draining(requests, s.session, s.owner, now));
        assert forall|k: int|
            0 <= k < requests.len() && (#[trigger] requests[k]).workspace_session_id@ == s.session && opt_text(
                requests[k].previous_owner,
            ) == Some(s.owner) && now < requests[k].expires_at implies (requests[k].state
            == DriverHandoffState::Completed || requests[k].state == DriverHandoffState::Cancelled || requests[k].state
            == DriverHandoffState::Expired) by {
            assert(!crate::driver::stops(requests[k], s.session, s.owner, now));
        }
    }
}

/// A grant to read is named to an executor only where it was approved for this session, executor
/// and capability, and where the path lies in the directory that it was given for.
pub proof fn grant_is_named_only_where_it_covers(
    grants: Seq<ReadGrant>,
    session: Seq<char>,
    executor: Seq<char>,
    capability: Seq<char>,
    path: Seq<char>,
    from: int,
)
    requires
        0 <= from <= grants.len(),
    ensures
        match covering_from(grants, session, executor, capability, path, from) {
            Some(i) => {
                &&& from <= i < grants.len()
                &&& grants[i].state == ReadGrantState::Approved
                &&& grants[i].workspace_session_id@ == session
                &&& grants[i].executor_id@ == executor
                &&& views(grants[i].capabilities@).contains(capability)
                &&& within(path, grants[i].real_root@)
            },
            None => forall|k: int|
                from <= k < grants.len() && (#[trigger] grants[k]).state == ReadGrantState::Approved
                    && grants[k].workspace_session_id@ == session && grants[k].executor_id@ == executor && views(
                    grants[k].capabilities@,
                ).contains(capability) ==> !within(path, grants[k].real_root@),
        },
    decreases grants.len() - from,
{
    if from < grants.len() && !covers(grants[from], session, executor, capability, path) {
        grant_is_named_only_where_it_covers(grants, session, executor, capability, path, from + 1);
    }
}

/// A request says how it runs: in the background where it asks for that, or where it leaves it open
/// and the capability runs there; never where it resumes a task.
pub proof fn request_says_how_it_runs(params: JsonView, kind: ExecutionKind)
    ensures
        params.get_str("executionMode"@) is None && params.get_str("_resumeTaskId"@) is None ==> runs_async(params, kind)
            == Ok::<bool, RpcErrorView>(kind == ExecutionKind::Background),
        params.get_str("executionMode"@) == Some("async"@) && params.get_str("_resumeTaskId"@) is None ==> runs_async(
            params,
            kind,
        ) == Ok::<bool, RpcErrorView>(true),
        params.get_str("executionMode"@) == Some("sync"@) ==> runs_async(params, kind) == Ok::<bool, RpcErrorView>(false),
        params.get_str("_resumeTaskId"@) is Some ==> runs_async(params, kind) != Ok::<bool, RpcErrorView>(true),
        (params.get_str("executionMode"@) matches Some(m) && m != "auto"@ && m != "sync"@ && m != "async"@) ==> runs_async(
            params,
            kind,
        ) is Err,
{
    reveal_strlit("auto");
    reveal_strlit("sync");
    reveal_strlit("async");
    assert("auto"@[0] != "sync"@[0] && "async"@.len() == 5 && "sync"@.len() == 4 && "auto"@.len() == 4);
}

/// A task in the background is resumed only by the token that was given out for it.
pub proof fn task_is_resumed_by_its_own_token(tokens: Seq<ResumeToken>, params: JsonView)
    requires
        holds_resume(tokens, params),
    ensures
        exists|i: int|
            0 <= i < tokens.len() && Some((#[trigger] tokens[i]).token@) == params.get_str("_resumeToken"@) && Some(
                tokens[i].task_id@,
            ) == params.get_str("_resumeTaskId"@),
{
    lemma_position_from(tokens, params.get_str("_resumeTaskId"@)->0, 0);
    let i = position_of(tokens, params.get_str("_resumeTaskId"@)->0)->0;
    assert(tokens[i].key_view() == params.get_str("_resumeTaskId"@)->0);
}

} // verus!
