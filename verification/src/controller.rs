//! A controller: how it is opened from its stored records, the peers and executors that it knows,
//! and the records that it keeps for others.

use crate::evidence::{compact_persisted_evidence, state_compacted, state_stale};
use crate::generation::{generation_transition_allowed, may_become};
use crate::json::{Json, JsonView};
use crate::lease::{
    expired, greater, last_lease, lease_rpc, live, map_lease_error, reaping_takes_only_ended_leases, top_fence, top_lease,
    unexpired, Fence, LeaseTable, LeasesView,
};
use crate::redact::redact_task;
use crate::rpc::{
    controller_result, controller_result_view, executor_result, executor_result_view, fails, need, required_str, rpc_error,
    unknown, unknown_error, Called, RpcError, RpcErrorView,
};
use crate::schema::{
    fresh_metadata, AgentInstance, AgentState, CapabilityDescriptor, ControllerPeer, Executor, ExecutorEndpoint,
    Generation, GenerationState, HealthStatus, Lease, SessionAuthority, Task, TaskState, WorkspaceSession, API_VERSION,
};
use crate::session::{governed, merge_records, records_after, records_merged, SessionRecords};
use crate::state::{Controller, WorkbenchState};
use crate::table::{lemma_position_from, position, position_of, remove_by, upsert_by, upserted, without, Keyed};
use crate::task::{key_id, key_owner, load_from, opt_text, recovered_views, task_views, TaskTable, TaskView};
use crate::text::{concat4, concat5, opt_eq, parse_u64, parse_u64_view, str_eq};
use vstd::prelude::*;

verus! {

/// The error that the stored records belong to another controller than the one configured.
#[derive(Debug, PartialEq, Eq)]
pub struct IdentityMismatch {
    pub stored: String,
    pub configured: String,
}

/// The identity of a controller: the configured one, else the stored one, else a new one.
pub open spec fn identity(stored: Option<Seq<char>>, configured: Option<Seq<char>>, fresh: Seq<char>) -> Seq<char> {
    match configured {
        Some(c) => c,
        None => match stored {
            Some(s) => s,
            None => fresh,
        },
    }
}

/// A session that belongs to a controller, where it belonged to none.
pub open spec fn session_identified(after: WorkspaceSession, before: WorkspaceSession, id: Seq<char>) -> bool {
    if before.authority is None {
        governed(after, before, (id, 1, None))
    } else {
        after == before
    }
}

/// Whether the stored records are others that were given the identity of a controller.
pub open spec fn identified(after: WorkbenchState, before: WorkbenchState, id: Seq<char>) -> bool {
    &&& opt_text(after.controller_id) == Some(id)
    &&& after.sessions@.len() == before.sessions@.len()
    &&& forall|i: int|
        0 <= i < before.sessions@.len() ==> session_identified(#[trigger] after.sessions@[i], before.sessions@[i], id)
    &&& after == (WorkbenchState { controller_id: after.controller_id, sessions: after.sessions, ..before })
}

/// Whether giving the records an identity changes them.
pub open spec fn unidentified(s: WorkbenchState, id: Seq<char>) -> bool {
    opt_text(s.controller_id) != Some(id) || exists|i: int|
        0 <= i < s.sessions@.len() && (#[trigger] s.sessions@[i]).authority is None
}

fn identify(state: &mut WorkbenchState, id: &str) -> (r: bool)
    ensures
        identified(*final(state), *old(state), id@),
        r == unidentified(*old(state), id@),
{
    let ghost start = *state;
    let mut changed = !opt_eq(&state.controller_id, id);
    let ghost renamed = changed;
    state.controller_id = Some(id.to_owned());
    let mut i: usize = 0;
    while i < state.sessions.len()
        invariant
            i <= state.sessions.len(),
            state.sessions@.len() == start.sessions@.len(),
            opt_text(state.controller_id) == Some(id@),
            *state == (WorkbenchState { controller_id: state.controller_id, sessions: state.sessions, ..start }),
            forall|k: int|
                0 <= k < i ==> session_identified(#[trigger] state.sessions@[k], start.sessions@[k], id@),
            forall|k: int| i <= k < start.sessions@.len() ==> #[trigger] state.sessions@[k] == start.sessions@[k],
            changed == (renamed || exists|k: int| 0 <= k < i && (#[trigger] start.sessions@[k]).authority is None),
        decreases state.sessions.len() - i,
    {
        if state.sessions[i].authority.is_none() {
            assert(start.sessions@[i as int].authority is None);
            state.sessions[i].authority =
            Some(SessionAuthority { controller_id: id.to_owned(), epoch: 1, pending_controller_id: None });
            changed = true;
        }
        i += 1;
    }
    changed
}

fn copy_leases(leases: &Vec<Lease>) -> (r: Vec<Lease>)
    ensures
        r@ == leases@,
{
    let mut r: Vec<Lease> = Vec::new();
    let mut i: usize = 0;
    while i < leases.len()
        invariant
            i <= leases.len(),
            r@ == leases@.take(i as int),
        decreases leases.len() - i,
    {
        r.push(leases[i].clone());
        i += 1;
        assert(leases@.take(i as int) =~= leases@.take(i - 1).push(leases@[i - 1]));
    }
    assert(leases@.take(leases@.len() as int) =~= leases@);
    r
}

/// Whether two lists of fences say the same.
pub open spec fn same_fences(a: Seq<Fence>, b: Seq<Fence>) -> bool {
    a.len() == b.len() && forall|i: int|
        0 <= i < a.len() ==> (#[trigger] a[i]).resource@ == b[i].resource@ && a[i].fence == b[i].fence
}

fn copy_fences(fences: &Vec<Fence>) -> (r: Vec<Fence>)
    ensures
        same_fences(r@, fences@),
        r@ == fences@,
{
    let mut r: Vec<Fence> = Vec::new();
    let mut i: usize = 0;
    while i < fences.len()
        invariant
            i <= fences.len(),
            r@ == fences@.take(i as int),
        decreases fences.len() - i,
    {
        r.push(Fence { resource: fences[i].resource.clone(), fence: fences[i].fence });
        i += 1;
        assert(fences@.take(i as int) =~= fences@.take(i - 1).push(fences@[i - 1]));
    }
    assert(fences@.take(fences@.len() as int) =~= fences@);
    r
}

fn copy_tasks(tasks: &Vec<Task>) -> (r: Vec<Task>)
    ensures
        task_views(r@) == task_views(tasks@),
{
    let mut r: Vec<Task> = Vec::new();
    let mut i: usize = 0;
    while i < tasks.len()
        invariant
            i <= tasks.len(),
            r@.len() == i,
            forall|k: int| 0 <= k < i ==> (#[trigger] r@[k])@ == tasks@[k]@,
        decreases tasks.len() - i,
    {
        r.push(tasks[i].clone());
        i += 1;
    }
    assert(task_views(r@) =~= task_views(tasks@));
    r
}

/// Whether the stored leases and tasks are those of the tables, the tasks without what is secret
/// or too large to store.
pub open spec fn stored(c: Controller) -> bool {
    &&& c.state.leases@ == c.leases@.leases
    &&& c.state.lease_fences@ == c.leases@.fences
    &&& task_views(c.state.tasks@) == task_views(c.tasks.tasks@).map_values(|t: TaskView| redact_task(t))
}

/// Whether a controller was opened from records that have its identity and are compacted.
pub open spec fn opened(c: Controller, save: bool, changed: bool, kept: WorkbenchState, now: u64) -> bool {
    let table = LeasesView { leases: kept.leases@, fences: kept.lease_fences@ };
    let loaded = task_views(load_from(kept.tasks@, 0));
    let recovered = recovered_views(loaded, now);
    &&& c.wf()
    &&& table.wf() ==> c.leases@ == (LeasesView { leases: unexpired(table.leases, now), ..table })
    &&& forall|resource: Seq<char>|
        #[trigger] c.leases@.held(resource) == live(last_lease(kept.leases@, resource), now)
    &&& forall|resource: Seq<char>|
        #[trigger] c.leases@.fence_of(resource) == greater(
            top_fence(kept.lease_fences@, resource),
            top_lease(kept.leases@, resource),
        )
    &&& task_views(c.tasks.tasks@) == loaded.map_values(|t: TaskView| t.orphaned(now))
    &&& forall|key: Seq<char>| #[trigger] key_id(c.tasks.index@, key) == key_owner(kept.tasks@, 0, key)
    &&& forall|key: Seq<char>| #[trigger] c.tasks.answers_key(key)
    &&& table.wf() ==> save == (changed || expired(table.leases, now).len() > 0 || recovered.len() > 0)
    &&& changed || recovered.len() > 0 ==> save
    &&& save ==> stored(c)
    &&& !save ==> c.state.leases@ == kept.leases@ && c.state.lease_fences@ == kept.lease_fences@ && task_views(
        c.state.tasks@,
    ) == task_views(kept.tasks@)
    &&& c.state == (WorkbenchState {
        leases: c.state.leases,
        lease_fences: c.state.lease_fences,
        tasks: c.state.tasks,
        ..kept
    })
}

impl Controller {
    /// Makes the stored leases and tasks those of the tables.
    pub fn store_tables(&mut self)
        ensures
            stored(*final(self)),
            final(self).id == old(self).id,
            final(self).leases == old(self).leases,
            final(self).tasks == old(self).tasks,
            final(self).state == (WorkbenchState {
                leases: final(self).state.leases,
                lease_fences: final(self).state.lease_fences,
                tasks: final(self).state.tasks,
                ..old(self).state
            }),
    {
        self.state.leases = copy_leases(&self.leases.leases);
        self.state.lease_fences = copy_fences(&self.leases.fences);
        self.state.tasks = self.tasks.persistence_snapshot();
    }

    /// Takes the records over that came along with a session, list by list up to the first that
    /// cannot be read; where all can be, the tasks are those of the records from then on.
    pub fn accept_records(&mut self, given: SessionRecords) -> (r: Result<(), RpcError>)
        ensures
            final(self).id == old(self).id,
            final(self).leases == old(self).leases,
            match given.trouble() {
                Some(e) => fails(r, e) && records_merged(final(self).state, old(self).state, given) && final(self).tasks
                    == old(self).tasks,
                None => {
                    let all = records_after(old(self).state.tasks@, given.tasks, true);
                    &&& r is Ok
                    &&& task_views(final(self).state.tasks@) == task_views(all)
                    &&& exists|mid: WorkbenchState|
                        #![trigger records_merged(mid, old(self).state, given)]
                        records_merged(mid, old(self).state, given) && final(self).state == (WorkbenchState {
                            tasks: final(self).state.tasks,
                            ..mid
                        })
                    &&& final(self).tasks.wf()
                    &&& final(self).tasks.tasks@ == load_from(all, 0)
                    &&& forall|key: Seq<char>|
                        #[trigger] key_id(final(self).tasks.index@, key) == key_owner(all, 0, key)
                },
            },
    {
        match merge_records(&mut self.state, given) {
            Ok(()) => {},
            Err(e) => return Err(e),
        }
        let ghost mid = self.state;
        let mut loaded = copy_tasks(&self.state.tasks);
        std::mem::swap(&mut loaded, &mut self.state.tasks);
        self.tasks = TaskTable::from_tasks(loaded);
        assert(records_merged(mid, old(self).state, given));
        Ok(())
    }

    /// Opens a controller from its stored records: it takes its identity, compacts the records,
    /// drops the leases that have ended and settles the tasks that were under way. The second part
    /// of the result says whether the records have to be stored again.
    pub fn open_with_id(state: WorkbenchState, configured_id: Option<String>, now: u64, fresh_id: &str) -> (r: Result<
        (Controller, bool),
        IdentityMismatch,
    >)
        ensures
            ({
                let mine = opt_text(state.controller_id);
                let configured = opt_text(configured_id);
                if mine is Some && configured is Some && mine != configured {
                    r matches Err(e) && Some(e.stored@) == mine && Some(e.configured@) == configured
                } else {
                    let id = identity(mine, configured, fresh_id@);
                    &&& r matches Ok(p)
                    &&& p.0.id@ == id
                    &&& exists|mid: WorkbenchState, kept: WorkbenchState|
                        #![trigger state_compacted(kept, mid)]
                        identified(mid, state, id) && state_compacted(kept, mid) && opened(
                            p.0,
                            p.1,
                            unidentified(state, id) || state_stale(mid),
                            kept,
                            now,
                        )
                }
            }),
    {
        let ghost given = state;
        let mut state = state;
        if let Some(stored_id) = &state.controller_id {
            if let Some(configured) = &configured_id {
                if !str_eq(stored_id.as_str(), configured.as_str()) {
                    return Err(IdentityMismatch { stored: stored_id.clone(), configured: configured.clone() });
                }
            }
        }
        let id = match configured_id {
            Some(c) => c,
            None => match &state.controller_id {
                Some(s) => s.clone(),
                None => fresh_id.to_owned(),
            },
        };
        let renamed = identify(&mut state, id.as_str());
        let ghost mid = state;
        let compacted = compact_persisted_evidence(&mut state);
        let ghost kept = state;
        let copy = copy_leases(&state.leases);
        let fences = copy_fences(&state.lease_fences);
        let mut leases = LeaseTable::from_snapshot(copy, fences);
        let ghost first = leases@;
        let reaped = leases.reap_expired(now);
        proof {
            assert forall|resource: Seq<char>| #[trigger] leases@.held(resource) == live(
                last_lease(kept.leases@, resource),
                now,
            ) by {
                assert(first.held(resource) == last_lease(kept.leases@, resource));
                reaping_takes_only_ended_leases(first, now, resource);
            }
            assert forall|resource: Seq<char>| #[trigger] leases@.fence_of(resource) == greater(
                top_fence(kept.lease_fences@, resource),
                top_lease(kept.leases@, resource),
            ) by {
                assert(first.fence_of(resource) == leases@.fence_of(resource));
            }
        }
        let mut loaded = copy_tasks(&state.tasks);
        std::mem::swap(&mut loaded, &mut state.tasks);
        let mut tasks = TaskTable::from_tasks(loaded);
        let recovered = tasks.recover_orphans(now);
        let save = renamed || compacted || reaped.len() > 0 || recovered.len() > 0;
        let mut c = Controller { id, state, leases, tasks };
        if save {
            c.store_tables();
        }
        proof {
            assert(state_compacted(kept, mid));
            assert(task_views(recovered@).len() == recovered@.len());
            assert(opened(c, save, unidentified(given, id@) || state_stale(mid), kept, now));
        }
        Ok((c, save))
    }
}

/// The position of the record that a request names.
pub fn get_record<T: Keyed>(items: &Vec<T>, params: &Json, key: &str, code: &str, what: &str) -> (r: Result<usize, RpcError>)
    ensures
        match need(params@, key@) {
            Err(e) => fails(r, e),
            Ok(id) => match position_of(items@, id) {
                Some(i) => r matches Ok(k) && k == i && k < items@.len(),
                None => fails(r, unknown(code@, what@, id)),
            },
        },
{
    let id = match required_str(params, key) {
        Ok(s) => s,
        Err(e) => return Err(e),
    };
    match position(items, id) {
        Some(i) => Ok(i),
        None => Err(unknown_error(code, what, id)),
    }
}

/// Forgets the executor that a request names, and says whether it was known.
pub fn unregister_executor(executors: &mut Vec<Executor>, params: &Json) -> (r: Result<bool, RpcError>)
    ensures
        match need(params@, "executorId"@) {
            Err(e) => fails(r, e) && final(executors)@ == old(executors)@,
            Ok(id) => r == Ok::<bool, RpcError>(position_of(old(executors)@, id) is Some) && final(executors)@ == without(
                old(executors)@,
                id,
            ),
        },
{
    match required_str(params, "executorId") {
        Err(e) => Err(e),
        Ok(id) => Ok(remove_by(executors, id)),
    }
}

/// Forgets the executor that a request names, which has to be known.
pub fn remove_executor(executors: &mut Vec<Executor>, params: &Json) -> (r: Result<(), RpcError>)
    ensures
        match need(params@, "executorId"@) {
            Err(e) => fails(r, e) && final(executors)@ == old(executors)@,
            Ok(id) => if position_of(old(executors)@, id) is Some {
                r is Ok && final(executors)@ == without(old(executors)@, id)
            } else {
                fails(r, unknown("EXECUTOR_NOT_FOUND"@, "unknown executor: "@, id)) && final(executors)@ == without(
                    old(executors)@,
                    id,
                )
            },
        },
{
    match required_str(params, "executorId") {
        Err(e) => Err(e),
        Ok(id) => {
            if remove_by(executors, id) {
                Ok(())
            } else {
                Err(unknown_error("EXECUTOR_NOT_FOUND", "unknown executor: ", id))
            }
        },
    }
}

/// Forgets the controller that a request names, which is not this one, and says whether it was
/// known.
pub fn unregister_controller(id: &str, controllers: &mut Vec<ControllerPeer>, params: &Json) -> (r: Result<bool, RpcError>)
    ensures
        match need(params@, "controllerId"@) {
            Err(e) => fails(r, e) && final(controllers)@ == old(controllers)@,
            Ok(other) => if other == id@ {
                fails(r, rpc_error("CONTROLLER_SELF_UNREGISTER"@, "a Controller cannot unregister itself"@))
                    && final(controllers)@ == old(controllers)@
            } else {
                r == Ok::<bool, RpcError>(position_of(old(controllers)@, other) is Some) && final(controllers)@
                    == without(old(controllers)@, other)
            },
        },
{
    match required_str(params, "controllerId") {
        Err(e) => Err(e),
        Ok(other) => {
            if str_eq(other, id) {
                return Err(RpcError::new("CONTROLLER_SELF_UNREGISTER", "a Controller cannot unregister itself"));
            }
            Ok(remove_by(controllers, other))
        },
    }
}

/// The identity that the answer of a controller reports.
pub open spec fn reported_controller(status: JsonView) -> Option<Seq<char>> {
    match status.get("controller"@) {
        Some(c) => c.get_str("id"@),
        None => None,
    }
}

/// What a node that was just registered holds.
pub open spec fn fresh_peer(p: ControllerPeer, id: Seq<char>, endpoint: ExecutorEndpoint, now: u64) -> bool {
    &&& p.api_version@ == API_VERSION@
    &&& p.metadata.id@ == id
    &&& p.metadata.created_at == now
    &&& p.metadata.updated_at == now
    &&& p.endpoint == endpoint
    &&& p.health == HealthStatus::Ready
}

/// The error that an endpoint reported another identity.
pub open spec fn wrong_identity(code: Seq<char>, kind: Seq<char>, actual: Seq<char>, expected: Seq<char>) -> RpcErrorView {
    rpc_error(code, "endpoint reported "@ + kind + actual + ", expected "@ + expected)
}

/// Registers a controller under the identity that a request names, with what its endpoint
/// answered: the endpoint has to report that identity. The result is the position of the record.
pub fn register_controller(
    controllers: &mut Vec<ControllerPeer>,
    params: &Json,
    endpoint: ExecutorEndpoint,
    called: Called,
    now: u64,
) -> (r: Result<usize, RpcError>)
    ensures
        ({
            let same = final(controllers)@ == old(controllers)@;
            match need(params@, "controllerId"@) {
                Err(e) => fails(r, e) && same,
                Ok(id) => match controller_result_view(called@) {
                    Err(e) => fails(r, e) && same,
                    Ok(status) => match reported_controller(status) {
                        None => fails(
                            r,
                            rpc_error("CONTROLLER_INVALID"@, "controller status did not report an identity"@),
                        ) && same,
                        Some(actual) => if actual != id {
                            fails(r, wrong_identity("CONTROLLER_IDENTITY_MISMATCH"@, "Controller "@, actual, id)) && same
                        } else {
                            &&& r matches Ok(k) && position_of(final(controllers)@, id) == Some(k as int)
                            &&& fresh_peer(final(controllers)@[r->Ok_0 as int], id, endpoint, now)
                            &&& final(controllers)@ == upserted(old(controllers)@, final(controllers)@[r->Ok_0 as int])
                        },
                    },
                },
            }
        }),
{
    let id = match required_str(params, "controllerId") {
        Ok(s) => s,
        Err(e) => return Err(e),
    };
    let status = match controller_result(called) {
        Ok(j) => j,
        Err(e) => return Err(e),
    };
    let actual = match status.get("controller") {
        Some(c) => c.get_str("id"),
        None => None,
    };
    let actual = match actual {
        Some(a) => a,
        None => return Err(RpcError::new("CONTROLLER_INVALID", "controller status did not report an identity")),
    };
    if !str_eq(actual, id) {
        let message = concat5("endpoint reported ", "Controller ", actual, ", expected ", id);
        return Err(RpcError::new("CONTROLLER_IDENTITY_MISMATCH", message.as_str()));
    }
    let peer = ControllerPeer {
        api_version: API_VERSION.to_owned(),
        metadata: fresh_metadata(id, now),
        endpoint,
        health: HealthStatus::Ready,
    };
    proof {
        crate::table::upserted_record_is_found(controllers@, peer, id@);
        lemma_position_from(upserted(controllers@, peer), id@, 0);
    }
    upsert_by(controllers, peer);
    match position(controllers, id) {
        Some(k) => Ok(k),
        None => Err(RpcError::new("CONTROLLER_INVALID", "controller status did not report an identity")),
    }
}

/// What an executor that was just registered holds.
pub open spec fn fresh_executor(
    x: Executor,
    id: Seq<char>,
    endpoint: ExecutorEndpoint,
    capabilities: Vec<CapabilityDescriptor>,
    roots: Vec<String>,
    now: u64,
) -> bool {
    &&& x.api_version@ == API_VERSION@
    &&& x.metadata.id@ == id
    &&& x.metadata.created_at == now
    &&& x.metadata.updated_at == now
    &&& x.endpoint == endpoint
    &&& x.capabilities == capabilities
    &&& x.allowed_roots == roots
    &&& x.health == HealthStatus::Ready
}

/// Registers an executor under the identity that a request names, with what its endpoint
/// answered and the capabilities and roots that were read from the answer, or why they could not
/// be read. The result is the position of the record.
pub fn register_executor(
    executors: &mut Vec<Executor>,
    params: &Json,
    endpoint: ExecutorEndpoint,
    called: Called,
    capabilities: Result<Vec<CapabilityDescriptor>, String>,
    allowed_roots: Result<Vec<String>, String>,
    now: u64,
) -> (r: Result<usize, RpcError>)
    ensures
        ({
            let same = final(executors)@ == old(executors)@;
            match need(params@, "executorId"@) {
                Err(e) => fails(r, e) && same,
                Ok(id) => match executor_result_view(called@) {
                    Err(e) => fails(r, e) && same,
                    Ok(status) => match status.get_str("executorId"@) {
                        None => fails(
                            r,
                            rpc_error("EXECUTOR_INVALID"@, "executor status did not report an identity"@),
                        ) && same,
                        Some(actual) => if actual != id {
                            fails(r, wrong_identity("EXECUTOR_IDENTITY_MISMATCH"@, "Executor "@, actual, id)) && same
                        } else {
                            match (capabilities, allowed_roots) {
                                (Err(m), _) => fails(r, rpc_error("EXECUTOR_INVALID"@, m@)) && same,
                                (Ok(_), Err(m)) => fails(r, rpc_error("EXECUTOR_INVALID"@, m@)) && same,
                                (Ok(caps), Ok(roots)) => {
                                    &&& r matches Ok(k) && position_of(final(executors)@, id) == Some(k as int)
                                    &&& fresh_executor(
                                        final(executors)@[r->Ok_0 as int],
                                        id,
                                        endpoint,
                                        caps,
                                        roots,
                                        now,
                                    )
                                    &&& final(executors)@ == upserted(
                                        old(executors)@,
                                        final(executors)@[r->Ok_0 as int],
                                    )
                                },
                            }
                        },
                    },
                },
            }
        }),
{
    let id = match required_str(params, "executorId") {
        Ok(s) => s,
        Err(e) => return Err(e),
    };
    let status = match executor_result(called) {
        Ok(j) => j,
        Err(e) => return Err(e),
    };
    let actual = match status.get_str("executorId") {
        Some(a) => a,
        None => return Err(RpcError::new("EXECUTOR_INVALID", "executor status did not report an identity")),
    };
    if !str_eq(actual, id) {
        let message = concat5("endpoint reported ", "Executor ", actual, ", expected ", id);
        return Err(RpcError::new("EXECUTOR_IDENTITY_MISMATCH", message.as_str()));
    }
    let capabilities = match capabilities {
        Ok(c) => c,
        Err(m) => return Err(RpcError::new("EXECUTOR_INVALID", m.as_str())),
    };
    let allowed_roots = match allowed_roots {
        Ok(c) => c,
        Err(m) => return Err(RpcError::new("EXECUTOR_INVALID", m.as_str())),
    };
    let executor = Executor {
        api_version: API_VERSION.to_owned(),
        metadata: fresh_metadata(id, now),
        endpoint,
        capabilities,
        allowed_roots,
        health: HealthStatus::Ready,
    };
    proof {
        crate::table::upserted_record_is_found(executors@, executor, id@);
        lemma_position_from(upserted(executors@, executor), id@, 0);
    }
    upsert_by(executors, executor);
    match position(executors, id) {
        Some(k) => Ok(k),
        None => Err(RpcError::new("EXECUTOR_INVALID", "executor status did not report an identity")),
    }
}

/// The leases that a request claims for the call of an executor, where it claims any.
pub open spec fn claimed(params: JsonView) -> Option<Seq<JsonView>> {
    match params.get_array("leases"@) {
        Some(items) => Some(items),
        None => match params.get("leaseResource"@) {
            Some(resource) => Some(
                seq![
                    JsonView::obj().plus("owner"@, params.get_or_null("owner"@)).plus("resource"@, resource).plus(
                        "token"@,
                        params.get_or_null("token"@),
                    ),
                ],
            ),
            None => None,
        },
    }
}

/// What an executor is told of a lease under which it is called.
pub open spec fn authority_json(controller: Seq<char>, l: Lease) -> JsonView {
    JsonView::obj().plus("controllerId"@, JsonView::Text(controller)).plus("fence"@, JsonView::Unsigned(l.fence)).plus(
        "resource"@,
        JsonView::Text(l.resource@),
    )
}

/// The authorities that the first `n` claims give, or why one gives none.
pub open spec fn authorities(controller: Seq<char>, t: LeasesView, claims: Seq<JsonView>, now: u64, n: int) -> Result<
    Seq<JsonView>,
    RpcErrorView,
>
    decreases n,
{
    if n <= 0 {
        Ok(Seq::empty())
    } else {
        match authorities(controller, t, claims, now, n - 1) {
            Err(e) => Err(e),
            Ok(before) => match crate::driver::claim(claims[n - 1]) {
                Err(e) => Err(e),
                Ok(c) => match t.check(c.0, c.1, c.2, now) {
                    Err(e) => Err(lease_rpc(e)),
                    Ok(l) => Ok(before.push(authority_json(controller, l))),
                },
            },
        }
    }
}

/// The position of an executor, the action and the parameters with which it is called; or why it
/// is not called.
pub open spec fn nested_call(
    controller: Seq<char>,
    executors: Seq<Executor>,
    t: LeasesView,
    params: JsonView,
    now: u64,
) -> Result<(int, Seq<char>, JsonView), RpcErrorView> {
    match need(params, "executorId"@) {
        Err(e) => Err(e),
        Ok(id) => match position_of(executors, id) {
            None => Err(unknown("EXECUTOR_NOT_FOUND"@, "unknown executor: "@, id)),
            Some(i) => match need(params, "action"@) {
                Err(e) => Err(e),
                Ok(action) => match claimed(params) {
                    None => Ok((i, action, params.get_or_null("params"@))),
                    Some(claims) => match authorities(controller, t, claims, now, claims.len() as int) {
                        Err(e) => Err(e),
                        Ok(a) => Ok(
                            (i, action, params.get_or_null("params"@).with("_authority"@, JsonView::Array(a))),
                        ),
                    },
                },
            },
        },
    }
}

fn read_authorities(controller: &str, leases: &LeaseTable, claims: &Vec<Json>, now: u64) -> (r: Result<Json, RpcError>)
    ensures
        match authorities(controller@, leases@, crate::json::json_views(claims@), now, claims@.len() as int) {
            Err(e) => fails(r, e),
            Ok(a) => r matches Ok(j) && j@ == JsonView::Array(a),
        },
{
    let ghost all = crate::json::json_views(claims@);
    let mut out: Vec<Json> = Vec::new();
    assert(crate::json::json_views(out@) =~= Seq::empty());
    let mut i: usize = 0;
    while i < claims.len()
        invariant
            i <= claims.len(),
            all == crate::json::json_views(claims@),
            authorities(controller@, leases@, all, now, i as int) == Ok::<Seq<JsonView>, RpcErrorView>(
                crate::json::json_views(out@),
            ),
        decreases claims.len() - i,
    {
        assert(all[i as int] == claims@[i as int]@);
        let ghost step = authorities(controller@, leases@, all, now, i + 1);
        let c = match crate::driver::read_claim(&claims[i]) {
            Ok(c) => c,
            Err(e) => {
                proof {
                    lemma_authorities_stop(controller@, leases@, all, now, i + 1, all.len() as int);
                }
                return Err(e);
            },
        };
        let l = match leases.validate(c.0, c.1, c.2, now) {
            Ok(l) => l,
            Err(e) => {
                proof {
                    lemma_authorities_stop(controller@, leases@, all, now, i + 1, all.len() as int);
                }
                return Err(map_lease_error(e));
            },
        };
        let item = Json::obj().plus("controllerId", Json::text(controller)).plus("fence", Json::Unsigned(l.fence)).plus(
            "resource",
            Json::text(l.resource.as_str()),
        );
        let ghost before = out@;
        out.push(item);
        assert(crate::json::json_views(out@) =~= crate::json::json_views(before).push(item@));
        i += 1;
    }
    Ok(Json::array(out))
}

proof fn lemma_authorities_stop(controller: Seq<char>, t: LeasesView, claims: Seq<JsonView>, now: u64, i: int, n: int)
    requires
        0 <= i <= n,
        authorities(controller, t, claims, now, i) is Err,
    ensures
        authorities(controller, t, claims, now, n) == authorities(controller, t, claims, now, i),
    decreases n - i,
{
    if i < n {
        lemma_authorities_stop(controller, t, claims, now, i, n - 1);
    }
}

/// What a request to call an executor comes to: the position of the executor, the action and the
/// parameters, to which the fences of the leases that the request claims are added. Where leases
/// are claimed, the parameters have to be an object or absent.
pub fn executor_call(id: &str, executors: &Vec<Executor>, leases: &LeaseTable, params: &Json, now: u64) -> (r: Result<
    (usize, String, Json),
    RpcError,
>)
    requires
        claimed(params@) is Some ==> params@.get_or_null("params"@).settable(),
    ensures
        match nested_call(id@, executors@, leases@, params@, now) {
            Err(e) => fails(r, e),
            Ok(c) => r matches Ok(x) && x.0 == c.0 && x.0 < executors@.len() && x.1@ == c.1 && x.2@ == c.2,
        },
{
    let i = match get_record(executors, params, "executorId", "EXECUTOR_NOT_FOUND", "unknown executor: ") {
        Ok(i) => i,
        Err(e) => return Err(e),
    };
    let action = match required_str(params, "action") {
        Ok(s) => s,
        Err(e) => return Err(e),
    };
    let mut nested = params.copy_or_null("params");
    if let Some(items) = params.get_array("leases") {
        match read_authorities(id, leases, items, now) {
            Ok(a) => {
                nested.set("_authority", a);
            },
            Err(e) => return Err(e),
        }
    } else if let Some(resource) = params.get("leaseResource") {
        let mut items: Vec<Json> = Vec::new();
        items.push(
            Json::obj().plus("owner", params.copy_or_null("owner")).plus("resource", resource.copy()).plus(
                "token",
                params.copy_or_null("token"),
            ),
        );
        assert(crate::json::json_views(items@) =~= claimed(params@)->0);
        match read_authorities(id, leases, &items, now) {
            Ok(a) => {
                nested.set("_authority", a);
            },
            Err(e) => return Err(e),
        }
    }
    Ok((i, action.to_owned(), nested))
}

/// What a request to call a controller comes to.
pub open spec fn peer_call(controllers: Seq<ControllerPeer>, params: JsonView) -> Result<
    (int, Seq<char>, JsonView),
    RpcErrorView,
> {
    match need(params, "controllerId"@) {
        Err(e) => Err(e),
        Ok(id) => match position_of(controllers, id) {
            None => Err(unknown("CONTROLLER_NOT_FOUND"@, "unknown controller: "@, id)),
            Some(i) => match need(params, "action"@) {
                Err(e) => Err(e),
                Ok(action) => Ok((i, action, params.get_or_null("params"@))),
            },
        },
    }
}

/// What a request to call a controller comes to: the position of the controller, the action and
/// the parameters.
pub fn controller_call(controllers: &Vec<ControllerPeer>, params: &Json) -> (r: Result<(usize, String, Json), RpcError>)
    ensures
        match peer_call(controllers@, params@) {
            Err(e) => fails(r, e),
            Ok(c) => r matches Ok(x) && x.0 == c.0 && x.0 < controllers@.len() && x.1@ == c.1 && x.2@ == c.2,
        },
{
    let i = match get_record(controllers, params, "controllerId", "CONTROLLER_NOT_FOUND", "unknown controller: ") {
        Ok(i) => i,
        Err(e) => return Err(e),
    };
    match required_str(params, "action") {
        Ok(action) => Ok((i, action.to_owned(), params.copy_or_null("params"))),
        Err(e) => Err(e),
    }
}

/// The position of an executor that this controller calls itself.
pub fn registered_executor(executors: &Vec<Executor>, id: &str) -> (r: Result<usize, RpcError>)
    ensures
        match position_of(executors@, id@) {
            Some(i) => r matches Ok(k) && k == i && k < executors@.len(),
            None => fails(r, unknown("EXECUTOR_NOT_FOUND"@, "unknown executor: "@, id@)),
        },
{
    match position(executors, id) {
        Some(i) => Ok(i),
        None => Err(unknown_error("EXECUTOR_NOT_FOUND", "unknown executor: ", id)),
    }
}

/// The name of the state of a generation in a message.
pub open spec fn generation_word(s: GenerationState) -> Seq<char> {
    match s {
        GenerationState::Reserved => "Reserved"@,
        GenerationState::Materializing => "Materializing"@,
        GenerationState::Materialized => "Materialized"@,
        GenerationState::Validated => "Validated"@,
        GenerationState::Finalized => "Finalized"@,
        GenerationState::SmokePassed => "SmokePassed"@,
        GenerationState::Active => "Active"@,
        GenerationState::Superseded => "Superseded"@,
        GenerationState::Failed => "Failed"@,
    }
}

fn state_name(s: GenerationState) -> (r: &'static str)
    ensures
        r@ == generation_word(s),
{
    match s {
        GenerationState::Reserved => "Reserved",
        GenerationState::Materializing => "Materializing",
        GenerationState::Materialized => "Materialized",
        GenerationState::Validated => "Validated",
        GenerationState::Finalized => "Finalized",
        GenerationState::SmokePassed => "SmokePassed",
        GenerationState::Active => "Active",
        GenerationState::Superseded => "Superseded",
        GenerationState::Failed => "Failed",
    }
}

/// Why a generation cannot take the place of the stored one of its name, if it cannot.
pub open spec fn generation_refusal(items: Seq<Generation>, g: Generation) -> Option<RpcErrorView> {
    match position_of(items, g.id@) {
        None => None,
        Some(i) => {
            let old_g = items[i];
            if old_g.workspace_session_id@ != g.workspace_session_id@ || old_g.root@ != g.root@ || old_g.baseline.digest@
                != g.baseline.digest@ {
                Some(rpc_error("GENERATION_IDENTITY_CONFLICT"@, "generation identity fields are immutable"@))
            } else if !may_become(old_g.state, g.state) {
                Some(
                    rpc_error(
                        "INVALID_GENERATION_STATE"@,
                        "invalid generation transition "@ + generation_word(old_g.state) + " -> "@ + generation_word(
                            g.state,
                        ),
                    ),
                )
            } else {
                None
            }
        },
    }
}

/// Stores a generation. One of the same name has to have the same session, root and baseline, and
/// its state has to lead to the new one.
pub fn put_generation(items: &mut Vec<Generation>, generation: Generation) -> (r: Result<(), RpcError>)
    ensures
        match generation_refusal(old(items)@, generation) {
            Some(e) => fails(r, e) && final(items)@ == old(items)@,
            None => r is Ok && final(items)@ == upserted(old(items)@, generation),
        },
{
    if let Some(i) = position(items, generation.id.as_str()) {
        let existing = &items[i];
        if !str_eq(existing.workspace_session_id.as_str(), generation.workspace_session_id.as_str()) || !str_eq(
            existing.root.as_str(),
            generation.root.as_str(),
        ) || !str_eq(existing.baseline.digest.as_str(), generation.baseline.digest.as_str()) {
            return Err(
                RpcError::new("GENERATION_IDENTITY_CONFLICT", "generation identity fields are immutable"),
            );
        }
        if !generation_transition_allowed(&existing.state, &generation.state) {
            let message = concat4(
                "invalid generation transition ",
                state_name(existing.state),
                " -> ",
                state_name(generation.state),
            );
            return Err(RpcError::new("INVALID_GENERATION_STATE", message.as_str()));
        }
    }
    upsert_by(items, generation);
    Ok(())
}

/// Puts the agent that a request names into a state. The result is the position of the agent.
pub fn transition_agent(agents: &mut Vec<AgentInstance>, params: &Json, state: AgentState) -> (r: Result<usize, RpcError>)
    ensures
        match need(params@, "agentId"@) {
            Err(e) => fails(r, e) && final(agents)@ == old(agents)@,
            Ok(id) => match position_of(old(agents)@, id) {
                None => fails(r, unknown("AGENT_NOT_FOUND"@, "unknown agent: "@, id)) && final(agents)@ == old(agents)@,
                Some(i) => r matches Ok(k) && k == i && final(agents)@ == old(agents)@.update(
                    i,
                    (AgentInstance { state, ..old(agents)@[i] }),
                ),
            },
        },
{
    match get_record(agents, params, "agentId", "AGENT_NOT_FOUND", "unknown agent: ") {
        Err(e) => Err(e),
        Ok(i) => {
            agents[i].state = state;
            Ok(i)
        },
    }
}

/// How an executor answered when it was asked for its status.
#[derive(Debug)]
pub enum Check {
    Ready,
    /// It answered that it failed.
    Failed(Option<RpcError>),
    /// It could not be reached.
    Offline(String),
}

/// Whether a check is what an answer says.
pub open spec fn checks(c: Check, called: Called) -> bool {
    match called {
        Called::Answered(response) => if response.ok {
            c is Ready
        } else {
            c == Check::Failed(response.error)
        },
        Called::Unreachable(reason) => c == Check::Offline(reason),
    }
}

/// What an executor answered, as a check.
pub fn check_executor(called: Called) -> (r: Check)
    ensures
        checks(r, called),
{
    match called {
        Called::Answered(response) => {
            if response.ok {
                Check::Ready
            } else {
                Check::Failed(response.error)
            }
        },
        Called::Unreachable(reason) => Check::Offline(reason),
    }
}

/// Whether all executors are ready.
pub fn healthy(checks: &Vec<Check>) -> (r: bool)
    ensures
        r == forall|i: int| 0 <= i < checks@.len() ==> (#[trigger] checks@[i]) is Ready,
{
    let mut i: usize = 0;
    while i < checks.len()
        invariant
            i <= checks.len(),
            forall|k: int| 0 <= k < i ==> (#[trigger] checks@[k]) is Ready,
        decreases checks.len() - i,
    {
        match &checks[i] {
            Check::Ready => {},
            _ => {
                assert(!(checks@[i as int] is Ready));
                return false;
            },
        }
        i += 1;
    }
    true
}

/// How the check of an executor is shown. `error` is the error of an answer as a document.
pub open spec fn check_json(id: Seq<char>, capabilities: nat, c: Check, error: JsonView) -> JsonView {
    match c {
        Check::Ready => JsonView::obj().plus("capabilities"@, JsonView::Unsigned(capabilities as u64)).plus(
            "executorId"@,
            JsonView::Text(id),
        ).plus("status"@, JsonView::Text("ready"@)),
        Check::Failed(_) => JsonView::obj().plus("error"@, error).plus("executorId"@, JsonView::Text(id)).plus(
            "status"@,
            JsonView::Text("failed"@),
        ),
        Check::Offline(reason) => JsonView::obj().plus("error"@, JsonView::Text(reason@)).plus(
            "executorId"@,
            JsonView::Text(id),
        ).plus("status"@, JsonView::Text("offline"@)),
    }
}

/// How the check of an executor is shown.
pub fn shown_check(executor: &Executor, check: &Check, error: Json) -> (r: Json)
    ensures
        r@ == check_json(executor.metadata.id@, executor.capabilities@.len(), *check, error@),
{
    let id = executor.metadata.id.as_str();
    match check {
        Check::Ready => {
            let count = executor.capabilities.len() as u64;
            Json::obj().plus("capabilities", Json::Unsigned(count)).plus("executorId", Json::text(id)).plus(
                "status",
                Json::text("ready"),
            )
        },
        Check::Failed(_) => Json::obj().plus("error", error).plus("executorId", Json::text(id)).plus(
            "status",
            Json::text("failed"),
        ),
        Check::Offline(reason) => Json::obj().plus("error", Json::text(reason.as_str())).plus(
            "executorId",
            Json::text(id),
        ).plus("status", Json::text("offline")),
    }
}

/// The report on this controller and its executors.
pub fn doctor_report(id: &str, checks: &Vec<Check>, shown: Vec<Json>) -> (r: Json)
    ensures
        r@ == JsonView::obj().plus("checks"@, JsonView::Array(crate::json::json_views(shown@))).plus(
            "controller"@,
            JsonView::obj().plus("id"@, JsonView::Text(id@)).plus("status"@, JsonView::Text("ready"@)),
        ).plus(
            "healthy"@,
            JsonView::Bool(forall|i: int| 0 <= i < checks@.len() ==> (#[trigger] checks@[i]) is Ready),
        ),
{
    let all = healthy(checks);
    Json::obj().plus("checks", Json::array(shown)).plus(
        "controller",
        Json::obj().plus("id", Json::text(id)).plus("status", Json::text("ready")),
    ).plus("healthy", Json::Bool(all))
}

/// The health of a node as it is shown: that of one with a socket on this machine is whether the
/// socket is there.
pub fn local_endpoint_health(endpoint: &ExecutorEndpoint, health: HealthStatus, socket_exists: bool) -> (r: HealthStatus)
    ensures
        r == (if endpoint is Local {
            if socket_exists {
                HealthStatus::Ready
            } else {
                HealthStatus::Offline
            }
        } else {
            health
        }),
{
    match endpoint {
        ExecutorEndpoint::Local { .. } => {
            if socket_exists {
                HealthStatus::Ready
            } else {
                HealthStatus::Offline
            }
        },
        _ => health,
    }
}

/// How many of the first `n` tasks are in a state.
pub open spec fn count_in(tasks: Seq<Task>, state: TaskState, n: int) -> nat
    decreases n,
{
    if n <= 0 {
        0
    } else {
        count_in(tasks, state, n - 1) + (if tasks[n - 1].state == state {
            1nat
        } else {
            0nat
        })
    }
}

/// How many tasks are in a state.
pub fn tasks_in_state(tasks: &Vec<Task>, state: TaskState) -> (r: u64)
    ensures
        r == count_in(tasks@, state, tasks@.len() as int),
{
    let mut count: u64 = 0;
    let mut i: usize = 0;
    while i < tasks.len()
        invariant
            i <= tasks.len(),
            count == count_in(tasks@, state, i as int),
            count <= i,
        decreases tasks.len() - i,
    {
        if tasks[i].state == state {
            count += 1;
        }
        i += 1;
    }
    count
}

/// How many capabilities may run on their own when nothing else is configured.
pub const DEFAULT_ASYNC: usize = 32;

/// How many capabilities may run on their own: a positive number that is configured, or the usual
/// one.
pub fn async_maximum(configured: &Option<String>) -> (r: usize)
    ensures
        r == (match *configured {
            Some(s) => match parse_u64_view(s@) {
                Some(n) => if 0 < n <= usize::MAX {
                    n as usize
                } else {
                    DEFAULT_ASYNC
                },
                None => DEFAULT_ASYNC,
            },
            None => DEFAULT_ASYNC,
        }),
{
    match configured {
        Some(s) => match parse_u64(s.as_str()) {
            Some(n) => if 0 < n && n <= usize::MAX as u64 {
                n as usize
            } else {
                DEFAULT_ASYNC
            },
            None => DEFAULT_ASYNC,
        },
        None => DEFAULT_ASYNC,
    }
}

/// The features of the protocol that a controller offers.
pub fn protocol_features() -> (r: [&'static str; 4])
    ensures
        r@[0]@ == "capability-authority-v2"@,
        r@[1]@ == "driver-draining-v1"@,
        r@[2]@ == "read-grant-v1"@,
        r@[3]@ == "acceptance-handoff-v1"@,
{
    ["capability-authority-v2", "driver-draining-v1", "read-grant-v1", "acceptance-handoff-v1"]
}

/// A generation never changes its session, its root or its baseline, and goes only forward, as
/// long as it is stored by `put_generation`.
pub proof fn stored_generation_keeps_its_identity(items: Seq<Generation>, g: Generation, i: int)
    requires
        position_of(items, g.id@) == Some(i),
        generation_refusal(items, g) is None,
    ensures
        upserted(items, g) == items.update(i, g),
        items[i].workspace_session_id@ == g.workspace_session_id@,
        items[i].root@ == g.root@,
        items[i].baseline.digest@ == g.baseline.digest@,
        may_become(items[i].state, g.state),
{
}

/// Leases are claimed towards an executor only where the caller holds every one of them, and each
/// is told with the fence that it has.
pub proof fn claims_are_held(controller: Seq<char>, t: LeasesView, claims: Seq<JsonView>, now: u64, n: int)
    requires
        0 <= n <= claims.len(),
    ensures
        match authorities(controller, t, claims, now, n) {
            Ok(told) => told.len() == n && forall|i: int|
                0 <= i < n ==> (crate::driver::claim(#[trigger] claims[i]) matches Ok(c) && (t.held(c.0) matches Some(l)
                    && l.owner@ == c.1 && l.token@ == c.2 && now < l.expires_at && told[i] == JsonView::obj().plus(
                    "controllerId"@,
                    JsonView::Text(controller),
                ).plus("fence"@, JsonView::Unsigned(l.fence)).plus("resource"@, JsonView::Text(l.resource@)))),
            Err(_) => exists|i: int|
                0 <= i < n && (crate::driver::claim(#[trigger] claims[i]) matches Ok(c) ==> !(t.held(c.0) matches Some(l)
                    && l.owner@ == c.1 && l.token@ == c.2 && now < l.expires_at)),
        },
    decreases n,
{
    if n > 0 {
        claims_are_held(controller, t, claims, now, n - 1);
        assert(claims[n - 1] == claims[n - 1]);
    }
}

/// A controller keeps the identity that it has, takes the one that it is given where it has none,
/// and makes one up only where there is neither.
pub proof fn identity_is_kept(stored: Option<Seq<char>>, configured: Option<Seq<char>>, fresh: Seq<char>)
    ensures
        configured matches Some(c) ==> identity(stored, configured, fresh) == c,
        configured is None ==> (stored matches Some(s) ==> identity(stored, configured, fresh) == s),
        configured is None && stored is None ==> identity(stored, configured, fresh) == fresh,
{
}

/// The tasks of a state are counted as what they are.
pub proof fn every_task_is_counted(tasks: Seq<Task>, state: TaskState, n: int)
    requires
        0 <= n <= tasks.len(),
    ensures
        count_in(tasks, state, n) <= n,
        count_in(tasks, state, n) == n <==> forall|i: int| 0 <= i < n ==> (#[trigger] tasks[i]).state == state,
        count_in(tasks, state, n) == 0 <==> forall|i: int| 0 <= i < n ==> (#[trigger] tasks[i]).state != state,
        n > 0 ==> count_in(tasks, state, n) == count_in(tasks, state, n - 1) + (if tasks[n - 1].state == state {
            1nat
        } else {
            0nat
        }),
    decreases n,
{
    if n > 0 {
        every_task_is_counted(tasks, state, n - 1);
    }
}

} // verus!
