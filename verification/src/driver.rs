//! The driver of a workspace: leases as requests ask for them, and the handing over of a driver,
//! which waits until the writer that is there has drained.

use crate::json::{Json, JsonView};
use crate::lease::{
    begins, end_of, fences_lease, later, lease_rpc, map_lease_error, out_of_order, violates_lease_order, Fence, LeaseError,
    LeaseTable, LeasesView,
};
use crate::rpc::{fails, need, required_str, retryable_error, rpc_error, RpcError, RpcErrorView};
use crate::schema::{AgentMutationOperation, DriverHandoffRequest, DriverHandoffState, Lease, LeaseKind, Task, TaskState};
use crate::table::{position, position_of, remove_by, without};
use crate::task::{opt_text, TaskTable};
use crate::text::{concat2, opt_eq, str_eq};
use vstd::prelude::*;

verus! {

/// How long a lease lasts where a request does not say.
pub const LEASE_TTL_MS: u64 = 300_000;

/// Whether a table of leases is another with a new lease granted.
pub open spec fn granted(after: LeasesView, before: LeasesView, lease: Lease) -> bool {
    &&& exists|fence: Fence|
        #![trigger before.grant(lease, fence)]
        fences_lease(fence, lease) && after == before.grant(lease, fence)
    &&& after.held(lease.resource@) == Some(lease)
}

/// The error that leases are asked for out of order.
pub open spec fn order_violation() -> RpcErrorView {
    rpc_error(
        "LEASE_ORDER_VIOLATION"@,
        "release workspace driver before runtime lease, and runtime lease before acceptance lease"@,
    )
}

/// The error that somebody holds a resource.
pub open spec fn held_error(l: Lease) -> RpcErrorView {
    lease_rpc(LeaseError::Active { owner: l.owner, expires_at: l.expires_at })
}

/// What taking a resource that nobody holds gives.
pub open spec fn acquires(
    r: Result<Lease, RpcError>,
    after: LeasesView,
    before: LeasesView,
    kind: LeaseKind,
    resource: Seq<char>,
    owner: Seq<char>,
    params: JsonView,
    now: u64,
    id: Seq<char>,
    token: Seq<char>,
) -> bool {
    if before.busy(resource, now) {
        fails(r, held_error(before.held(resource)->0)) && after == before
    } else {
        &&& r matches Ok(lease) && begins(
            lease,
            kind,
            resource,
            owner,
            id,
            token,
            before.next_fence(resource),
            now,
            params.u64_or("ttlMs"@, LEASE_TTL_MS),
        ) && granted(after, before, lease)
    }
}

/// Takes the lease of a resource that `params` names, for the owner that it names. A lease that
/// is no driver is refused to an owner that holds a resource of a lower rank.
pub fn acquire_lease(leases: &mut LeaseTable, params: &Json, kind: LeaseKind, now: u64, id: &str, token: &str) -> (r: Result<
    Lease,
    RpcError,
>)
    requires
        old(leases)@.wf(),
    ensures
        final(leases)@.wf(),
        match (need(params@, "resource"@), need(params@, "owner"@)) {
            (Err(e), _) => fails(r, e) && final(leases)@ == old(leases)@,
            (Ok(_), Err(e)) => fails(r, e) && final(leases)@ == old(leases)@,
            (Ok(resource), Ok(owner)) => if kind == LeaseKind::Resource && out_of_order(
                old(leases)@.leases,
                owner,
                resource,
            ) {
                fails(r, order_violation()) && final(leases)@ == old(leases)@
            } else {
                acquires(r, final(leases)@, old(leases)@, kind, resource, owner, params@, now, id@, token@)
            },
        },
{
    let resource = match required_str(params, "resource") {
        Ok(s) => s,
        Err(e) => return Err(e),
    };
    let owner = match required_str(params, "owner") {
        Ok(s) => s,
        Err(e) => return Err(e),
    };
    if kind == LeaseKind::Resource && violates_lease_order(&leases.leases, owner, resource) {
        return Err(
            RpcError::new(
                "LEASE_ORDER_VIOLATION",
                "release workspace driver before runtime lease, and runtime lease before acceptance lease",
            ),
        );
    }
    match leases.acquire(kind, resource, owner, params.u64_or("ttlMs", LEASE_TTL_MS), now, id, token) {
        Ok(lease) => Ok(lease),
        Err(e) => Err(map_lease_error(e)),
    }
}

/// The resource, the owner and the token that a request names.
pub open spec fn claim(params: JsonView) -> Result<(Seq<char>, Seq<char>, Seq<char>), RpcErrorView> {
    match (need(params, "resource"@), need(params, "owner"@), need(params, "token"@)) {
        (Err(e), _, _) => Err(e),
        (Ok(_), Err(e), _) => Err(e),
        (Ok(_), Ok(_), Err(e)) => Err(e),
        (Ok(resource), Ok(owner), Ok(token)) => Ok((resource, owner, token)),
    }
}

pub(crate) fn read_claim<'a>(params: &'a Json) -> (r: Result<(&'a str, &'a str, &'a str), RpcError>)
    ensures
        match r {
            Ok(c) => claim(params@) == Ok::<(Seq<char>, Seq<char>, Seq<char>), RpcErrorView>((c.0@, c.1@, c.2@)),
            Err(e) => claim(params@) == Err::<(Seq<char>, Seq<char>, Seq<char>), RpcErrorView>(e@),
        },
{
    let resource = match required_str(params, "resource") {
        Ok(s) => s,
        Err(e) => return Err(e),
    };
    let owner = match required_str(params, "owner") {
        Ok(s) => s,
        Err(e) => return Err(e),
    };
    let token = match required_str(params, "token") {
        Ok(s) => s,
        Err(e) => return Err(e),
    };
    Ok((resource, owner, token))
}

/// Extends the lease that a request claims.
pub fn renew_lease(leases: &mut LeaseTable, params: &Json, now: u64) -> (r: Result<Lease, RpcError>)
    requires
        old(leases)@.wf(),
    ensures
        final(leases)@.wf(),
        match claim(params@) {
            Err(e) => fails(r, e) && final(leases)@ == old(leases)@,
            Ok(c) => match old(leases)@.check(c.0, c.1, c.2, now) {
                Err(e) => fails(r, lease_rpc(e)) && final(leases)@ == old(leases)@,
                Ok(l) => r matches Ok(lease) && lease == (Lease {
                    updated_at: now,
                    expires_at: later(now, params@.u64_or("ttlMs"@, LEASE_TTL_MS)),
                    ..l
                }) && final(leases)@ == old(leases)@.put(lease),
            },
        },
{
    match read_claim(params) {
        Err(e) => Err(e),
        Ok(c) => match leases.renew(c.0, c.1, c.2, params.u64_or("ttlMs", LEASE_TTL_MS), now) {
            Ok(lease) => Ok(lease),
            Err(e) => Err(map_lease_error(e)),
        },
    }
}

/// Offers the driver that a request claims to the target that it names.
pub fn offer_lease(leases: &mut LeaseTable, params: &Json, now: u64) -> (r: Result<Lease, RpcError>)
    requires
        old(leases)@.wf(),
    ensures
        final(leases)@.wf(),
        match (claim(params@), need(params@, "target"@)) {
            (Err(e), _) => fails(r, e) && final(leases)@ == old(leases)@,
            (Ok(_), Err(e)) => fails(r, e) && final(leases)@ == old(leases)@,
            (Ok(c), Ok(target)) => match old(leases)@.check(c.0, c.1, c.2, now) {
                Err(e) => fails(r, lease_rpc(e)) && final(leases)@ == old(leases)@,
                Ok(l) => r matches Ok(lease) && opt_text(lease.handoff_to) == Some(target) && lease == (Lease {
                    updated_at: now,
                    handoff_to: lease.handoff_to,
                    ..l
                }) && final(leases)@ == old(leases)@.put(lease),
            },
        },
{
    match read_claim(params) {
        Err(e) => Err(e),
        Ok(c) => {
            let target = match required_str(params, "target") {
                Ok(s) => s,
                Err(e) => return Err(e),
            };
            match leases.handoff(c.0, c.1, c.2, target, now) {
                Ok(lease) => Ok(lease),
                Err(e) => Err(map_lease_error(e)),
            }
        },
    }
}

/// What taking a resource that was offered gives.
pub open spec fn takes(
    r: Result<Lease, RpcError>,
    after: LeasesView,
    before: LeasesView,
    l: Lease,
    owner: Seq<char>,
    params: JsonView,
    now: u64,
    id: Seq<char>,
    token: Seq<char>,
) -> bool {
    if opt_text(l.handoff_to) != Some(owner) {
        fails(r, lease_rpc(LeaseError::InvalidHandoff)) && after == before
    } else {
        r matches Ok(lease) && begins(
            lease,
            l.kind,
            l.resource@,
            owner,
            id,
            token,
            before.next_fence(l.resource@),
            now,
            params.u64_or("ttlMs"@, LEASE_TTL_MS),
        ) && granted(after, before, lease)
    }
}

/// Takes a driver: one that is held only if it was offered, any other as a new lease.
pub fn take_driver(leases: &mut LeaseTable, params: &Json, now: u64, id: &str, token: &str) -> (r: Result<Lease, RpcError>)
    requires
        old(leases)@.wf(),
    ensures
        final(leases)@.wf(),
        match (need(params@, "resource"@), need(params@, "owner"@)) {
            (Err(e), _) => fails(r, e) && final(leases)@ == old(leases)@,
            (Ok(_), Err(e)) => fails(r, e) && final(leases)@ == old(leases)@,
            (Ok(resource), Ok(owner)) => match old(leases)@.held(resource) {
                Some(l) => takes(r, final(leases)@, old(leases)@, l, owner, params@, now, id@, token@),
                None => acquires(
                    r,
                    final(leases)@,
                    old(leases)@,
                    LeaseKind::Driver,
                    resource,
                    owner,
                    params@,
                    now,
                    id@,
                    token@,
                ),
            },
        },
{
    let resource = match required_str(params, "resource") {
        Ok(s) => s,
        Err(e) => return Err(e),
    };
    let owner = match required_str(params, "owner") {
        Ok(s) => s,
        Err(e) => return Err(e),
    };
    let ttl_ms = params.u64_or("ttlMs", LEASE_TTL_MS);
    proof {
        crate::table::lemma_position_from(leases@.leases, resource@, 0);
    }
    let taken = if leases.get(resource).is_some() {
        leases.take_handoff(resource, owner, ttl_ms, now, id, token)
    } else {
        leases.acquire(LeaseKind::Driver, resource, owner, ttl_ms, now, id, token)
    };
    match taken {
        Ok(lease) => Ok(lease),
        Err(e) => Err(map_lease_error(e)),
    }
}

/// Gives the lease back that a request claims.
pub fn release_lease(leases: &mut LeaseTable, params: &Json, now: u64) -> (r: Result<Lease, RpcError>)
    requires
        old(leases)@.wf(),
    ensures
        final(leases)@.wf(),
        match claim(params@) {
            Err(e) => fails(r, e) && final(leases)@ == old(leases)@,
            Ok(c) => match old(leases)@.check(c.0, c.1, c.2, now) {
                Err(e) => fails(r, lease_rpc(e)) && final(leases)@ == old(leases)@,
                Ok(l) => r == Ok::<Lease, RpcError>(l) && final(leases)@ == old(leases)@.drop_lease(c.0),
            },
        },
{
    match read_claim(params) {
        Err(e) => Err(e),
        Ok(c) => match leases.release(c.0, c.1, c.2, now) {
            Ok(lease) => Ok(lease),
            Err(e) => Err(map_lease_error(e)),
        },
    }
}

/// The lease of the resource that a request names, if it has one.
pub fn lease_status(leases: &LeaseTable, params: &Json) -> (r: Result<Option<Lease>, RpcError>)
    ensures
        match need(params@, "resource"@) {
            Err(e) => fails(r, e),
            Ok(resource) => r == Ok::<Option<Lease>, RpcError>(leases@.held(resource)),
        },
{
    let resource = match required_str(params, "resource") {
        Ok(s) => s,
        Err(e) => return Err(e),
    };
    match leases.get(resource) {
        Some(l) => Ok(Some(l.clone())),
        None => Ok(None),
    }
}

/// Whether the request for a driver is neither met nor given up.
pub open spec fn is_open(s: DriverHandoffState) -> bool {
    s == DriverHandoffState::Requested || s == DriverHandoffState::Draining || s == DriverHandoffState::Ready
}

fn open_state(s: DriverHandoffState) -> (r: bool)
    ensures
        r == is_open(s),
{
    match s {
        DriverHandoffState::Requested | DriverHandoffState::Draining | DriverHandoffState::Ready => true,
        _ => false,
    }
}

/// Whether a request stops an owner from writing to a workspace at a time.
pub open spec fn stops(q: DriverHandoffRequest, workspace: Seq<char>, owner: Seq<char>, now: u64) -> bool {
    q.workspace_session_id@ == workspace && opt_text(q.previous_owner) == Some(owner) && q.expires_at > now && is_open(
        q.state,
    )
}

/// Whether an owner may not write to a workspace, since its driver is asked for.
pub open spec fn draining(requests: Seq<DriverHandoffRequest>, workspace: Seq<char>, owner: Seq<char>, now: u64) -> bool {
    exists|i: int| 0 <= i < requests.len() && stops(#[trigger] requests[i], workspace, owner, now)
}

/// Whether the driver that `owner` has of a workspace is asked for.
pub fn workspace_is_draining(requests: &Vec<DriverHandoffRequest>, workspace: &str, owner: &str, now: u64) -> (r: bool)
    ensures
        r == draining(requests@, workspace@, owner@, now),
{
    let mut i: usize = 0;
    while i < requests.len()
        invariant
            i <= requests.len(),
            forall|k: int| 0 <= k < i ==> !stops(#[trigger] requests@[k], workspace@, owner@, now),
        decreases requests.len() - i,
    {
        let q = &requests[i];
        if str_eq(q.workspace_session_id.as_str(), workspace) && opt_eq(&q.previous_owner, owner) && q.expires_at > now
            && open_state(q.state) {
            assert(stops(requests@[i as int], workspace@, owner@, now));
            return true;
        }
        i += 1;
    }
    false
}

/// Whether a task keeps the driver of a workspace busy.
pub open spec fn task_holds(t: Task, workspace: Seq<char>) -> bool {
    t.workspace_session_id@ == workspace && (t.state == TaskState::Queued || t.state == TaskState::Running || t.state
        == TaskState::Cancelling)
}

/// Whether something is being written to a workspace.
pub open spec fn busy_workspace(tasks: Seq<Task>, mutations: Seq<AgentMutationOperation>, workspace: Seq<char>) -> bool {
    ||| exists|i: int| 0 <= i < tasks.len() && task_holds(#[trigger] tasks[i], workspace)
    ||| exists|i: int| 0 <= i < mutations.len() && (#[trigger] mutations[i]).workspace_session_id@ == workspace
}

/// Whether tasks or the writes of agents are under way in a workspace.
pub fn workspace_busy(tasks: &TaskTable, mutations: &Vec<AgentMutationOperation>, workspace: &str) -> (r: bool)
    ensures
        r == busy_workspace(tasks.tasks@, mutations@, workspace@),
{
    let mut i: usize = 0;
    while i < tasks.tasks.len()
        invariant
            i <= tasks.tasks.len(),
            forall|k: int| 0 <= k < i ==> !task_holds(#[trigger] tasks.tasks@[k], workspace@),
        decreases tasks.tasks.len() - i,
    {
        let t = &tasks.tasks[i];
        if str_eq(t.workspace_session_id.as_str(), workspace) && (t.state == TaskState::Queued || t.state
            == TaskState::Running || t.state == TaskState::Cancelling) {
            assert(task_holds(tasks.tasks@[i as int], workspace@));
            return true;
        }
        i += 1;
    }
    let mut j: usize = 0;
    while j < mutations.len()
        invariant
            j <= mutations.len(),
            forall|k: int| 0 <= k < j ==> (#[trigger] mutations@[k]).workspace_session_id@ != workspace@,
        decreases mutations.len() - j,
    {
        if str_eq(mutations[j].workspace_session_id.as_str(), workspace) {
            return true;
        }
        j += 1;
    }
    false
}

/// A request for a driver as it stands at a time: one that is past its end has expired, and one
/// whose workspace is quiet is ready.
pub open spec fn refreshed(q: DriverHandoffRequest, workspace: Seq<char>, busy: bool, now: u64) -> DriverHandoffRequest {
    if q.workspace_session_id@ != workspace || !is_open(q.state) {
        q
    } else if q.expires_at <= now {
        DriverHandoffRequest { state: DriverHandoffState::Expired, ..q }
    } else if !busy {
        DriverHandoffRequest { state: DriverHandoffState::Ready, ..q }
    } else {
        q
    }
}

/// The requests for drivers as they stand at a time.
pub open spec fn all_refreshed(requests: Seq<DriverHandoffRequest>, workspace: Seq<char>, busy: bool, now: u64) -> Seq<
    DriverHandoffRequest,
> {
    requests.map_values(|q: DriverHandoffRequest| refreshed(q, workspace, busy, now))
}

/// The leases after what a requester asked for was withdrawn, where it was asked for.
pub open spec fn withdrawn(t: LeasesView, resource: Seq<char>, requester: Seq<char>, now: u64) -> LeasesView {
    match t.held(resource) {
        Some(l) => if opt_text(l.handoff_to) == Some(requester) {
            t.put(Lease { updated_at: now, handoff_to: None, ..l })
        } else {
            t
        },
        None => t,
    }
}

/// Whether a request for a driver that is held expires.
pub open spec fn lapses(q: DriverHandoffRequest, workspace: Seq<char>, now: u64) -> bool {
    q.workspace_session_id@ == workspace && is_open(q.state) && q.expires_at <= now && q.previous_owner is Some
}

/// The leases after the first `n` requests were looked at: what the expired ones asked for is
/// withdrawn.
pub open spec fn leases_after(t: LeasesView, requests: Seq<DriverHandoffRequest>, workspace: Seq<char>, now: u64, n: int) -> LeasesView
    decreases n,
{
    if n <= 0 {
        t
    } else {
        let before = leases_after(t, requests, workspace, now, n - 1);
        let q = requests[n - 1];
        if lapses(q, workspace, now) {
            withdrawn(before, q.resource@, q.requested_by@, now)
        } else {
            before
        }
    }
}

/// Whether the table of leases and the requests are others that were refreshed for a workspace.
pub open spec fn refreshes(
    requests: Seq<DriverHandoffRequest>,
    leases: LeasesView,
    old_requests: Seq<DriverHandoffRequest>,
    old_leases: LeasesView,
    workspace: Seq<char>,
    busy: bool,
    now: u64,
) -> bool {
    &&& requests == all_refreshed(old_requests, workspace, busy, now)
    &&& leases == leases_after(old_leases, old_requests, workspace, now, old_requests.len() as int)
}

/// Brings the requests for the driver of a workspace up to date: those past their end expire,
/// and what they asked for is withdrawn; the others become ready once nothing is written to the
/// workspace. The result says whether anything changed.
pub fn refresh_driver_handoff(
    requests: &mut Vec<DriverHandoffRequest>,
    leases: &mut LeaseTable,
    workspace: &str,
    busy: bool,
    now: u64,
) -> (r: bool)
    requires
        old(leases)@.wf(),
    ensures
        final(leases)@.wf(),
        refreshes(final(requests)@, final(leases)@, old(requests)@, old(leases)@, workspace@, busy, now),
        r == (final(requests)@ != old(requests)@),
{
    let ghost start = requests@;
    let ghost table = leases@;
    let mut changed = false;
    let mut i: usize = 0;
    while i < requests.len()
        invariant
            i <= requests.len(),
            requests@.len() == start.len(),
            leases@.wf(),
            leases@ == leases_after(table, start, workspace@, now, i as int),
            forall|k: int| 0 <= k < i ==> #[trigger] requests@[k] == refreshed(start[k], workspace@, busy, now),
            forall|k: int| i <= k < start.len() ==> #[trigger] requests@[k] == start[k],
            changed ==> exists|k: int| 0 <= k < i && (#[trigger] requests@[k]) != start[k],
            !changed ==> forall|k: int| 0 <= k < i ==> #[trigger] requests@[k] == start[k],
        decreases requests.len() - i,
    {
        if str_eq(requests[i].workspace_session_id.as_str(), workspace) && open_state(requests[i].state) {
            if requests[i].expires_at <= now {
                if requests[i].previous_owner.is_some() {
                    let _ = leases.cancel_handoff(requests[i].resource.as_str(), requests[i].requested_by.as_str(), now);
                }
                requests[i].state = DriverHandoffState::Expired;
                changed = true;
                assert(requests@[i as int] != start[i as int]);
            } else if !busy && requests[i].state != DriverHandoffState::Ready {
                requests[i].state = DriverHandoffState::Ready;
                changed = true;
                assert(requests@[i as int] != start[i as int]);
            }
        }
        assert(requests@[i as int] == refreshed(start[i as int], workspace@, busy, now));
        i += 1;
    }
    proof {
        assert(requests@ =~= all_refreshed(start, workspace@, busy, now));
        if !changed {
            assert(requests@ =~= start);
        }
    }
    changed
}

/// What a write of an agent that begins holds.
pub open spec fn mutation_begins(
    m: AgentMutationOperation,
    id: Seq<char>,
    workspace: Seq<char>,
    agent: Seq<char>,
    tool: Seq<char>,
    now: u64,
) -> bool {
    m.id@ == id && m.workspace_session_id@ == workspace && m.agent_id@ == agent && m.tool@ == tool && m.started_at == now
}

/// Notes that an agent begins to write to a workspace, unless its driver is asked for. A write
/// that was noted already is not noted again.
pub fn start_mutation(
    mutations: &mut Vec<AgentMutationOperation>,
    requests: &Vec<DriverHandoffRequest>,
    params: &Json,
    now: u64,
) -> (r: Result<AgentMutationOperation, RpcError>)
    ensures
        ({
            let p = params@;
            let same = final(mutations)@ == old(mutations)@;
            match (need(p, "workspaceSessionId"@), need(p, "agentId"@)) {
                (Err(e), _) => fails(r, e) && same,
                (Ok(_), Err(e)) => fails(r, e) && same,
                (Ok(workspace), Ok(agent)) => if draining(requests@, workspace, agent, now) {
                    fails(
                        r,
                        rpc_error(
                            "DRIVER_DRAINING"@,
                            "workspace driver is draining; mutation hook rejected new write"@,
                        ),
                    ) && same
                } else {
                    match (need(p, "operationId"@), need(p, "tool"@)) {
                        (Err(e), _) => fails(r, e) && same,
                        (Ok(_), Err(e)) => fails(r, e) && same,
                        (Ok(id), Ok(tool)) => {
                            &&& r matches Ok(m) && mutation_begins(m, id, workspace, agent, tool, now) && (if position_of(
                                old(mutations)@,
                                id,
                            ) is Some {
                                same
                            } else {
                                final(mutations)@ == old(mutations)@.push(m)
                            })
                        },
                    }
                },
            }
        }),
{
    let workspace = match required_str(params, "workspaceSessionId") {
        Ok(s) => s,
        Err(e) => return Err(e),
    };
    let agent = match required_str(params, "agentId") {
        Ok(s) => s,
        Err(e) => return Err(e),
    };
    if workspace_is_draining(requests, workspace, agent, now) {
        return Err(
            RpcError::new("DRIVER_DRAINING", "workspace driver is draining; mutation hook rejected new write"),
        );
    }
    let id = match required_str(params, "operationId") {
        Ok(s) => s,
        Err(e) => return Err(e),
    };
    let tool = match required_str(params, "tool") {
        Ok(s) => s,
        Err(e) => return Err(e),
    };
    let m = AgentMutationOperation {
        id: id.to_owned(),
        workspace_session_id: workspace.to_owned(),
        agent_id: agent.to_owned(),
        tool: tool.to_owned(),
        started_at: now,
    };
    if position(mutations, id).is_none() {
        mutations.push(m.clone());
    }
    Ok(m)
}

/// Notes that a write of an agent is over, and brings the requests for the driver of the
/// workspace up to date.
pub fn finish_mutation(
    mutations: &mut Vec<AgentMutationOperation>,
    requests: &mut Vec<DriverHandoffRequest>,
    leases: &mut LeaseTable,
    tasks: &TaskTable,
    params: &Json,
    now: u64,
) -> (r: Result<(), RpcError>)
    requires
        old(leases)@.wf(),
    ensures
        final(leases)@.wf(),
        match (need(params@, "operationId"@), need(params@, "workspaceSessionId"@)) {
            (Err(e), _) => fails(r, e) && final(mutations)@ == old(mutations)@ && final(requests)@ == old(requests)@
                && final(leases)@ == old(leases)@,
            (Ok(_), Err(e)) => fails(r, e) && final(mutations)@ == old(mutations)@ && final(requests)@ == old(
                requests,
            )@ && final(leases)@ == old(leases)@,
            (Ok(id), Ok(workspace)) => {
                &&& r is Ok
                &&& final(mutations)@ == without(old(mutations)@, id)
                &&& refreshes(
                    final(requests)@,
                    final(leases)@,
                    old(requests)@,
                    old(leases)@,
                    workspace,
                    busy_workspace(tasks.tasks@, final(mutations)@, workspace),
                    now,
                )
            },
        },
{
    let id = match required_str(params, "operationId") {
        Ok(s) => s,
        Err(e) => return Err(e),
    };
    let workspace = match required_str(params, "workspaceSessionId") {
        Ok(s) => s,
        Err(e) => return Err(e),
    };
    remove_by(mutations, id);
    let busy = workspace_busy(tasks, mutations, workspace);
    refresh_driver_handoff(requests, leases, workspace, busy, now);
    Ok(())
}

/// What a request for the driver of a workspace holds when it is made.
pub open spec fn asks(
    q: DriverHandoffRequest,
    id: Seq<char>,
    workspace: Seq<char>,
    requester: Seq<char>,
    lease: Option<Lease>,
    now: u64,
    ttl: u64,
) -> bool {
    &&& q.id@ == id
    &&& q.workspace_session_id@ == workspace
    &&& q.resource@ == "workspace:"@ + workspace
    &&& q.requested_by@ == requester
    &&& opt_text(q.previous_owner) == (match lease {
        Some(l) => Some(l.owner@),
        None => None,
    })
    &&& q.state == (if lease is Some {
        DriverHandoffState::Draining
    } else {
        DriverHandoffState::Ready
    })
    &&& q.created_at == now
    &&& q.expires_at == later(now, ttl)
    &&& q.completed_at is None
}

/// Whether leases are others in which a resource that is held is promised to a requester.
pub open spec fn promised(after: LeasesView, before: LeasesView, l: Lease, requester: Seq<char>, now: u64) -> bool {
    exists|p: Lease|
        #![trigger before.put(p)]
        after == before.put(p) && opt_text(p.handoff_to) == Some(requester) && p == (Lease {
            updated_at: now,
            handoff_to: p.handoff_to,
            ..l
        })
}

/// What asking for the driver of a workspace does to the leases: a driver that is held is
/// promised to the requester, unless it is promised to another or the requester has it.
pub open spec fn promise_refusal(t: LeasesView, resource: Seq<char>, requester: Seq<char>) -> Option<RpcErrorView> {
    match t.held(resource) {
        None => None,
        Some(l) => if l.owner@ == requester {
            Some(rpc_error("ALREADY_DRIVER"@, "requester already owns workspace driver"@))
        } else if l.handoff_to is Some && opt_text(l.handoff_to) != Some(requester) {
            Some(lease_rpc(LeaseError::InvalidHandoff))
        } else {
            None
        },
    }
}

/// Asks for the driver of a workspace. A driver that somebody holds is promised to the requester,
/// and drains before it can be taken; one that nobody holds is ready.
pub fn request_driver(
    requests: &mut Vec<DriverHandoffRequest>,
    leases: &mut LeaseTable,
    tasks: &TaskTable,
    mutations: &Vec<AgentMutationOperation>,
    params: &Json,
    now: u64,
    id: &str,
) -> (r: Result<DriverHandoffRequest, RpcError>)
    requires
        old(leases)@.wf(),
    ensures
        final(leases)@.wf(),
        ({
            let p = params@;
            let same = final(requests)@ == old(requests)@ && final(leases)@ == old(leases)@;
            match (need(p, "workspaceSessionId"@), need(p, "owner"@)) {
                (Err(e), _) => fails(r, e) && same,
                (Ok(_), Err(e)) => fails(r, e) && same,
                (Ok(workspace), Ok(requester)) => {
                    let resource = "workspace:"@ + workspace;
                    match promise_refusal(old(leases)@, resource, requester) {
                        Some(e) => fails(r, e) && same,
                        None => {
                            &&& r matches Ok(q) && asks(
                                q,
                                id@,
                                workspace,
                                requester,
                                old(leases)@.held(resource),
                                now,
                                p.u64_or("ttlMs"@, LEASE_TTL_MS),
                            )
                            &&& exists|t: LeasesView|
                                #![trigger leases_after(t, old(requests)@.push(r->Ok_0), workspace, now, old(requests)@.len() as int + 1)]
                                (match old(leases)@.held(resource) {
                                    Some(l) => promised(t, old(leases)@, l, requester, now),
                                    None => t == old(leases)@,
                                }) && final(requests)@ == all_refreshed(
                                    old(requests)@.push(r->Ok_0),
                                    workspace,
                                    busy_workspace(tasks.tasks@, mutations@, workspace),
                                    now,
                                ) && final(leases)@ == leases_after(
                                    t,
                                    old(requests)@.push(r->Ok_0),
                                    workspace,
                                    now,
                                    old(requests)@.len() as int + 1,
                                )
                        },
                    }
                },
            }
        }),
{
    let workspace = match required_str(params, "workspaceSessionId") {
        Ok(s) => s,
        Err(e) => return Err(e),
    };
    let requester = match required_str(params, "owner") {
        Ok(s) => s,
        Err(e) => return Err(e),
    };
    let ttl_ms = params.u64_or("ttlMs", LEASE_TTL_MS);
    let resource = concat2("workspace:", workspace);
    let ghost before = leases@;
    let previous_owner = match leases.get(resource.as_str()) {
        Some(l) => Some(l.owner.clone()),
        None => None,
    };
    if let Some(owner) = &previous_owner {
        if str_eq(owner.as_str(), requester) {
            return Err(RpcError::new("ALREADY_DRIVER", "requester already owns workspace driver"));
        }
        if let Err(e) = leases.request_handoff(resource.as_str(), requester, now) {
            return Err(map_lease_error(e));
        }
    }
    let ghost table = leases@;
    let state = if previous_owner.is_some() {
        DriverHandoffState::Draining
    } else {
        DriverHandoffState::Ready
    };
    let q = DriverHandoffRequest {
        id: id.to_owned(),
        workspace_session_id: workspace.to_owned(),
        resource,
        requested_by: requester.to_owned(),
        previous_owner,
        state,
        created_at: now,
        expires_at: end_of(now, ttl_ms),
        completed_at: None,
    };
    requests.push(q.clone());
    let ghost pushed = requests@;
    let busy = workspace_busy(tasks, mutations, workspace);
    refresh_driver_handoff(requests, leases, workspace, busy, now);
    proof {
        assert(pushed == old(requests)@.push(q));
        assert(leases@ == leases_after(table, pushed, workspace@, now, old(requests)@.len() as int + 1));
    }
    Ok(q)
}

/// Whether a request is a requester's, for a workspace, and not met or given up.
pub open spec fn pending(q: DriverHandoffRequest, workspace: Seq<char>, requester: Seq<char>, with_requested: bool) -> bool {
    q.workspace_session_id@ == workspace && q.requested_by@ == requester && (q.state == DriverHandoffState::Ready
        || q.state == DriverHandoffState::Draining || (with_requested && q.state == DriverHandoffState::Requested))
}

/// The last request below a bound that is pending.
pub open spec fn last_pending(
    requests: Seq<DriverHandoffRequest>,
    workspace: Seq<char>,
    requester: Seq<char>,
    with_requested: bool,
    n: int,
) -> Option<int>
    decreases n,
{
    if n <= 0 {
        None
    } else if pending(requests[n - 1], workspace, requester, with_requested) {
        Some(n - 1)
    } else {
        last_pending(requests, workspace, requester, with_requested, n - 1)
    }
}

fn find_pending(requests: &Vec<DriverHandoffRequest>, workspace: &str, requester: &str, with_requested: bool) -> (r: Option<usize>)
    ensures
        match r {
            Some(i) => i < requests@.len() && last_pending(
                requests@,
                workspace@,
                requester@,
                with_requested,
                requests@.len() as int,
            ) == Some(i as int),
            None => last_pending(requests@, workspace@, requester@, with_requested, requests@.len() as int) is None,
        },
{
    let mut i: usize = requests.len();
    while i > 0
        invariant
            i <= requests.len(),
            last_pending(requests@, workspace@, requester@, with_requested, requests@.len() as int) == last_pending(
                requests@,
                workspace@,
                requester@,
                with_requested,
                i as int,
            ),
        decreases i,
    {
        i -= 1;
        let q = &requests[i];
        if str_eq(q.workspace_session_id.as_str(), workspace) && str_eq(q.requested_by.as_str(), requester) && (q.state
            == DriverHandoffState::Ready || q.state == DriverHandoffState::Draining || (with_requested && q.state
            == DriverHandoffState::Requested)) {
            return Some(i);
        }
    }
    None
}

/// The error that a requester has no request for a driver.
pub open spec fn no_request() -> RpcErrorView {
    rpc_error("DRIVER_HANDOFF_NOT_FOUND"@, "no active handoff request"@)
}

/// What taking a driver that was asked for gives, from the refreshed requests `q` and leases `t`.
pub open spec fn awaits(
    r: Result<Lease, RpcError>,
    requests: Seq<DriverHandoffRequest>,
    leases: LeasesView,
    q: Seq<DriverHandoffRequest>,
    t: LeasesView,
    workspace: Seq<char>,
    requester: Seq<char>,
    params: JsonView,
    now: u64,
    id: Seq<char>,
    token: Seq<char>,
) -> bool {
    let resource = "workspace:"@ + workspace;
    match last_pending(q, workspace, requester, false, q.len() as int) {
        None => fails(r, no_request()) && requests == q && leases == t,
        Some(i) => if q[i].state != DriverHandoffState::Ready {
            fails(r, retryable_error("DRIVER_HANDOFF_DRAINING"@, "current writer is still draining"@)) && requests == q
                && leases == t
        } else {
            &&& if q[i].previous_owner is Some {
                match t.held(resource) {
                    None => fails(r, lease_rpc(LeaseError::NotFound)) && leases == t,
                    Some(l) => takes(r, leases, t, l, requester, params, now, id, token),
                }
            } else {
                acquires(r, leases, t, LeaseKind::Driver, resource, requester, params, now, id, token)
            }
            &&& requests == (if r is Ok {
                q.update(
                    i,
                    DriverHandoffRequest {
                        state: DriverHandoffState::Completed,
                        completed_at: Some(now),
                        ..q[i]
                    },
                )
            } else {
                q
            })
        },
    }
}

/// Takes the driver of a workspace that the requester asked for, once it is ready. The new lease
/// has a greater fence and a token of its own.
pub fn await_driver(
    requests: &mut Vec<DriverHandoffRequest>,
    leases: &mut LeaseTable,
    tasks: &TaskTable,
    mutations: &Vec<AgentMutationOperation>,
    params: &Json,
    now: u64,
    id: &str,
    token: &str,
) -> (r: Result<Lease, RpcError>)
    requires
        old(leases)@.wf(),
    ensures
        final(leases)@.wf(),
        ({
            let p = params@;
            let same = final(requests)@ == old(requests)@ && final(leases)@ == old(leases)@;
            match (need(p, "workspaceSessionId"@), need(p, "owner"@)) {
                (Err(e), _) => fails(r, e) && same,
                (Ok(_), Err(e)) => fails(r, e) && same,
                (Ok(workspace), Ok(requester)) => awaits(
                    r,
                    final(requests)@,
                    final(leases)@,
                    all_refreshed(
                        old(requests)@,
                        workspace,
                        busy_workspace(tasks.tasks@, mutations@, workspace),
                        now,
                    ),
                    leases_after(old(leases)@, old(requests)@, workspace, now, old(requests)@.len() as int),
                    workspace,
                    requester,
                    p,
                    now,
                    id@,
                    token@,
                ),
            }
        }),
{
    let workspace = match required_str(params, "workspaceSessionId") {
        Ok(s) => s,
        Err(e) => return Err(e),
    };
    let requester = match required_str(params, "owner") {
        Ok(s) => s,
        Err(e) => return Err(e),
    };
    let busy = workspace_busy(tasks, mutations, workspace);
    refresh_driver_handoff(requests, leases, workspace, busy, now);
    let resource = concat2("workspace:", workspace);
    let ttl_ms = params.u64_or("ttlMs", LEASE_TTL_MS);
    let i = match find_pending(requests, workspace, requester, false) {
        Some(i) => i,
        None => return Err(RpcError::new("DRIVER_HANDOFF_NOT_FOUND", "no active handoff request")),
    };
    if requests[i].state != DriverHandoffState::Ready {
        return Err(RpcError::transient("DRIVER_HANDOFF_DRAINING", "current writer is still draining"));
    }
    let ghost q = requests@;
    let ghost t = leases@;
    proof {
        crate::table::lemma_position_from(leases@.leases, resource@, 0);
    }
    let taken = if requests[i].previous_owner.is_some() {
        leases.take_handoff(resource.as_str(), requester, ttl_ms, now, id, token)
    } else {
        leases.acquire(LeaseKind::Driver, resource.as_str(), requester, ttl_ms, now, id, token)
    };
    match taken {
        Ok(lease) => {
            requests[i].state = DriverHandoffState::Completed;
            requests[i].completed_at = Some(now);
            proof {
                assert(granted(leases@, t, lease));
                assert(requests@ =~= q.update(
                    i as int,
                    DriverHandoffRequest { state: DriverHandoffState::Completed, completed_at: Some(now), ..q[i as int] },
                ));
            }
            Ok(lease)
        },
        Err(e) => Err(map_lease_error(e)),
    }
}

/// Withdraws the last request of a requester for the driver of a workspace.
pub fn cancel_driver(requests: &mut Vec<DriverHandoffRequest>, leases: &mut LeaseTable, params: &Json, now: u64) -> (r: Result<
    (),
    RpcError,
>)
    requires
        old(leases)@.wf(),
    ensures
        final(leases)@.wf(),
        ({
            let p = params@;
            let same = final(requests)@ == old(requests)@ && final(leases)@ == old(leases)@;
            match (need(p, "workspaceSessionId"@), need(p, "owner"@)) {
                (Err(e), _) => fails(r, e) && same,
                (Ok(_), Err(e)) => fails(r, e) && same,
                (Ok(workspace), Ok(requester)) => {
                    let resource = "workspace:"@ + workspace;
                    match last_pending(old(requests)@, workspace, requester, true, old(requests)@.len() as int) {
                        None => fails(r, no_request()) && same,
                        Some(i) => {
                            let q = old(requests)@[i];
                            let gone = old(requests)@.update(
                                i,
                                DriverHandoffRequest { state: DriverHandoffState::Cancelled, ..q },
                            );
                            if q.previous_owner is Some {
                                match old(leases)@.held(resource) {
                                    None => fails(r, lease_rpc(LeaseError::NotFound)) && same,
                                    Some(l) => if opt_text(l.handoff_to) != Some(requester) {
                                        fails(r, lease_rpc(LeaseError::InvalidHandoff)) && same
                                    } else {
                                        r is Ok && final(requests)@ == gone && final(leases)@ == withdrawn(
                                            old(leases)@,
                                            resource,
                                            requester,
                                            now,
                                        )
                                    },
                                }
                            } else {
                                r is Ok && final(requests)@ == gone && final(leases)@ == old(leases)@
                            }
                        },
                    }
                },
            }
        }),
{
    let workspace = match required_str(params, "workspaceSessionId") {
        Ok(s) => s,
        Err(e) => return Err(e),
    };
    let requester = match required_str(params, "owner") {
        Ok(s) => s,
        Err(e) => return Err(e),
    };
    let resource = concat2("workspace:", workspace);
    let i = match find_pending(requests, workspace, requester, true) {
        Some(i) => i,
        None => return Err(RpcError::new("DRIVER_HANDOFF_NOT_FOUND", "no active handoff request")),
    };
    if requests[i].previous_owner.is_some() {
        if let Err(e) = leases.cancel_handoff(resource.as_str(), requester, now) {
            return Err(map_lease_error(e));
        }
    }
    requests[i].state = DriverHandoffState::Cancelled;
    Ok(())
}

/// The newest of the first `n` requests for the driver of a workspace; of those of one time, the
/// last.
pub open spec fn newest(requests: Seq<DriverHandoffRequest>, workspace: Seq<char>, n: int) -> Option<int>
    decreases n,
{
    if n <= 0 {
        None
    } else {
        let before = newest(requests, workspace, n - 1);
        if requests[n - 1].workspace_session_id@ != workspace {
            before
        } else {
            match before {
                Some(i) => if requests[i].created_at > requests[n - 1].created_at {
                    Some(i)
                } else {
                    Some(n - 1)
                },
                None => Some(n - 1),
            }
        }
    }
}

/// The newest request for the driver of a workspace, after the requests are brought up to date.
pub fn driver_handoff_status(
    requests: &mut Vec<DriverHandoffRequest>,
    leases: &mut LeaseTable,
    tasks: &TaskTable,
    mutations: &Vec<AgentMutationOperation>,
    params: &Json,
    now: u64,
) -> (r: Result<Option<DriverHandoffRequest>, RpcError>)
    requires
        old(leases)@.wf(),
    ensures
        final(leases)@.wf(),
        match need(params@, "workspaceSessionId"@) {
            Err(e) => fails(r, e) && final(requests)@ == old(requests)@ && final(leases)@ == old(leases)@,
            Ok(workspace) => {
                &&& refreshes(
                    final(requests)@,
                    final(leases)@,
                    old(requests)@,
                    old(leases)@,
                    workspace,
                    busy_workspace(tasks.tasks@, mutations@, workspace),
                    now,
                )
                &&& r == Ok::<Option<DriverHandoffRequest>, RpcError>(
                    match newest(final(requests)@, workspace, final(requests)@.len() as int) {
                        Some(i) => Some(final(requests)@[i]),
                        None => None,
                    },
                )
            },
        },
{
    let workspace = match required_str(params, "workspaceSessionId") {
        Ok(s) => s,
        Err(e) => return Err(e),
    };
    let busy = workspace_busy(tasks, mutations, workspace);
    refresh_driver_handoff(requests, leases, workspace, busy, now);
    let mut best: Option<usize> = None;
    let mut i: usize = 0;
    while i < requests.len()
        invariant
            i <= requests.len(),
            match best {
                Some(b) => b < i && newest(requests@, workspace@, i as int) == Some(b as int),
                None => newest(requests@, workspace@, i as int) is None,
            },
        decreases requests.len() - i,
    {
        if str_eq(requests[i].workspace_session_id.as_str(), workspace) {
            best = match best {
                Some(b) => if requests[b].created_at > requests[i].created_at {
                    Some(b)
                } else {
                    Some(i)
                },
                None => Some(i),
            };
        }
        i += 1;
    }
    match best {
        Some(b) => Ok(Some(requests[b].clone())),
        None => Ok(None),
    }
}

/// The holder of a driver that is asked for may not write until the request is met, given up or
/// past its end: bringing the requests up to date leaves it stopped.
pub proof fn writer_stays_stopped(
    requests: Seq<DriverHandoffRequest>,
    workspace: Seq<char>,
    owner: Seq<char>,
    refreshed_workspace: Seq<char>,
    busy: bool,
    now: u64,
    then: u64,
)
    requires
        draining(requests, workspace, owner, then),
        now <= then,
    ensures
        draining(all_refreshed(requests, refreshed_workspace, busy, now), workspace, owner, then),
{
    let i = choose|i: int| 0 <= i < requests.len() && stops(#[trigger] requests[i], workspace, owner, then);
    let after = all_refreshed(requests, refreshed_workspace, busy, now);
    assert(after[i] == refreshed(requests[i], refreshed_workspace, busy, now));
    assert(stops(after[i], workspace, owner, then));
}

/// While something is written to a workspace, no request for its driver becomes ready.
pub proof fn busy_workspace_keeps_its_driver(q: DriverHandoffRequest, workspace: Seq<char>, now: u64)
    requires
        q.state != DriverHandoffState::Ready,
    ensures
        refreshed(q, workspace, true, now).state != DriverHandoffState::Ready,
{
}

/// Once a workspace is quiet, a request for its driver that is not past its end is ready.
pub proof fn quiet_workspace_yields_its_driver(q: DriverHandoffRequest, now: u64)
    requires
        is_open(q.state),
        q.expires_at > now,
    ensures
        refreshed(q, q.workspace_session_id@, false, now).state == DriverHandoffState::Ready,
{
}

/// While a task of a workspace is queued, running or being cancelled, or while an agent writes to
/// it, no request for its driver becomes ready: each one stays as it is, or ends with its time.
pub proof fn request_waits_for_the_writer(
    requests: Seq<DriverHandoffRequest>,
    tasks: Seq<Task>,
    mutations: Seq<AgentMutationOperation>,
    workspace: Seq<char>,
    now: u64,
    k: int,
)
    requires
        0 <= k < requests.len(),
        (exists|i: int|
            0 <= i < tasks.len() && (#[trigger] tasks[i]).workspace_session_id@ == workspace && (tasks[i].state
                == TaskState::Queued || tasks[i].state == TaskState::Running || tasks[i].state == TaskState::Cancelling))
            || (exists|i: int|
            0 <= i < mutations.len() && (#[trigger] mutations[i]).workspace_session_id@ == workspace),
    ensures
        ({
            let after = all_refreshed(requests, workspace, busy_workspace(tasks, mutations, workspace), now);
            let q = requests[k];
            &&& after.len() == requests.len()
            &&& after[k] == (DriverHandoffRequest { state: after[k].state, ..q })
            &&& after[k].state == DriverHandoffState::Ready ==> q.state == DriverHandoffState::Ready
            &&& after[k].state != q.state ==> after[k].state == DriverHandoffState::Expired && q.expires_at <= now
                && q.workspace_session_id@ == workspace
            &&& q.workspace_session_id@ == workspace && q.state == DriverHandoffState::Draining ==> after[k].state == (
            if q.expires_at <= now {
                DriverHandoffState::Expired
            } else {
                DriverHandoffState::Draining
            })
        }),
{
    if exists|i: int|
        0 <= i < tasks.len() && (#[trigger] tasks[i]).workspace_session_id@ == workspace && (tasks[i].state
            == TaskState::Queued || tasks[i].state == TaskState::Running || tasks[i].state == TaskState::Cancelling) {
        let i = choose|i: int|
            0 <= i < tasks.len() && (#[trigger] tasks[i]).workspace_session_id@ == workspace && (tasks[i].state
                == TaskState::Queued || tasks[i].state == TaskState::Running || tasks[i].state == TaskState::Cancelling);
        assert(task_holds(tasks[i], workspace));
    }
    assert(busy_workspace(tasks, mutations, workspace));
}

/// Once no task of a workspace is queued, running or being cancelled and no agent writes to it,
/// every request for its driver that waits is ready, unless its time is over.
pub proof fn request_is_ready_once_the_writer_is_done(
    requests: Seq<DriverHandoffRequest>,
    tasks: Seq<Task>,
    mutations: Seq<AgentMutationOperation>,
    workspace: Seq<char>,
    now: u64,
    k: int,
)
    requires
        0 <= k < requests.len(),
        requests[k].workspace_session_id@ == workspace,
        forall|i: int|
            0 <= i < tasks.len() && (#[trigger] tasks[i]).workspace_session_id@ == workspace ==> tasks[i].state
                != TaskState::Queued && tasks[i].state != TaskState::Running && tasks[i].state != TaskState::Cancelling,
        forall|i: int| 0 <= i < mutations.len() ==> (#[trigger] mutations[i]).workspace_session_id@ != workspace,
    ensures
        all_refreshed(requests, workspace, busy_workspace(tasks, mutations, workspace), now)[k].state == (
        match requests[k].state {
            DriverHandoffState::Requested | DriverHandoffState::Draining | DriverHandoffState::Ready => if requests[k].expires_at
                <= now {
                DriverHandoffState::Expired
            } else {
                DriverHandoffState::Ready
            },
            DriverHandoffState::Completed => DriverHandoffState::Completed,
            DriverHandoffState::Cancelled => DriverHandoffState::Cancelled,
            DriverHandoffState::Expired => DriverHandoffState::Expired,
        }),
{
    assert(!busy_workspace(tasks, mutations, workspace)) by {
        assert forall|i: int| 0 <= i < tasks.len() implies !task_holds(#[trigger] tasks[i], workspace) by {}
    }
}

/// Whether two leases give one owner the same leave.
pub open spec fn same_leave(a: Option<Lease>, b: Option<Lease>) -> bool {
    match (a, b) {
        (Some(x), Some(y)) => {
            &&& x.owner == y.owner
            &&& x.token == y.token
            &&& x.fence == y.fence
            &&& x.resource == y.resource
            &&& x.expires_at == y.expires_at
        },
        (None, None) => true,
        _ => false,
    }
}

proof fn lemma_leave_stays(t: LeasesView, requests: Seq<DriverHandoffRequest>, workspace: Seq<char>, now: u64, n: int, resource: Seq<char>)
    requires
        t.wf(),
        n <= requests.len(),
    ensures
        leases_after(t, requests, workspace, now, n).wf(),
        same_leave(leases_after(t, requests, workspace, now, n).held(resource), t.held(resource)),
    decreases n,
{
    if n > 0 {
        lemma_leave_stays(t, requests, workspace, now, n - 1, resource);
        let before = leases_after(t, requests, workspace, now, n - 1);
        let q = requests[n - 1];
        if lapses(q, workspace, now) {
            crate::table::lemma_position_from(before.leases, q.resource@, 0);
            if let Some(l) = before.held(q.resource@) {
                let p = Lease { updated_at: now, handoff_to: None, ..l };
                assert(l.resource@ == q.resource@);
                crate::lease::lemma_put(before, p);
                crate::table::upserted_record_is_found(before.leases, p, resource);
            }
        }
    }
}

proof fn lemma_pending(requests: Seq<DriverHandoffRequest>, workspace: Seq<char>, requester: Seq<char>, n: int)
    requires
        n <= requests.len(),
    ensures
        match last_pending(requests, workspace, requester, false, n) {
            Some(i) => 0 <= i < n && pending(requests[i], workspace, requester, false) && forall|k: int|
                i < k < n ==> !pending(#[trigger] requests[k], workspace, requester, false),
            None => forall|k: int| 0 <= k < n ==> !pending(#[trigger] requests[k], workspace, requester, false),
        },
    decreases n,
{
    if n > 0 {
        lemma_pending(requests, workspace, requester, n - 1);
    }
}

/// While a task of a workspace is queued, running or being cancelled, or while an agent writes to
/// it, the driver of that workspace does not pass to one whose request was not ready before: the
/// call fails, and whoever held the driver holds it as before.
pub proof fn driver_stays_while_the_workspace_is_busy(
    r: Result<Lease, RpcError>,
    requests: Seq<DriverHandoffRequest>,
    leases: LeasesView,
    old_requests: Seq<DriverHandoffRequest>,
    old_leases: LeasesView,
    tasks: Seq<Task>,
    mutations: Seq<AgentMutationOperation>,
    workspace: Seq<char>,
    requester: Seq<char>,
    params: JsonView,
    now: u64,
    id: Seq<char>,
    token: Seq<char>,
)
    requires
        old_leases.wf(),
        awaits(
            r,
            requests,
            leases,
            all_refreshed(old_requests, workspace, busy_workspace(tasks, mutations, workspace), now),
            leases_after(old_leases, old_requests, workspace, now, old_requests.len() as int),
            workspace,
            requester,
            params,
            now,
            id,
            token,
        ),
        (exists|i: int|
            0 <= i < tasks.len() && (#[trigger] tasks[i]).workspace_session_id@ == workspace && (tasks[i].state
                == TaskState::Queued || tasks[i].state == TaskState::Running || tasks[i].state == TaskState::Cancelling))
            || (exists|i: int|
            0 <= i < mutations.len() && (#[trigger] mutations[i]).workspace_session_id@ == workspace),
        forall|k: int|
            0 <= k < old_requests.len() && (#[trigger] old_requests[k]).workspace_session_id@ == workspace
                && old_requests[k].requested_by@ == requester ==> old_requests[k].state != DriverHandoffState::Ready,
    ensures
        r matches Err(e) && (e@.code == "DRIVER_HANDOFF_DRAINING"@ || e@.code == "DRIVER_HANDOFF_NOT_FOUND"@),
        (exists|k: int|
            0 <= k < old_requests.len() && (#[trigger] old_requests[k]).workspace_session_id@ == workspace
                && old_requests[k].requested_by@ == requester && old_requests[k].state == DriverHandoffState::Draining
                && old_requests[k].expires_at > now) ==> (r matches Err(e) && e@.code == "DRIVER_HANDOFF_DRAINING"@
            && e@.retryable),
        forall|resource: Seq<char>| same_leave(#[trigger] leases.held(resource), old_leases.held(resource)),
{
    let after = all_refreshed(old_requests, workspace, busy_workspace(tasks, mutations, workspace), now);
    assert forall|k: int| 0 <= k < after.len() && pending(#[trigger] after[k], workspace, requester, false) implies after[k].state
        == DriverHandoffState::Draining by {
        request_waits_for_the_writer(old_requests, tasks, mutations, workspace, now, k);
        assert(old_requests[k].requested_by@ == requester);
    }
    lemma_pending(after, workspace, requester, after.len() as int);
    if exists|k: int|
        0 <= k < old_requests.len() && (#[trigger] old_requests[k]).workspace_session_id@ == workspace
            && old_requests[k].requested_by@ == requester && old_requests[k].state == DriverHandoffState::Draining
            && old_requests[k].expires_at > now {
        let k = choose|k: int|
            0 <= k < old_requests.len() && (#[trigger] old_requests[k]).workspace_session_id@ == workspace
                && old_requests[k].requested_by@ == requester && old_requests[k].state == DriverHandoffState::Draining
                && old_requests[k].expires_at > now;
        request_waits_for_the_writer(old_requests, tasks, mutations, workspace, now, k);
        assert(pending(after[k], workspace, requester, false));
    }
    assert forall|resource: Seq<char>| same_leave(#[trigger] leases.held(resource), old_leases.held(resource)) by {
        lemma_leave_stays(old_leases, old_requests, workspace, now, old_requests.len() as int, resource);
    }
}

/// A driver that somebody holds is asked for as one that drains, and nothing but the time that was
/// asked for ends the request while the workspace is busy.
pub proof fn driver_that_is_held_drains(
    q: DriverHandoffRequest,
    id: Seq<char>,
    workspace: Seq<char>,
    requester: Seq<char>,
    lease: Lease,
    requests: Seq<DriverHandoffRequest>,
    tasks: Seq<Task>,
    mutations: Seq<AgentMutationOperation>,
    now: u64,
    ttl: u64,
    i: int,
)
    requires
        asks(q, id, workspace, requester, Some(lease), now, ttl),
        0 < ttl,
        now < u64::MAX,
        0 <= i < tasks.len(),
        tasks[i].workspace_session_id@ == workspace,
        tasks[i].state == TaskState::Queued || tasks[i].state == TaskState::Running || tasks[i].state
            == TaskState::Cancelling,
    ensures
        all_refreshed(requests.push(q), workspace, busy_workspace(tasks, mutations, workspace), now).last() == q,
        q.state == DriverHandoffState::Draining,
        q.requested_by@ == requester,
        opt_text(q.previous_owner) == Some(lease.owner@),
{
    assert(requests.push(q)[requests.len() as int] == q);
    request_waits_for_the_writer(requests.push(q), tasks, mutations, workspace, now, requests.len() as int);
}

/// A driver that is taken in the end is the requester's, under a fence above that of every lease of
/// it before, and only a request of the requester that is ready leads to it.
pub proof fn driver_passes_to_the_one_who_asked(
    r: Result<Lease, RpcError>,
    requests: Seq<DriverHandoffRequest>,
    leases: LeasesView,
    q: Seq<DriverHandoffRequest>,
    t: LeasesView,
    workspace: Seq<char>,
    requester: Seq<char>,
    params: JsonView,
    now: u64,
    id: Seq<char>,
    token: Seq<char>,
)
    requires
        t.wf(),
        awaits(r, requests, leases, q, t, workspace, requester, params, now, id, token),
        r is Ok,
        t.fence_of("workspace:"@ + workspace) < u64::MAX,
    ensures
        ({
            let resource = "workspace:"@ + workspace;
            &&& r matches Ok(lease) && lease.owner@ == requester && lease.token@ == token && lease.id@ == id
                && lease.resource@ == resource && lease.fence == t.fence_of(resource) + 1 && lease.fence
                > t.fence_of(resource) && leases.held(resource) == Some(lease)
            &&& exists|k: int|
                0 <= k < q.len() && (#[trigger] q[k]).requested_by@ == requester && q[k].workspace_session_id@
                    == workspace && q[k].state == DriverHandoffState::Ready && requests[k].state
                    == DriverHandoffState::Completed
            &&& t.busy(resource, now) ==> (t.held(resource) matches Some(l) && opt_text(l.handoff_to) == Some(requester))
        }),
{
    lemma_pending(q, workspace, requester, q.len() as int);
    crate::table::lemma_position_from(t.leases, "workspace:"@ + workspace, 0);
    let i = last_pending(q, workspace, requester, false, q.len() as int)->0;
    assert(q[i].requested_by@ == requester);
}

/// The driver of a workspace may be promised to one who asks, unless they hold it or it was promised
/// to another.
pub proof fn driver_is_promised_once(t: LeasesView, resource: Seq<char>, requester: Seq<char>)
    ensures
        promise_refusal(t, resource, requester) is None == (t.held(resource) matches Some(l) ==> l.owner@ != requester
            && (l.handoff_to matches Some(other) ==> other@ == requester)),
        (t.held(resource) matches Some(l) && l.owner@ == requester) ==> promise_refusal(t, resource, requester)->0.code
            == "ALREADY_DRIVER"@,
{
}

} // verus!
