//! Running a task on an executor: the leases under which it runs, what the executor is told, and
//! what its answer means for the task.

use crate::driver::{granted, held_error};
use crate::evidence::{artifact_from_result, artifact_of, described, described_path, retained, retained_task_output};
use crate::invoke::{started, text_of, Invocation, SubjectView};
use crate::json::{lemma_with, Json, JsonView};
use crate::lease::{
    begins, execution_fence, executor_execution_fence, fences_lease, later, lemma_drop, lemma_grant, map_lease_error,
    release_acquired, released_all, Fence, LeaseTable, LeasesView,
};
use crate::lock::{command_resources, command_resources_view, lock_view, render_lock};
use crate::rpc::{fails, need, required_str, retryable_error, rpc_error, Called, CalledView, RpcError, RpcErrorView};
use crate::schema::{
    AgentInstance, AgentState, Artifact, Lease, LeaseKind, LockTemplate, Task, TaskFailure, TaskState,
};
use crate::state::{Controller, WorkbenchState};
use crate::table::{position, position_of, removed_record_is_gone, upsert_by, upserted};
use crate::task::{allowed, task_views, TaskError, TaskFailureView, TaskTable};
use crate::task_requests::task_rpc;
use crate::text::{concat2, contains, has_text, str_eq, views};
use vstd::prelude::*;

verus! {

/// The resources of the first `n` locks of a capability.
pub open spec fn locks_upto(locks: Seq<LockTemplate>, input: JsonView, n: int) -> Result<
    Seq<Seq<char>>,
    RpcErrorView,
>
    decreases n,
{
    if n <= 0 {
        Ok(Seq::empty())
    } else {
        match locks_upto(locks, input, n - 1) {
            Err(e) => Err(e),
            Ok(before) => match lock_view(locks[n - 1].key@, input) {
                Err(e) => Err(e),
                Ok(s) => Ok(before.push(s)),
            },
        }
    }
}

/// The resources that an invocation locks: those of its capability, and those that a command that
/// changes something names.
pub open spec fn resources_view(locks: Seq<LockTemplate>, name: Seq<char>, readonly: bool, input: JsonView) -> Result<
    Seq<Seq<char>>,
    RpcErrorView,
> {
    match locks_upto(locks, input, locks.len() as int) {
        Err(e) => Err(e),
        Ok(own) => if name == "command.run"@ && !readonly {
            match command_resources_view(input) {
                Err(e) => Err(e),
                Ok(more) => Ok(own + more),
            }
        } else {
            Ok(own)
        },
    }
}

proof fn lemma_locks_stop(locks: Seq<LockTemplate>, input: JsonView, i: int, n: int)
    requires
        0 <= i <= n,
        locks_upto(locks, input, i) is Err,
    ensures
        locks_upto(locks, input, n) == locks_upto(locks, input, i),
    decreases n - i,
{
    if i < n {
        lemma_locks_stop(locks, input, i, n - 1);
    }
}

/// The resources that an invocation locks.
pub fn invocation_resources(locks: &Vec<LockTemplate>, name: &str, readonly: bool, input: &Json) -> (r: Result<
    Vec<String>,
    RpcError,
>)
    ensures
        match resources_view(locks@, name@, readonly, input@) {
            Ok(s) => r matches Ok(x) && views(x@) == s,
            Err(e) => fails(r, e),
        },
{
    let mut out: Vec<String> = Vec::new();
    assert(views(out@) =~= Seq::empty());
    let mut i: usize = 0;
    while i < locks.len()
        invariant
            i <= locks.len(),
            locks_upto(locks@, input@, i as int) == Ok::<Seq<Seq<char>>, RpcErrorView>(views(out@)),
        decreases locks.len() - i,
    {
        let s = match render_lock(locks[i].key.as_str(), input) {
            Ok(s) => s,
            Err(e) => {
                proof {
                    lemma_locks_stop(locks@, input@, i + 1, locks@.len() as int);
                }
                return Err(e);
            },
        };
        let ghost before = out@;
        out.push(s);
        assert(views(out@) =~= views(before).push(s@));
        i += 1;
    }
    if str_eq(name, "command.run") && !readonly {
        let mut more = match command_resources(input) {
            Ok(v) => v,
            Err(e) => return Err(e),
        };
        let ghost a = out@;
        let ghost b = more@;
        out.append(&mut more);
        assert(views(out@) =~= views(a) + views(b));
    }
    Ok(out)
}

/// Whether a table of leases is another with the lease of a resource granted, which nobody held.
pub open spec fn takes(
    after: LeasesView,
    before: LeasesView,
    lease: Lease,
    resource: Seq<char>,
    owner: Seq<char>,
    ttl: u64,
    now: u64,
    fresh: (String, String),
) -> bool {
    &&& !before.busy(resource, now)
    &&& granted(after, before, lease)
    &&& begins(
        lease,
        LeaseKind::Resource,
        resource,
        owner,
        fresh.0@,
        fresh.1@,
        before.next_fence(resource),
        now,
        ttl,
    )
}

/// Whether the tables of leases of a list follow on each other, each with the lease of the next
/// resource granted, which nobody held.
pub open spec fn acquisition(
    trace: Seq<LeasesView>,
    leases: Seq<Lease>,
    resources: Seq<Seq<char>>,
    owner: Seq<char>,
    ttl: u64,
    now: u64,
    fresh: Seq<(String, String)>,
) -> bool {
    &&& trace.len() == leases.len() + 1
    &&& leases.len() <= resources.len()
    &&& leases.len() <= fresh.len()
    &&& forall|k: int|
        0 <= k < leases.len() ==> takes(
            #[trigger] trace[k + 1],
            trace[k],
            leases[k],
            resources[k],
            owner,
            ttl,
            now,
            fresh[k],
        )
}

/// Whether a resource of a list can be taken once those before it were: nobody holds it, and it is
/// none of those, unless their leases ended at once.
pub open spec fn can_take(t: LeasesView, resources: Seq<Seq<char>>, ttl: u64, now: u64, k: int) -> bool {
    !t.busy(resources[k], now) && (later(now, ttl) > now ==> !resources.take(k).contains(resources[k]))
}

proof fn lemma_taken(
    trace: Seq<LeasesView>,
    leases: Seq<Lease>,
    resources: Seq<Seq<char>>,
    owner: Seq<char>,
    ttl: u64,
    now: u64,
    fresh: Seq<(String, String)>,
    k: int,
    name: Seq<char>,
)
    requires
        acquisition(trace, leases, resources, owner, ttl, now, fresh),
        trace[0].wf(),
        0 <= k <= leases.len(),
    ensures
        trace[k].wf(),
        trace[k].busy(name, now) == (trace[0].busy(name, now) || (later(now, ttl) > now && resources.take(k).contains(
            name,
        ))),
        !resources.take(k).contains(name) ==> trace[k].held(name) == trace[0].held(name),
    decreases k,
{
    if k > 0 {
        let before = trace[k - 1];
        let lease = leases[k - 1];
        let part = resources.take(k - 1);
        let whole = resources.take(k);
        lemma_taken(trace, leases, resources, owner, ttl, now, fresh, k - 1, name);
        assert(takes(trace[(k - 1) + 1], before, lease, resources[k - 1], owner, ttl, now, fresh[k - 1]));
        let fence = choose|fence: Fence|
            #![trigger before.grant(lease, fence)]
            fences_lease(fence, lease) && trace[k] == before.grant(lease, fence);
        lemma_grant(before, lease, fence, name);
        assert(whole =~= part.push(resources[k - 1]));
        assert(whole[k - 1] == resources[k - 1]);
        if part.contains(name) {
            let j = choose|j: int| 0 <= j < part.len() && part[j] == name;
            assert(whole[j] == name);
        }
    } else {
        assert(resources.take(0) =~= Seq::empty());
    }
}

/// Of the resources of a list that are taken one after the other, each could be taken, and the
/// first that cannot be is held by somebody.
pub proof fn only_free_resources_are_taken(
    trace: Seq<LeasesView>,
    leases: Seq<Lease>,
    resources: Seq<Seq<char>>,
    owner: Seq<char>,
    ttl: u64,
    now: u64,
    fresh: Seq<(String, String)>,
)
    requires
        acquisition(trace, leases, resources, owner, ttl, now, fresh),
        trace[0].wf(),
    ensures
        forall|k: int| 0 <= k < leases.len() ==> #[trigger] can_take(trace[0], resources, ttl, now, k),
        leases.len() < resources.len() ==> trace.last().busy(resources[leases.len() as int], now) == !can_take(
            trace[0],
            resources,
            ttl,
            now,
            leases.len() as int,
        ),
{
    assert forall|k: int| 0 <= k < leases.len() implies #[trigger] can_take(trace[0], resources, ttl, now, k) by {
        lemma_taken(trace, leases, resources, owner, ttl, now, fresh, k, resources[k]);
        assert(takes(trace[k + 1], trace[k], leases[k], resources[k], owner, ttl, now, fresh[k]));
    }
    if leases.len() < resources.len() {
        let n = leases.len() as int;
        lemma_taken(trace, leases, resources, owner, ttl, now, fresh, n, resources[n]);
    }
}

proof fn lemma_kept(
    trace: Seq<LeasesView>,
    leases: Seq<Lease>,
    resources: Seq<Seq<char>>,
    owner: Seq<char>,
    ttl: u64,
    now: u64,
    fresh: Seq<(String, String)>,
    j: int,
    k: int,
)
    requires
        acquisition(trace, leases, resources, owner, ttl, now, fresh),
        trace[0].wf(),
        later(now, ttl) > now,
        0 <= j < k <= leases.len(),
    ensures
        trace[k].held(resources[j]) == Some(leases[j]),
        forall|i: int| j < i < k ==> #[trigger] resources[i] != resources[j],
    decreases k,
{
    let before = trace[k - 1];
    let lease = leases[k - 1];
    assert(takes(trace[(k - 1) + 1], before, lease, resources[k - 1], owner, ttl, now, fresh[k - 1]));
    lemma_taken(trace, leases, resources, owner, ttl, now, fresh, k - 1, resources[j]);
    if j < k - 1 {
        lemma_kept(trace, leases, resources, owner, ttl, now, fresh, j, k - 1);
        assert(resources.take(k - 1)[j] == resources[j]);
        let fence = choose|fence: Fence|
            #![trigger before.grant(lease, fence)]
            fences_lease(fence, lease) && trace[k] == before.grant(lease, fence);
        lemma_grant(before, lease, fence, resources[j]);
    }
}

proof fn lemma_given_back(t: LeasesView, leases: Seq<Lease>, resources: Seq<Seq<char>>, now: u64, name: Seq<char>)
    requires
        t.wf(),
        leases.len() <= resources.len(),
        forall|j: int|
            0 <= j < leases.len() ==> t.held(resources[j]) == Some(#[trigger] leases[j]) && leases[j].resource@
                == resources[j] && leases[j].expires_at > now,
        forall|i: int, j: int| 0 <= i < j < leases.len() ==> #[trigger] resources[i] != #[trigger] resources[j],
    ensures
        released_all(t, leases, now).held(name) == (if resources.take(leases.len() as int).contains(name) {
            None
        } else {
            t.held(name)
        }),
    decreases leases.len(),
{
    if leases.len() > 0 {
        let n = leases.len() - 1;
        let l = leases[n];
        let next = t.drop_lease(l.resource@);
        let part = resources.take(n);
        let whole = resources.take(n + 1);
        assert(t.held(resources[n]) == Some(leases[n]));
        lemma_drop(t, l.resource@);
        assert forall|j: int| 0 <= j < n implies next.held(resources[j]) == Some(#[trigger] leases.drop_last()[j]) by {
            assert(leases.drop_last()[j] == leases[j]);
            assert(resources[j] != resources[n]);
            removed_record_is_gone(t.leases, l.resource@, resources[j]);
        }
        removed_record_is_gone(t.leases, l.resource@, name);
        lemma_given_back(next, leases.drop_last(), resources, now, name);
        assert(whole =~= part.push(resources[n]));
        assert(whole[n] == resources[n]);
        if part.contains(name) {
            let j = choose|j: int| 0 <= j < part.len() && part[j] == name;
            assert(whole[j] == name);
        }
    } else {
        assert(resources.take(0) =~= Seq::empty());
    }
}

/// Where not all resources of a list can be taken, none is: those that were taken before are free
/// again, and every other is as it was.
pub proof fn refused_acquisition_takes_nothing(
    trace: Seq<LeasesView>,
    leases: Seq<Lease>,
    resources: Seq<Seq<char>>,
    owner: Seq<char>,
    ttl: u64,
    now: u64,
    fresh: Seq<(String, String)>,
    name: Seq<char>,
)
    requires
        acquisition(trace, leases, resources, owner, ttl, now, fresh),
        trace[0].wf(),
        later(now, ttl) > now,
    ensures
        released_all(trace.last(), leases, now).held(name) == (if resources.take(leases.len() as int).contains(name) {
            None
        } else {
            trace[0].held(name)
        }),
        released_all(trace.last(), leases, now).busy(name, now) == trace[0].busy(name, now),
{
    let n = leases.len() as int;
    lemma_taken(trace, leases, resources, owner, ttl, now, fresh, n, name);
    only_free_resources_are_taken(trace, leases, resources, owner, ttl, now, fresh);
    assert forall|j: int| 0 <= j < n implies trace[n].held(resources[j]) == Some(#[trigger] leases[j])
        && leases[j].resource@ == resources[j] && leases[j].expires_at > now by {
        lemma_kept(trace, leases, resources, owner, ttl, now, fresh, j, n);
        assert(takes(trace[j + 1], trace[j], leases[j], resources[j], owner, ttl, now, fresh[j]));
    }
    assert forall|i: int, j: int| 0 <= i < j < n implies #[trigger] resources[i] != #[trigger] resources[j] by {
        lemma_kept(trace, leases, resources, owner, ttl, now, fresh, i, n);
    }
    lemma_given_back(trace[n], leases, resources, now, name);
    if resources.take(n).contains(name) {
        let j = choose|j: int| 0 <= j < resources.take(n).len() && resources.take(n)[j] == name;
        assert(can_take(trace[0], resources, ttl, now, j));
    }
}

/// Takes the leases of all resources of a list, or of none: where one is held, those that were
/// taken before are given back. `fresh` gives each lease its name and its token.
pub fn acquire_all(
    leases: &mut LeaseTable,
    resources: &Vec<String>,
    owner: &str,
    ttl_ms: u64,
    now: u64,
    fresh: &Vec<(String, String)>,
) -> (r: Result<Vec<Lease>, RpcError>)
    requires
        old(leases)@.wf(),
        fresh@.len() >= resources@.len(),
    ensures
        final(leases)@.wf(),
        r is Ok == (forall|k: int|
            0 <= k < resources@.len() ==> #[trigger] can_take(old(leases)@, views(resources@), ttl_ms, now, k)),
        match r {
            Ok(taken) => {
                &&& taken@.len() == resources@.len()
                &&& exists|trace: Seq<LeasesView>|
                    #![trigger acquisition(trace, taken@, views(resources@), owner@, ttl_ms, now, fresh@)]
                    acquisition(trace, taken@, views(resources@), owner@, ttl_ms, now, fresh@) && trace[0] == old(
                        leases,
                    )@ && trace.last() == final(leases)@
            },
            Err(e) => exists|trace: Seq<LeasesView>, taken: Seq<Lease>|
                #![trigger acquisition(trace, taken, views(resources@), owner@, ttl_ms, now, fresh@)]
                {
                    &&& acquisition(trace, taken, views(resources@), owner@, ttl_ms, now, fresh@)
                    &&& trace[0] == old(leases)@
                    &&& taken.len() < resources@.len()
                    &&& !can_take(old(leases)@, views(resources@), ttl_ms, now, taken.len() as int)
                    &&& trace.last().busy(views(resources@)[taken.len() as int], now)
                    &&& e@ == held_error(trace.last().held(views(resources@)[taken.len() as int])->0)
                    &&& final(leases)@ == released_all(trace.last(), taken, now)
                },
        },
{
    let mut taken: Vec<Lease> = Vec::new();
    let ghost names = views(resources@);
    let ghost mut trace: Seq<LeasesView> = seq![leases@];
    let mut i: usize = 0;
    while i < resources.len()
        invariant
            i <= resources.len(),
            fresh@.len() >= resources@.len(),
            leases@.wf(),
            names == views(resources@),
            taken@.len() == i,
            trace.len() == i + 1,
            trace[0] == old(leases)@,
            trace[0].wf(),
            trace.last() == leases@,
            acquisition(trace, taken@, names, owner@, ttl_ms, now, fresh@),
        decreases resources.len() - i,
    {
        let ghost before = leases@;
        match leases.acquire(
            LeaseKind::Resource,
            resources[i].as_str(),
            owner,
            ttl_ms,
            now,
            fresh[i].0.as_str(),
            fresh[i].1.as_str(),
        ) {
            Ok(lease) => {
                let ghost old_trace = trace;
                let ghost old_taken = taken@;
                proof {
                    assert(granted(leases@, before, lease));
                    trace = trace.push(leases@);
                }
                taken.push(lease);
                proof {
                    assert forall|k: int| 0 <= k < taken@.len() implies takes(
                        #[trigger] trace[k + 1],
                        trace[k],
                        taken@[k],
                        names[k],
                        owner@,
                        ttl_ms,
                        now,
                        fresh@[k],
                    ) by {
                        if k < old_taken.len() {
                            assert(takes(
                                old_trace[k + 1],
                                old_trace[k],
                                old_taken[k],
                                names[k],
                                owner@,
                                ttl_ms,
                                now,
                                fresh@[k],
                            ));
                        }
                    }
                }
            },
            Err(e) => {
                release_acquired(leases, &taken, now);
                let e = map_lease_error(e);
                proof {
                    only_free_resources_are_taken(trace, taken@, names, owner@, ttl_ms, now, fresh@);
                    assert(!can_take(old(leases)@, names, ttl_ms, now, i as int));
                    assert(acquisition(trace, taken@, names, owner@, ttl_ms, now, fresh@));
                }
                return Err(e);
            },
        }
        i += 1;
    }
    proof {
        only_free_resources_are_taken(trace, taken@, names, owner@, ttl_ms, now, fresh@);
        assert(taken@.len() == resources@.len());
        assert(acquisition(trace, taken@, views(resources@), owner@, ttl_ms, now, fresh@));
        assert(trace[0] == old(leases)@);
        assert(trace.last() == leases@);
        assert(exists|trace: Seq<LeasesView>|
            #![trigger acquisition(trace, taken@, views(resources@), owner@, ttl_ms, now, fresh@)]
            acquisition(trace, taken@, views(resources@), owner@, ttl_ms, now, fresh@) && trace[0] == old(leases)@
                && trace.last() == leases@);
    }
    Ok(taken)
}

/// What an executor is told of a lease under which it runs.
pub open spec fn fence_json(controller: Seq<char>, epoch: u64, l: Lease, now: u64) -> JsonView {
    JsonView::obj().plus("controllerId"@, JsonView::Text(controller)).plus(
        "fence"@,
        JsonView::Unsigned(execution_fence(epoch, l.fence, now)),
    ).plus("resource"@, JsonView::Text(l.resource@))
}

/// What an executor is told of the leases of a list.
pub open spec fn fences_json(controller: Seq<char>, epoch: u64, leases: Seq<Lease>, now: u64) -> Seq<JsonView> {
    leases.map_values(|l: Lease| fence_json(controller, epoch, l, now))
}

/// The leases that an executor is told of: the one that authorizes, and those of the locks of the
/// capability.
pub open spec fn told(authority: Option<Lease>, acquired: Seq<Lease>, locks: int) -> Seq<Lease> {
    let first = match authority {
        Some(l) => seq![l],
        None => Seq::empty(),
    };
    first + acquired.take(if locks < acquired.len() {
        locks
    } else {
        acquired.len() as int
    })
}

/// The input with which an executor is called: that of an invocation that changes something tells
/// the session and the fences of its leases, under the epoch of the session's authority.
pub open spec fn dispatched(
    controller: Seq<char>,
    input: JsonView,
    session: Seq<char>,
    epoch: u64,
    authority: Option<Lease>,
    acquired: Seq<Lease>,
    locks: int,
    now: u64,
) -> JsonView {
    input.with("_workspaceSessionId"@, JsonView::Text(session)).with(
        "_authority"@,
        JsonView::Array(fences_json(controller, epoch, told(authority, acquired, locks), now)),
    )
}

/// What an executor is told of a lease under which it runs.
pub fn fence_item(controller: &str, epoch: u64, l: &Lease, now: u64) -> (r: Json)
    ensures
        r@ == fence_json(controller@, epoch, *l, now),
{
    Json::obj().plus("controllerId", Json::text(controller)).plus(
        "fence",
        Json::Unsigned(executor_execution_fence(epoch, l.fence, now)),
    ).plus("resource", Json::text(l.resource.as_str()))
}

/// The input with which an executor is called. One that changes something has to have an object,
/// or null, for its input.
pub fn executor_input(controller: &str, invocation: &Invocation, acquired: &Vec<Lease>, locks: usize, now: u64) -> (r: Json)
    requires
        !invocation.readonly ==> invocation.input@.settable(),
    ensures
        r@ == (if invocation.readonly {
            invocation.input@
        } else {
            dispatched(
                controller@,
                invocation.input@,
                invocation.subject@.session,
                invocation.subject@.epoch,
                invocation.authority,
                acquired@,
                locks as int,
                now,
            )
        }),
{
    let mut input = invocation.input.copy();
    if invocation.readonly {
        return input;
    }
    proof {
        lemma_with(input@, "_workspaceSessionId"@, JsonView::Text(invocation.subject@.session), ""@);
    }
    input.set("_workspaceSessionId", Json::text(invocation.subject.session.as_str()));
    let mut items: Vec<Json> = Vec::new();
    let epoch = invocation.subject.epoch;
    if let Some(l) = &invocation.authority {
        items.push(fence_item(controller, epoch, l, now));
    }
    let ghost first = items@.len();
    let ghost leases = told(invocation.authority, acquired@, locks as int);
    let mut i: usize = 0;
    while i < acquired.len() && i < locks
        invariant
            i <= acquired.len(),
            i <= locks,
            items@.len() == first + i,
            first == (if invocation.authority is Some {
                1int
            } else {
                0
            }),
            leases == told(invocation.authority, acquired@, locks as int),
            forall|k: int|
                0 <= k < items@.len() ==> (#[trigger] items@[k])@ == fence_json(controller@, epoch, leases[k], now),
        decreases acquired.len() - i,
    {
        items.push(fence_item(controller, epoch, &acquired[i], now));
        assert(leases[first + i] == acquired@[i as int]);
        i += 1;
    }
    let listed = Json::array(items);
    assert(listed@->Array_0 =~= fences_json(controller@, epoch, leases, now));
    input.set("_authority", listed);
    input
}

/// Whether a call ended because its time was over, so that the work may still be under way.
pub open spec fn timed_out(called: CalledView) -> bool {
    called matches CalledView::Unreachable(reason) && has_text(reason, "deadline"@)
}

/// Whether a call ended because its time was over.
pub fn transport_timed_out(called: &Called) -> (r: bool)
    ensures
        r == timed_out(called@),
{
    match called {
        Called::Unreachable(reason) => contains(reason.as_str(), "deadline"),
        Called::Answered(_) => false,
    }
}

/// The leases after a call of an executor: those that were taken for it are given back, unless the
/// work may still be under way.
pub open spec fn settled(t: LeasesView, acquired: Seq<Lease>, called: CalledView, now: u64) -> LeasesView {
    if timed_out(called) {
        t
    } else {
        released_all(t, acquired, now)
    }
}

/// Gives back the leases of a task whose call ended, unless the work may still be under way: then
/// they stay until they end, so that nobody else writes meanwhile.
pub fn settle_leases(leases: &mut LeaseTable, acquired: &Vec<Lease>, called: &Called, now: u64)
    requires
        old(leases)@.wf(),
    ensures
        final(leases)@.wf(),
        final(leases)@ == settled(old(leases)@, acquired@, called@, now),
{
    if !transport_timed_out(called) {
        release_acquired(leases, acquired, now);
    }
}

/// What the answer of an executor means: its result, or the error and the state that the task
/// ends with.
pub open spec fn outcome_view(called: CalledView) -> Result<JsonView, (RpcErrorView, TaskState)> {
    match called {
        CalledView::Answered(response) => if response.ok {
            Ok(match response.result {
                Some(j) => j,
                None => JsonView::Null,
            })
        } else {
            Err(
                (
                    match response.error {
                        Some(e) => e,
                        None => rpc_error("EXECUTOR_FAILED"@, "executor failed"@),
                    },
                    TaskState::Failed,
                ),
            )
        },
        CalledView::Unreachable(reason) => if timed_out(called) {
            Err((retryable_error("EXECUTOR_TIMEOUT"@, reason), TaskState::OutcomeUnknown))
        } else {
            Err((retryable_error("EXECUTOR_UNAVAILABLE"@, reason), TaskState::Failed))
        },
    }
}

/// What the answer of an executor means for the task: its result, or the error and the state with
/// which the task ends. A call whose time was over leaves the outcome unknown.
pub fn executor_outcome(called: Called) -> (r: Result<Json, (RpcError, TaskState)>)
    ensures
        match outcome_view(called@) {
            Ok(j) => r matches Ok(x) && x@ == j,
            Err(f) => r matches Err(x) && x.0@ == f.0 && x.1 == f.1,
        },
{
    match called {
        Called::Answered(response) => {
            if response.ok {
                match response.result {
                    Some(j) => Ok(j),
                    None => Ok(Json::Null),
                }
            } else {
                match response.error {
                    Some(e) => Err((e, TaskState::Failed)),
                    None => Err((RpcError::new("EXECUTOR_FAILED", "executor failed"), TaskState::Failed)),
                }
            }
        },
        Called::Unreachable(reason) => {
            if contains(reason.as_str(), "deadline") {
                Err((RpcError::transient("EXECUTOR_TIMEOUT", reason.as_str()), TaskState::OutcomeUnknown))
            } else {
                Err((RpcError::transient("EXECUTOR_UNAVAILABLE", reason.as_str()), TaskState::Failed))
            }
        },
    }
}

/// The failure of a task that an error ended.
pub open spec fn failure_of(e: RpcErrorView) -> TaskFailureView {
    TaskFailureView { code: e.code, message: e.message, retryable: e.retryable, details: e.details }
}

/// Ends a task with an error. A task that cannot end in that state stays as it is.
pub fn fail_task(tasks: &mut TaskTable, id: &str, error: &RpcError, state: TaskState, now: u64)
    requires
        old(tasks).wf(),
    ensures
        final(tasks).wf(),
        match position_of(old(tasks).tasks@, id@) {
            None => *final(tasks) == *old(tasks),
            Some(i) => {
                let t = old(tasks).tasks@[i]@;
                if allowed(t.state, state) {
                    &&& task_views(final(tasks).tasks@) == task_views(old(tasks).tasks@).update(
                        i,
                        t.moved(state, None, Some(failure_of(error@)), now),
                    )
                    &&& final(tasks).index@ == old(tasks).index@
                } else {
                    *final(tasks) == *old(tasks)
                }
            },
        },
{
    let failure = TaskFailure {
        code: error.code.clone(),
        message: error.message.clone(),
        retryable: error.retryable,
        details: error.details.copy(),
    };
    let _ = tasks.transition(id, state, None, Some(failure), now);
}

/// What is left to do before a process counts as started.
#[derive(Debug)]
pub enum Readiness {
    /// Nothing: it is ready.
    Ready(Json),
    /// The executor is asked to wait, with these parameters.
    Wait(Json),
}

/// How long the executor waits for a process.
pub open spec fn readiness_timeout(input: JsonView) -> u64 {
    match input.get_u64("readinessTimeoutMs"@) {
        Some(n) => n,
        None => match input.get("readiness"@) {
            Some(v) => v.u64_or("timeoutMs"@, 180_000),
            None => 180_000,
        },
    }
}

/// The parameters with which an executor is asked to wait for a process.
pub open spec fn wait_params(process: Seq<char>, timeout: u64) -> JsonView {
    JsonView::obj().plus("processId"@, JsonView::Text(process)).plus("timeoutMs"@, JsonView::Unsigned(timeout))
}

/// Whether a result says that a process is ready.
pub open spec fn process_ready(result: JsonView) -> bool {
    match result.get("readiness"@) {
        Some(v) => v.get_str("state"@) == Some("ready"@),
        None => false,
    }
}

/// What is left to do before a process counts as started. The executor waits; it is asked once.
pub fn process_readiness(input: &Json, result: Json) -> (r: Result<Readiness, RpcError>)
    ensures
        match need(input@, "processId"@) {
            Err(e) => fails(r, e),
            Ok(process) => if process_ready(result@) {
                r matches Ok(Readiness::Ready(x)) && x@ == result@
            } else {
                r matches Ok(Readiness::Wait(x)) && x@ == wait_params(process, readiness_timeout(input@))
            },
        },
{
    let process = match required_str(input, "processId") {
        Ok(s) => s,
        Err(e) => return Err(e),
    };
    let timeout_ms = match input.get_u64("readinessTimeoutMs") {
        Some(n) => n,
        None => match input.get("readiness") {
            Some(v) => v.u64_or("timeoutMs", 180_000),
            None => 180_000,
        },
    };
    let ready = match result.get("readiness") {
        Some(v) => match v.get_str("state") {
            Some(s) => str_eq(s, "ready"),
            None => false,
        },
        None => false,
    };
    if ready {
        return Ok(Readiness::Ready(result));
    }
    Ok(
        Readiness::Wait(
            Json::obj().plus("processId", Json::text(process)).plus("timeoutMs", Json::Unsigned(timeout_ms)),
        ),
    )
}

/// What waiting for a process gives.
pub open spec fn waited_view(called: CalledView) -> Result<JsonView, RpcErrorView> {
    match called {
        CalledView::Unreachable(reason) => Err(retryable_error("EXECUTOR_DISCONNECTED"@, reason)),
        CalledView::Answered(response) => if !response.ok {
            Err(
                match response.error {
                    Some(e) => e,
                    None => rpc_error("INVALID_EXECUTOR_RESPONSE"@, "readiness.wait returned no result"@),
                },
            )
        } else {
            match response.result {
                Some(j) => Ok(j),
                None => Err(
                    rpc_error("INVALID_EXECUTOR_RESPONSE"@, "readiness.wait returned an empty result"@),
                ),
            }
        },
    }
}

/// What waiting for a process gives.
pub fn process_waited(called: Called) -> (r: Result<Json, RpcError>)
    ensures
        match waited_view(called@) {
            Ok(j) => r matches Ok(x) && x@ == j,
            Err(e) => fails(r, e),
        },
{
    match called {
        Called::Unreachable(reason) => Err(RpcError::transient("EXECUTOR_DISCONNECTED", reason.as_str())),
        Called::Answered(response) => {
            if !response.ok {
                return match response.error {
                    Some(e) => Err(e),
                    None => Err(RpcError::new("INVALID_EXECUTOR_RESPONSE", "readiness.wait returned no result")),
                };
            }
            match response.result {
                Some(j) => Ok(j),
                None => Err(
                    RpcError::new("INVALID_EXECUTOR_RESPONSE", "readiness.wait returned an empty result"),
                ),
            }
        },
    }
}

/// Whether a tunnel says that it is ready.
pub open spec fn tunnel_ready(v: JsonView) -> bool {
    v.get_str("observedState"@) == Some("ready"@)
}

/// How long the executor waits for a tunnel.
pub open spec fn tunnel_timeout(input: JsonView) -> u64 {
    let asked = input.u64_or("readinessTimeoutMs"@, 8_000);
    if asked < 8_000 {
        asked
    } else {
        8_000
    }
}

fn is_text(v: &Json, key: &str, text: &str) -> (r: bool)
    ensures
        r == (v@.get_str(key@) == Some(text@)),
{
    match v.get_str(key) {
        Some(s) => str_eq(s, text),
        None => false,
    }
}

/// What is left to do before a tunnel counts as there.
pub fn tunnel_readiness(input: &Json, result: Json) -> (r: Result<Readiness, RpcError>)
    ensures
        if tunnel_ready(result@) {
            r matches Ok(Readiness::Ready(x)) && x@ == result@
        } else {
            match need(input@, "tunnelId"@) {
                Err(e) => fails(r, e),
                Ok(tunnel) => r matches Ok(Readiness::Wait(x)) && x@ == wait_params(
                    "tunnel-"@ + tunnel,
                    tunnel_timeout(input@),
                ),
            }
        },
{
    if is_text(&result, "observedState", "ready") {
        return Ok(Readiness::Ready(result));
    }
    let tunnel = match required_str(input, "tunnelId") {
        Ok(s) => s,
        Err(e) => return Err(e),
    };
    let process = concat2("tunnel-", tunnel);
    let asked = input.u64_or("readinessTimeoutMs", 8_000);
    let timeout_ms = if asked < 8_000 {
        asked
    } else {
        8_000
    };
    Ok(
        Readiness::Wait(
            Json::obj().plus("processId", Json::text(process.as_str())).plus("timeoutMs", Json::Unsigned(timeout_ms)),
        ),
    )
}

/// Whether the answer of an executor says that it succeeded.
pub open spec fn answered_ok(called: CalledView) -> bool {
    called matches CalledView::Answered(response) && response.ok
}

/// The error that an executor answered, where it did.
pub open spec fn answered_error(called: CalledView) -> Option<RpcErrorView> {
    match called {
        CalledView::Answered(response) => if response.ok {
            None
        } else {
            response.error
        },
        CalledView::Unreachable(_) => None,
    }
}

/// What a tunnel that the executor shows comes to, with what waiting for it gave: ready where the
/// wait succeeded and it runs, pending where the wait may succeed later.
pub open spec fn tunnel_shown(waited: CalledView, value: JsonView) -> Option<JsonView> {
    if tunnel_ready(value) {
        Some(value)
    } else if answered_ok(waited) && value.get_str("state"@) == Some("running"@) {
        Some(value.with("observedState"@, JsonView::Text("ready"@)))
    } else {
        match answered_error(waited) {
            Some(e) => if e.retryable {
                Some(
                    value.with("observedState"@, JsonView::Text("pending"@)).with(
                        "pendingReason"@,
                        JsonView::Text(e.message),
                    ).with("retryable"@, JsonView::Bool(true)),
                )
            } else {
                None
            },
            None => None,
        }
    }
}

/// Why a tunnel did not become ready.
pub open spec fn tunnel_failure(waited: CalledView) -> RpcErrorView {
    match waited {
        CalledView::Answered(response) => if response.ok {
            rpc_error("TUNNEL_NOT_READY"@, "tunnel did not become ready"@)
        } else {
            match response.error {
                Some(e) => e,
                None => rpc_error("TUNNEL_NOT_READY"@, "tunnel readiness failed"@),
            }
        },
        CalledView::Unreachable(reason) => retryable_error("EXECUTOR_DISCONNECTED"@, reason),
    }
}

/// What waiting for a tunnel gives, with what the executor then shows of it.
pub open spec fn tunnel_result(waited: CalledView, current: CalledView) -> Result<JsonView, RpcErrorView> {
    match current {
        CalledView::Unreachable(reason) => Err(rpc_error("EXECUTOR_DISCONNECTED"@, reason)),
        CalledView::Answered(response) => match (response.ok, response.result) {
            (true, Some(value)) => match tunnel_shown(waited, value) {
                Some(j) => Ok(j),
                None => Err(tunnel_failure(waited)),
            },
            _ => Err(tunnel_failure(waited)),
        },
    }
}

/// Whether what an executor shows of a tunnel is written to, with what waiting for it gave.
pub open spec fn tunnel_noted(waited: CalledView, value: JsonView) -> bool {
    !tunnel_ready(value) && tunnel_shown(waited, value) is Some
}

/// Whether what an executor shows of a tunnel can be written to where it is.
pub open spec fn tunnel_notable(waited: CalledView, current: CalledView) -> bool {
    match current {
        CalledView::Answered(response) => match (response.ok, response.result) {
            (true, Some(value)) => tunnel_noted(waited, value) ==> value.settable(),
            _ => true,
        },
        CalledView::Unreachable(_) => true,
    }
}

/// Whether what an executor shows of a tunnel, where it is written to, is an object or null.
pub fn can_note_tunnel(waited: &Called, current: &Called) -> (r: bool)
    ensures
        r == tunnel_notable(waited@, current@),
{
    let value = match current {
        Called::Unreachable(_) => return true,
        Called::Answered(response) => match (response.ok, &response.result) {
            (true, Some(value)) => value,
            _ => return true,
        },
    };
    if is_text(value, "observedState", "ready") {
        return true;
    }
    let noted = match waited {
        Called::Answered(response) => {
            if response.ok {
                is_text(value, "state", "running")
            } else {
                match &response.error {
                    Some(e) => e.retryable,
                    None => false,
                }
            }
        },
        Called::Unreachable(_) => false,
    };
    if !noted {
        return true;
    }
    match value {
        Json::Object(_) | Json::Null => true,
        _ => false,
    }
}

/// What waiting for a tunnel gives, with what the executor then shows of it. What it shows has to
/// be an object or null where it is written to.
pub fn tunnel_waited(waited: Called, current: Called) -> (r: Result<Json, RpcError>)
    requires
        tunnel_notable(waited@, current@),
    ensures
        match tunnel_result(waited@, current@) {
            Ok(j) => r matches Ok(x) && x@ == j,
            Err(e) => fails(r, e),
        },
{
    let shown = match current {
        Called::Unreachable(reason) => return Err(RpcError::new("EXECUTOR_DISCONNECTED", reason.as_str())),
        Called::Answered(response) => if response.ok {
            response.result
        } else {
            None
        },
    };
    if let Some(value) = shown {
        let mut value = value;
        if is_text(&value, "observedState", "ready") {
            return Ok(value);
        }
        let ok = match &waited {
            Called::Answered(response) => response.ok,
            Called::Unreachable(_) => false,
        };
        if ok && is_text(&value, "state", "running") {
            value.set("observedState", Json::text("ready"));
            return Ok(value);
        }
        if let Called::Answered(response) = &waited {
            if !response.ok {
                if let Some(e) = &response.error {
                    if e.retryable {
                        proof {
                            lemma_with(value@, "observedState"@, JsonView::Text("pending"@), ""@);
                        }
                        value.set("observedState", Json::text("pending"));
                        proof {
                            lemma_with(value@, "pendingReason"@, JsonView::Text(e.message@), ""@);
                        }
                        value.set("pendingReason", Json::text(e.message.as_str()));
                        value.set("retryable", Json::Bool(true));
                        return Ok(value);
                    }
                }
            }
        }
    }
    match waited {
        Called::Answered(response) => {
            if response.ok {
                Err(RpcError::new("TUNNEL_NOT_READY", "tunnel did not become ready"))
            } else {
                match response.error {
                    Some(e) => Err(e),
                    None => Err(RpcError::new("TUNNEL_NOT_READY", "tunnel readiness failed")),
                }
            }
        },
        Called::Unreachable(reason) => Err(RpcError::transient("EXECUTOR_DISCONNECTED", reason.as_str())),
    }
}

/// Whether an agent is the one that an invocation started.
pub open spec fn agent_started(a: AgentInstance, id: Seq<char>, role: Seq<char>, s: SubjectView, input: JsonView, result: JsonView) -> bool {
    &&& a.id@ == id
    &&& a.workspace_session_id@ == s.session
    &&& a.executor_id@ == s.executor_id
    &&& a.role@ == role
    &&& a.provider@ == text_of(input, "provider"@, "process"@)
    &&& a.state == AgentState::Running
    &&& a.metadata@ == result
}

/// Whether an agent is another that was stopped.
pub open spec fn agent_stopped(after: AgentInstance, before: AgentInstance, result: JsonView) -> bool {
    after.metadata@ == result && after == (AgentInstance {
        state: AgentState::Stopped,
        metadata: after.metadata,
        ..before
    })
}

/// What the success of an invocation does to the known agents.
pub open spec fn agents_after(
    r: Result<Task, RpcError>,
    after: Seq<AgentInstance>,
    before: Seq<AgentInstance>,
    s: SubjectView,
    input: JsonView,
    result: JsonView,
) -> bool {
    if s.name == "agent.start"@ {
        match (need(input, "agentId"@), need(input, "role"@)) {
            (Err(e), _) => fails(r, e) && after == before,
            (Ok(_), Err(e)) => fails(r, e) && after == before,
            (Ok(id), Ok(role)) => r is Ok && exists|a: AgentInstance|
                #![trigger upserted(before, a)]
                agent_started(a, id, role, s, input, result) && after == upserted(before, a),
        }
    } else if s.name == "agent.stop"@ {
        match position_of(before, text_of(input, "agentId"@, ""@)) {
            Some(i) => r is Ok && after == before.update(i, after[i]) && agent_stopped(after[i], before[i], result),
            None => r is Ok && after == before,
        }
    } else {
        r is Ok && after == before
    }
}

/// What the success of an invocation does to the known artifacts.
pub open spec fn artifacts_after(
    after: Seq<Artifact>,
    before: Seq<Artifact>,
    s: SubjectView,
    input: JsonView,
    result: JsonView,
    task: Seq<char>,
    now: u64,
) -> bool {
    match described(s.name, result) {
        None => after == before,
        Some(value) => match (value.get_str("digest"@), described_path(value)) {
            (Some(digest), Some(path)) => exists|a: Artifact|
                #![trigger upserted(before, a)]
                artifact_of(a, digest, path, value, input, s.session, s.executor_id, task, now) && after == upserted(
                    before,
                    a,
                ),
            _ => after == before,
        },
    }
}

/// Ends a task that succeeded: its output is what is kept of the result, and the artifact or the
/// agent that the result describes becomes known.
pub fn finish_invocation(c: &mut Controller, invocation: &Invocation, input: &Json, result: &Json, task_id: &str, now: u64) -> (r: Result<
    Task,
    RpcError,
>)
    requires
        old(c).wf(),
    ensures
        final(c).wf(),
        final(c).id == old(c).id,
        final(c).leases == old(c).leases,
        final(c).state == (WorkbenchState {
            artifacts: final(c).state.artifacts,
            agents: final(c).state.agents,
            ..old(c).state
        }),
        ({
            let s = invocation.subject@;
            let output = Some(retained(s.name, result@));
            match position_of(old(c).tasks.tasks@, task_id@) {
                None => fails(r, task_rpc("INVALID_TASK_STATE"@, TaskError::NotFound)) && *final(c) == *old(c),
                Some(i) => {
                    let t = old(c).tasks.tasks@[i]@;
                    if !allowed(t.state, TaskState::Succeeded) {
                        fails(
                            r,
                            task_rpc(
                                "INVALID_TASK_STATE"@,
                                TaskError::InvalidTransition { from: t.state, to: TaskState::Succeeded },
                            ),
                        ) && *final(c) == *old(c)
                    } else {
                        let done = t.moved(TaskState::Succeeded, output, None, now);
                        &&& task_views(final(c).tasks.tasks@) == task_views(old(c).tasks.tasks@).update(i, done)
                        &&& final(c).tasks.index@ == old(c).tasks.index@
                        &&& artifacts_after(
                            final(c).state.artifacts@,
                            old(c).state.artifacts@,
                            s,
                            input@,
                            result@,
                            task_id@,
                            now,
                        )
                        &&& agents_after(
                            r,
                            final(c).state.agents@,
                            old(c).state.agents@,
                            s,
                            input@,
                            result@,
                        )
                        &&& r matches Ok(x) ==> x@ == done
                    }
                },
            }
        }),
{
    let s = &invocation.subject;
    let name = s.name.as_str();
    let output = retained_task_output(name, result);
    let task = match c.tasks.transition(task_id, TaskState::Succeeded, Some(output), None, now) {
        Ok(t) => t,
        Err(e) => {
            let m = e.message();
            return Err(RpcError::new("INVALID_TASK_STATE", m.as_str()));
        },
    };
    let artifact = artifact_from_result(
        name,
        input,
        result,
        s.session.as_str(),
        s.executor_id.as_str(),
        task_id,
        now,
    );
    if let Some(a) = artifact {
        upsert_by(&mut c.state.artifacts, a);
    }
    if str_eq(name, "agent.start") {
        let id = match required_str(input, "agentId") {
            Ok(s) => s,
            Err(e) => return Err(e),
        };
        let role = match required_str(input, "role") {
            Ok(s) => s,
            Err(e) => return Err(e),
        };
        let provider = match input.get_text("provider") {
            Some(p) => p,
            None => "process".to_owned(),
        };
        let a = AgentInstance {
            id: id.to_owned(),
            workspace_session_id: s.session.clone(),
            executor_id: s.executor_id.clone(),
            role: role.to_owned(),
            provider,
            state: AgentState::Running,
            metadata: result.copy(),
        };
        assert(agent_started(a, id@, role@, invocation.subject@, input@, result@));
        upsert_by(&mut c.state.agents, a);
    } else if str_eq(name, "agent.stop") {
        let id = match input.get_text("agentId") {
            Some(p) => p,
            None => "".to_owned(),
        };
        if let Some(i) = position(&c.state.agents, id.as_str()) {
            let ghost before = c.state.agents@;
            c.state.agents[i].state = AgentState::Stopped;
            c.state.agents[i].metadata = result.copy();
            assert(c.state.agents@ =~= before.update(i as int, c.state.agents@[i as int]));
        }
    }
    Ok(task)
}

/// What an invocation comes to once its executor was called.
#[derive(Debug)]
pub enum AfterCall {
    /// It has its result.
    Done(Json),
    /// The executor is asked to wait for the process, with these parameters.
    WaitForProcess(Json),
    /// The executor is asked to wait for the tunnel, with these parameters.
    WaitForTunnel(Json),
    /// It failed, and its task ends in this state.
    Failed(RpcError, TaskState),
}

/// Whether an invocation of a capability only ends once what it started is ready.
pub open spec fn waits(name: Seq<char>, input: JsonView) -> bool {
    (name == "process.start"@ || name == "tunnel.ensure"@) && input.get_bool("waitReady"@) == Some(true)
}

/// Whether an invocation comes to what the answer of its executor says.
pub open spec fn comes_to(r: AfterCall, name: Seq<char>, input: JsonView, called: CalledView) -> bool {
    match outcome_view(called) {
        Err(f) => r matches AfterCall::Failed(e, state) && e@ == f.0 && state == f.1,
        Ok(result) => if !waits(name, input) {
            r matches AfterCall::Done(x) && x@ == result
        } else if name == "process.start"@ {
            match need(input, "processId"@) {
                Err(e) => r matches AfterCall::Failed(x, state) && x@ == e && state == TaskState::Failed,
                Ok(process) => if process_ready(result) {
                    r matches AfterCall::Done(x) && x@ == result
                } else {
                    r matches AfterCall::WaitForProcess(x) && x@ == wait_params(process, readiness_timeout(input))
                },
            }
        } else if tunnel_ready(result) {
            r matches AfterCall::Done(x) && x@ == result
        } else {
            match need(input, "tunnelId"@) {
                Err(e) => r matches AfterCall::Failed(x, state) && x@ == e && state == TaskState::Failed,
                Ok(tunnel) => r matches AfterCall::WaitForTunnel(x) && x@ == wait_params(
                    "tunnel-"@ + tunnel,
                    tunnel_timeout(input),
                ),
            }
        },
    }
}

/// What an invocation comes to once its executor was called: it has its result, or waits until
/// what it started is ready, or fails.
pub fn after_call(name: &str, input: &Json, called: Called) -> (r: AfterCall)
    ensures
        comes_to(r, name@, input@, called@),
{
    let result = match executor_outcome(called) {
        Ok(j) => j,
        Err(f) => return AfterCall::Failed(f.0, f.1),
    };
    let wait = input.get_bool("waitReady") == Some(true);
    if wait && str_eq(name, "process.start") {
        return match process_readiness(input, result) {
            Ok(Readiness::Ready(j)) => AfterCall::Done(j),
            Ok(Readiness::Wait(j)) => AfterCall::WaitForProcess(j),
            Err(e) => AfterCall::Failed(e, TaskState::Failed),
        };
    }
    if wait && str_eq(name, "tunnel.ensure") {
        return match tunnel_readiness(input, result) {
            Ok(Readiness::Ready(j)) => AfterCall::Done(j),
            Ok(Readiness::Wait(j)) => AfterCall::WaitForTunnel(j),
            Err(e) => AfterCall::Failed(e, TaskState::Failed),
        };
    }
    AfterCall::Done(result)
}

/// While the outcome of a call is unknown, its leases stay: a resource that was held for the call
/// is held until its lease ends, so that nobody else can take it before. Where the outcome is
/// known, the leases are given back.
pub proof fn unknown_outcome_keeps_its_leases(
    t: LeasesView,
    acquired: Seq<Lease>,
    called: CalledView,
    now: u64,
    resource: Seq<char>,
    then: u64,
)
    ensures
        (outcome_view(called) matches Err(f) && f.1 == TaskState::OutcomeUnknown) ==> settled(
            t,
            acquired,
            called,
            now,
        ).held(resource) == t.held(resource) && settled(t, acquired, called, now).busy(resource, then) == t.busy(
            resource,
            then,
        ),
        !(outcome_view(called) matches Err(f) && f.1 == TaskState::OutcomeUnknown) ==> settled(
            t,
            acquired,
            called,
            now,
        ) == released_all(t, acquired, now),
{
}

/// What the answer of an executor comes to for the task: only an answer that says so succeeds, with
/// its result; an error of the executor fails with that error; and an executor that was not reached
/// leaves the outcome unknown where the time ran out, and fails the task, for another attempt,
/// otherwise.
pub proof fn outcome_follows_the_answer(called: CalledView)
    ensures
        outcome_view(called) is Ok == (called matches CalledView::Answered(response) && response.ok),
        match called {
            CalledView::Answered(response) => {
                &&& response.ok && response.result is Some ==> outcome_view(called) == Ok::<
                    JsonView,
                    (RpcErrorView, TaskState),
                >(response.result->0)
                &&& !response.ok ==> (outcome_view(called) matches Err(f) && f.1 == TaskState::Failed && (response.error
                    matches Some(e) ==> f.0 == e))
            },
            CalledView::Unreachable(reason) => outcome_view(called) matches Err(f) && f.0.message == reason && f.0.retryable
                && f.1 == (if has_text(reason, "deadline"@) {
                TaskState::OutcomeUnknown
            } else {
                TaskState::Failed
            }) && f.0.code == (if has_text(reason, "deadline"@) {
                "EXECUTOR_TIMEOUT"@
            } else {
                "EXECUTOR_UNAVAILABLE"@
            }),
        },
{
}

/// A process or a tunnel that a caller waits for is done only when it is ready; without waiting,
/// what the executor answered is the result.
pub proof fn only_what_is_ready_is_done(r: AfterCall, name: Seq<char>, input: JsonView, called: CalledView)
    requires
        comes_to(r, name, input, called),
        called matches CalledView::Answered(response) && response.ok && response.result is Some,
    ensures
        ({
            let result = called->Answered_0.result->0;
            let waiting = input.get_bool("waitReady"@) == Some(true);
            &&& name != "process.start"@ && name != "tunnel.ensure"@ || !waiting ==> (r matches AfterCall::Done(x) && x@
                == result)
            &&& (r matches AfterCall::Done(x)) ==> r->Done_0@ == result
            &&& name == "process.start"@ && waiting && (r matches AfterCall::Done(_)) ==> (result.get("readiness"@) matches Some(
                v,
            ) && v.get_str("state"@) == Some("ready"@))
            &&& name == "tunnel.ensure"@ && waiting && (r matches AfterCall::Done(_)) ==> result.get_str("observedState"@)
                == Some("ready"@)
        }),
{
    reveal_strlit("process.start");
    reveal_strlit("tunnel.ensure");
    assert("process.start"@[0] != "tunnel.ensure"@[0]);
}

/// A tunnel is shown as ready only where it says so itself, or where the wait for it succeeded and
/// it runs.
pub proof fn tunnel_is_ready_only_when_it_is(waited: CalledView, current: CalledView)
    requires
        tunnel_result(waited, current) is Ok,
        current matches CalledView::Answered(response) && (response.result matches Some(v) && v.settable()),
        tunnel_result(waited, current)->Ok_0.get_str("observedState"@) == Some("ready"@),
    ensures
        ({
            let value = current->Answered_0.result->0;
            ||| value.get_str("observedState"@) == Some("ready"@)
            ||| (waited matches CalledView::Answered(response) && response.ok) && value.get_str("state"@) == Some(
                "running"@,
            )
        }),
        current->Answered_0.ok,
{
    reveal_strlit("ready");
    reveal_strlit("pending");
    assert("ready"@[0] != "pending"@[0]);
    reveal_strlit("observedState");
    reveal_strlit("pendingReason");
    reveal_strlit("retryable");
    assert("observedState"@[0] != "pendingReason"@[0] && "observedState"@[0] != "retryable"@[0]);
    let value = current->Answered_0.result->0;
    let a = value.with("observedState"@, JsonView::Text("pending"@));
    let why = answered_error(waited);
    if !(value.get_str("observedState"@) == Some("ready"@)) && why is Some {
        let b = a.with("pendingReason"@, JsonView::Text(why->0.message));
        let c = b.with("retryable"@, JsonView::Bool(true));
        crate::json::lemma_with(value, "observedState"@, JsonView::Text("pending"@), "observedState"@);
        crate::json::lemma_with(a, "pendingReason"@, JsonView::Text(why->0.message), "observedState"@);
        crate::json::lemma_with(b, "retryable"@, JsonView::Bool(true), "observedState"@);
    }
}

/// The resources of a request are those that its locks name, in their order; a command that writes
/// adds those that it names itself.
pub proof fn locks_name_the_resources(locks: Seq<LockTemplate>, input: JsonView, n: int, i: int)
    requires
        0 <= n <= locks.len(),
    ensures
        locks_upto(locks, input, n) matches Ok(names) ==> names.len() == n && (0 <= i < n ==> lock_view(
            locks[i].key@,
            input,
        ) == Ok::<Seq<char>, RpcErrorView>(names[i])),
        locks_upto(locks, input, n) is Err && n > 0 ==> exists|k: int|
            #![trigger locks[k]]
            0 <= k < n && lock_view(locks[k].key@, input) is Err,
    decreases n,
{
    if n > 0 {
        locks_name_the_resources(locks, input, n - 1, i);
        if locks_upto(locks, input, n - 1) is Ok {
            assert(locks_upto(locks, input, n) is Err ==> lock_view(locks[n - 1].key@, input) is Err);
        } else {
            assert(n - 1 > 0);
        }
    }
}

/// Only a command that writes takes more than its locks name.
pub proof fn reading_takes_only_the_locks(locks: Seq<LockTemplate>, name: Seq<char>, readonly: bool, input: JsonView)
    ensures
        readonly || name != "command.run"@ ==> (resources_view(locks, name, readonly, input) matches Ok(all) ==> all.len()
            == locks.len()),
        !readonly && name == "command.run"@ ==> (resources_view(locks, name, readonly, input) matches Ok(all)
            ==> command_resources_view(input) is Ok && all.len() == locks.len() + command_resources_view(input)->Ok_0.len()),
{
    locks_name_the_resources(locks, input, locks.len() as int, 0);
}

/// Starting an agent records it as running where it was started, stopping it records it as stopped,
/// and no other request touches an agent.
pub proof fn agents_are_started_and_stopped(
    r: Result<Task, RpcError>,
    after: Seq<AgentInstance>,
    before: Seq<AgentInstance>,
    s: SubjectView,
    input: JsonView,
    result: JsonView,
)
    requires
        agents_after(r, after, before, s, input, result),
    ensures
        s.name != "agent.start"@ && s.name != "agent.stop"@ ==> r is Ok && after == before,
        r is Err ==> after == before,
        s.name == "agent.start"@ && r is Ok ==> exists|i: int|
            0 <= i < after.len() && (#[trigger] after[i]).state == AgentState::Running && after[i].executor_id@
                == s.executor_id && after[i].workspace_session_id@ == s.session && need(input, "agentId"@) == Ok::<
                Seq<char>,
                RpcErrorView,
            >(after[i].id@),
        s.name == "agent.stop"@ ==> after.len() == before.len() && forall|i: int|
            0 <= i < after.len() && #[trigger] after[i] != before[i] ==> after[i].state == AgentState::Stopped && after[i].id
                == before[i].id,
        s.name == "agent.stop"@ ==> (position_of(before, text_of(input, "agentId"@, ""@)) matches Some(i) ==> after[i].state
            == AgentState::Stopped),
{
    reveal_strlit("agent.start");
    reveal_strlit("agent.stop");
    assert("agent.start"@.len() == 11 && "agent.stop"@.len() == 10);
    crate::table::lemma_position_from(before, text_of(input, "agentId"@, ""@), 0);
    if s.name == "agent.start"@ && r is Ok {
        let id = need(input, "agentId"@)->Ok_0;
        let role = need(input, "role"@)->Ok_0;
        let a = choose|a: AgentInstance|
            #![trigger upserted(before, a)]
            agent_started(a, id, role, s, input, result) && after == upserted(before, a);
        crate::table::lemma_position_from(before, crate::table::Keyed::key_view(&a), 0);
        match position_of(before, crate::table::Keyed::key_view(&a)) {
            Some(i) => {
                assert(after[i] == a);
            },
            None => {
                assert(after[before.len() as int] == a);
            },
        }
    }
}

/// Waiting succeeds only where the executor answered with a result; where it was not reached, the
/// request may be made again.
pub proof fn waiting_comes_to_its_answer(called: CalledView)
    ensures
        waited_view(called) matches Ok(j) ==> (called matches CalledView::Answered(response) && response.ok
            && response.result == Some(j)),
        (called matches CalledView::Answered(response) && response.ok && response.result is Some) ==> waited_view(called) is Ok,
        (called matches CalledView::Answered(response) && !response.ok && response.error is Some) ==> waited_view(called)
            == Err::<JsonView, RpcErrorView>(called->Answered_0.error->0),
        called is Unreachable ==> waited_view(called) is Err && waited_view(called)->Err_0.retryable,
{
}

} // verus!
