//! Ports of executors, given out as leases.

use crate::driver::{granted, LEASE_TTL_MS};
use crate::json::{Json, JsonView};
use crate::lease::{begins, LeaseTable, LeasesView};
use crate::rpc::{fails, rpc_error, Called, CalledView, RpcError, RpcErrorView};
use crate::schema::{Lease, LeaseKind};
use crate::text::{concat4, decimal, starts_with, u64_text};
use vstd::prelude::*;

verus! {

/// The resource of a port of an executor.
pub open spec fn port_resource(executor: Seq<char>, port: nat) -> Seq<char> {
    "port:"@ + executor + ":"@ + decimal(port)
}

fn port_name(executor: &str, port: u64) -> (r: String)
    ensures
        r@ == port_resource(executor@, port as nat),
{
    let n = u64_text(port);
    concat4("port:", executor, ":", n.as_str())
}

/// The first and the last port that a request accepts.
pub open spec fn range_view(params: JsonView) -> Result<(u64, u64), RpcErrorView> {
    let start = params.u64_or("start"@, 20_000);
    let end = params.u64_or("end"@, 40_000);
    if start == 0 || end > 65_535 || start > end {
        Err(rpc_error("INVALID_PARAMS"@, "invalid port range"@))
    } else {
        Ok((start, end))
    }
}

/// The first and the last port that a request accepts.
pub fn port_range(params: &Json) -> (r: Result<(u64, u64), RpcError>)
    ensures
        match range_view(params@) {
            Ok(p) => r == Ok::<(u64, u64), RpcError>(p),
            Err(e) => fails(r, e),
        },
{
    let start = params.u64_or("start", 20_000);
    let end = params.u64_or("end", 40_000);
    if start == 0 || end > 65_535 || start > end {
        Err(RpcError::new("INVALID_PARAMS", "invalid port range"))
    } else {
        Ok((start, end))
    }
}

/// The first port of a range that nobody holds at a time.
pub open spec fn free_port(t: LeasesView, executor: Seq<char>, from: int, end: int, now: u64) -> Option<int>
    decreases end - from + 1,
{
    if from > end || from < 0 {
        None
    } else if !t.busy(port_resource(executor, from as nat), now) {
        Some(from)
    } else {
        free_port(t, executor, from + 1, end, now)
    }
}

/// Takes the first port of a range that nobody holds, for an owner. The executor is then asked
/// whether the port is free on its machine; where it is not, the lease is given back and the next
/// port is tried.
pub fn next_port(
    leases: &mut LeaseTable,
    executor_id: &str,
    owner: &str,
    params: &Json,
    from: u64,
    end: u64,
    now: u64,
    id: &str,
    token: &str,
) -> (r: Option<(u64, Lease)>)
    requires
        old(leases)@.wf(),
        end <= 65_535,
    ensures
        final(leases)@.wf(),
        match free_port(old(leases)@, executor_id@, from as int, end as int, now) {
            None => r is None && final(leases)@ == old(leases)@,
            Some(p) => {
                &&& r matches Some(x) && x.0 == p && begins(
                    x.1,
                    LeaseKind::Resource,
                    port_resource(executor_id@, p as nat),
                    owner@,
                    id@,
                    token@,
                    old(leases)@.next_fence(port_resource(executor_id@, p as nat)),
                    now,
                    params@.u64_or("ttlMs"@, LEASE_TTL_MS),
                ) && granted(final(leases)@, old(leases)@, x.1)
            },
        },
{
    let ghost start = leases@;
    let ttl = params.u64_or("ttlMs", LEASE_TTL_MS);
    let mut port: u64 = from;
    while port <= end
        invariant
            leases@ == start,
            leases@.wf(),
            start == old(leases)@,
            end <= 65_535,
            ttl == params@.u64_or("ttlMs"@, LEASE_TTL_MS),
            port <= end + 1 || port == from,
            free_port(start, executor_id@, from as int, end as int, now) == free_port(
                start,
                executor_id@,
                port as int,
                end as int,
                now,
            ),
        decreases end + 1 - port,
    {
        let resource = port_name(executor_id, port);
        match leases.acquire(LeaseKind::Resource, resource.as_str(), owner, ttl, now, id, token) {
            Ok(lease) => {
                assert(granted(leases@, start, lease));
                return Some((port, lease));
            },
            Err(_) => {},
        }
        port += 1;
    }
    None
}

/// Whether the answer of an executor says that a port is free on its machine.
pub open spec fn available_view(called: CalledView) -> bool {
    match called {
        CalledView::Answered(response) => match response.result {
            Some(j) => j.get_bool("available"@) == Some(true),
            None => false,
        },
        CalledView::Unreachable(_) => false,
    }
}

/// Whether the answer of an executor says that a port is free on its machine.
pub fn port_available(called: &Called) -> (r: bool)
    ensures
        r == available_view(called@),
{
    match called {
        Called::Answered(response) => match &response.result {
            Some(j) => j.is_true("available"),
            None => false,
        },
        Called::Unreachable(_) => false,
    }
}

/// Gives the lease of a port back that turned out not to be free.
pub fn drop_port(leases: &mut LeaseTable, lease: &Lease, now: u64)
    requires
        old(leases)@.wf(),
    ensures
        final(leases)@.wf(),
        old(leases)@.check(lease.resource@, lease.owner@, lease.token@, now) is Ok ==> final(leases)@ == old(
            leases,
        )@.drop_lease(lease.resource@),
        old(leases)@.check(lease.resource@, lease.owner@, lease.token@, now) is Err ==> final(leases)@ == old(leases)@,
{
    let _ = leases.release(lease.resource.as_str(), lease.owner.as_str(), lease.token.as_str(), now);
}

/// The error that no port of a range is free.
pub fn no_port(start: u64, end: u64) -> (r: RpcError)
    ensures
        r@ == rpc_error(
            "PORT_UNAVAILABLE"@,
            "no available port in "@ + decimal(start as nat) + "..="@ + decimal(end as nat),
        ),
{
    let a = u64_text(start);
    let b = u64_text(end);
    let message = concat4("no available port in ", a.as_str(), "..=", b.as_str());
    RpcError::new("PORT_UNAVAILABLE", message.as_str())
}

/// The positions, below a bound, of the leases of ports.
pub open spec fn ports_upto(leases: Seq<Lease>, n: int) -> Seq<usize>
    decreases n,
{
    if n <= 0 {
        Seq::empty()
    } else {
        let before = ports_upto(leases, n - 1);
        if "port:"@.is_prefix_of(leases[n - 1].resource@) {
            before.push((n - 1) as usize)
        } else {
            before
        }
    }
}

/// The positions of the leases of ports.
pub fn list_ports(leases: &Vec<Lease>) -> (r: Vec<usize>)
    ensures
        r@ == ports_upto(leases@, leases@.len() as int),
{
    let mut r: Vec<usize> = Vec::new();
    let mut i: usize = 0;
    while i < leases.len()
        invariant
            i <= leases.len(),
            r@ == ports_upto(leases@, i as int),
        decreases leases.len() - i,
    {
        if starts_with(leases[i].resource.as_str(), "port:") {
            r.push(i);
        }
        i += 1;
    }
    r
}

/// The port that is given out is the first one of the range that nobody holds, and none is given
/// out only where all are held.
pub proof fn first_free_port_is_given_out(t: LeasesView, executor: Seq<char>, from: int, end: int, now: u64)
    requires
        0 <= from,
    ensures
        match free_port(t, executor, from, end, now) {
            Some(p) => {
                &&& from <= p <= end
                &&& !t.busy("port:"@ + executor + ":"@ + decimal(p as nat), now)
                &&& forall|q: int|
                    from <= q < p ==> t.busy(#[trigger] port_resource(executor, q as nat), now)
            },
            None => forall|q: int|
                from <= q <= end ==> t.busy(#[trigger] port_resource(executor, q as nat), now),
        },
    decreases end - from + 1,
{
    if from <= end && t.busy(port_resource(executor, from as nat), now) {
        first_free_port_is_given_out(t, executor, from + 1, end, now);
    }
}

/// A range of ports is taken as asked for exactly where it is one of ports.
pub proof fn range_is_one_of_ports(params: JsonView)
    ensures
        range_view(params) matches Ok(p) ==> 1 <= p.0 <= p.1 <= 65_535,
        (params.get_u64("start"@) matches Some(a) && (params.get_u64("end"@) matches Some(b) && 1 <= a <= b <= 65_535))
            ==> range_view(params) == Ok::<(u64, u64), RpcErrorView>(
            (params.get_u64("start"@)->0, params.get_u64("end"@)->0),
        ),
        params.get_u64("start"@) is None && params.get_u64("end"@) is None ==> range_view(params) == Ok::<
            (u64, u64),
            RpcErrorView,
        >((20_000, 40_000)),
{
}

/// The ports that are listed are exactly the leases of ports, in order.
pub proof fn listed_ports_are_ports(leases: Seq<Lease>, n: int, k: int)
    requires
        0 <= n <= leases.len() <= usize::MAX,
        0 <= k < n,
    ensures
        ports_upto(leases, n).contains(k as usize) == "port:"@.is_prefix_of(leases[k].resource@),
        forall|i: int| 0 <= i < ports_upto(leases, n).len() ==> #[trigger] ports_upto(leases, n)[i] < n,
        forall|i: int, j: int|
            0 <= i < j < ports_upto(leases, n).len() ==> #[trigger] ports_upto(leases, n)[i] < #[trigger] ports_upto(
                leases,
                n,
            )[j],
    decreases n,
{
    let before = ports_upto(leases, n - 1);
    let after = ports_upto(leases, n);
    if n > 1 {
        listed_ports_are_ports(leases, n - 1, if k < n - 1 {
            k
        } else {
            0
        });
    }
    assert(forall|i: int| 0 <= i < before.len() ==> #[trigger] before[i] < n - 1);
    if "port:"@.is_prefix_of(leases[n - 1].resource@) {
        assert(after == before.push((n - 1) as usize));
        assert(after[before.len() as int] == (n - 1) as usize);
        if before.contains(k as usize) {
            let x = choose|x: int| 0 <= x < before.len() && before[x] == k as usize;
            assert(after[x] == k as usize);
        }
    }
    if k == n - 1 && before.contains(k as usize) {
        let x = choose|x: int| 0 <= x < before.len() && before[x] == k as usize;
        assert(before[x] < n - 1);
    }
}

/// A port is taken to be free only where the executor said so.
pub proof fn only_an_answer_frees_a_port(called: CalledView)
    requires
        available_view(called),
    ensures
        called matches CalledView::Answered(response) && (response.result matches Some(j) && j.get("available"@) == Some(
            JsonView::Bool(true),
        )),
{
}

} // verus!
