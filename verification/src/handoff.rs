//! Handoffs of work between agents: acknowledged before they are completed, and for an
//! acceptance completed only with its lease and its report.

use crate::json::{Json, JsonView};
use crate::lease::{lease_rpc, map_lease_error, LeaseTable, LeasesView};
use crate::rpc::{fails, need, required_str, rpc_error, unknown, unknown_error, RpcError, RpcErrorView};
use crate::schema::{Handoff, HandoffKind};
use crate::table::{position, position_of};
use crate::text::{opt_eq, starts_with, str_eq};
use vstd::prelude::*;

verus! {

/// A handoff as it is stored: one without a name or a time gets them.
pub open spec fn stored(h: Handoff, handoff: Handoff, id: Seq<char>, now: u64) -> bool {
    &&& h.id@ == (if handoff.id@.len() == 0 {
        id
    } else {
        handoff.id@
    })
    &&& h == (Handoff {
        id: h.id,
        created_at: if handoff.created_at == 0 {
            now
        } else {
            handoff.created_at
        },
        ..handoff
    })
}

/// Stores a handoff, and returns its position.
pub fn create_handoff(handoffs: &mut Vec<Handoff>, handoff: Handoff, now: u64, id: &str) -> (r: usize)
    ensures
        r == old(handoffs)@.len(),
        final(handoffs)@ == old(handoffs)@.push(final(handoffs)@[r as int]),
        stored(final(handoffs)@[r as int], handoff, id@, now),
{
    let mut handoff = handoff;
    if handoff.id.as_str().is_empty() {
        handoff.id = id.to_owned();
    }
    if handoff.created_at == 0 {
        handoff.created_at = now;
    }
    let n = handoffs.len();
    handoffs.push(handoff);
    n
}

/// The name of a kind of handoff.
pub open spec fn kind_name_view(kind: HandoffKind) -> Seq<char> {
    match kind {
        HandoffKind::Work => "work"@,
        HandoffKind::Acceptance => "acceptance"@,
    }
}

/// The name of a kind of handoff.
pub fn kind_name(kind: HandoffKind) -> (r: &'static str)
    ensures
        r@ == kind_name_view(kind),
{
    match kind {
        HandoffKind::Work => "work",
        HandoffKind::Acceptance => "acceptance",
    }
}

/// Whether a handoff is among those that a request for a list asks for.
pub open spec fn listed(h: Handoff, params: JsonView) -> bool {
    &&& params.get_str("kind"@) matches Some(k) ==> k == kind_name_view(h.kind)
    &&& params.get_str("agentId"@) matches Some(a) ==> (h.to.agent_id matches Some(b) && b@ == a)
}

/// The positions, below a bound, of the handoffs that a request for a list asks for.
pub open spec fn listed_upto(items: Seq<Handoff>, params: JsonView, n: int) -> Seq<usize>
    decreases n,
{
    if n <= 0 {
        Seq::empty()
    } else {
        let before = listed_upto(items, params, n - 1);
        if listed(items[n - 1], params) {
            before.push((n - 1) as usize)
        } else {
            before
        }
    }
}

/// The positions of the handoffs of the kind and to the agent that `params` names, where it names
/// them.
pub fn list_handoffs(items: &Vec<Handoff>, params: &Json) -> (r: Vec<usize>)
    ensures
        r@ == listed_upto(items@, params@, items@.len() as int),
{
    let kind = params.get_str("kind");
    let agent = params.get_str("agentId");
    let mut r: Vec<usize> = Vec::new();
    let mut i: usize = 0;
    while i < items.len()
        invariant
            i <= items.len(),
            match kind {
                Some(s) => params@.get_str("kind"@) == Some(s@),
                None => params@.get_str("kind"@) is None,
            },
            match agent {
                Some(s) => params@.get_str("agentId"@) == Some(s@),
                None => params@.get_str("agentId"@) is None,
            },
            r@ == listed_upto(items@, params@, i as int),
        decreases items.len() - i,
    {
        let kind_fits = match kind {
            Some(k) => str_eq(k, kind_name(items[i].kind)),
            None => true,
        };
        let agent_fits = match agent {
            Some(a) => opt_eq(&items[i].to.agent_id, a),
            None => true,
        };
        if kind_fits && agent_fits {
            r.push(i);
        }
        i += 1;
    }
    r
}

/// Why a request does not hold the lease of the acceptance that it names, if it does not.
pub open spec fn acceptance_refusal(t: LeasesView, params: JsonView, now: u64, message: Seq<char>) -> Option<RpcErrorView> {
    match need(params, "acceptanceResource"@) {
        Err(e) => Some(e),
        Ok(resource) => if !"acceptance:"@.is_prefix_of(resource) {
            Some(rpc_error("INVALID_ACCEPTANCE_RESOURCE"@, message))
        } else {
            match (need(params, "owner"@), need(params, "leaseToken"@)) {
                (Err(e), _) => Some(e),
                (Ok(_), Err(e)) => Some(e),
                (Ok(owner), Ok(token)) => match t.check(resource, owner, token, now) {
                    Err(e) => Some(lease_rpc(e)),
                    Ok(_) => None,
                },
            }
        },
    }
}

fn acceptance_error(leases: &LeaseTable, params: &Json, now: u64, message: &str) -> (r: Option<RpcError>)
    ensures
        match r {
            Some(e) => acceptance_refusal(leases@, params@, now, message@) == Some(e@),
            None => acceptance_refusal(leases@, params@, now, message@) is None,
        },
{
    let resource = match required_str(params, "acceptanceResource") {
        Ok(s) => s,
        Err(e) => return Some(e),
    };
    if !starts_with(resource, "acceptance:") {
        return Some(RpcError::new("INVALID_ACCEPTANCE_RESOURCE", message));
    }
    let owner = match required_str(params, "owner") {
        Ok(s) => s,
        Err(e) => return Some(e),
    };
    let token = match required_str(params, "leaseToken") {
        Ok(s) => s,
        Err(e) => return Some(e),
    };
    match leases.validate(resource, owner, token, now) {
        Ok(_) => None,
        Err(e) => Some(map_lease_error(e)),
    }
}

/// Files the report of an acceptance, under the lease of the acceptance. The result is the
/// position of the handoff.
pub fn report_handoff(handoffs: &mut Vec<Handoff>, leases: &LeaseTable, params: &Json, now: u64) -> (r: Result<usize, RpcError>)
    ensures
        ({
            let same = final(handoffs)@ == old(handoffs)@;
            match need(params@, "handoffId"@) {
                Err(e) => fails(r, e) && same,
                Ok(id) => match acceptance_refusal(
                    leases@,
                    params@,
                    now,
                    "acceptanceResource must use acceptance:<executor>:<port>"@,
                ) {
                    Some(e) => fails(r, e) && same,
                    None => match position_of(old(handoffs)@, id) {
                        None => fails(r, unknown("HANDOFF_NOT_FOUND"@, "unknown handoff: "@, id)) && same,
                        Some(i) => if old(handoffs)@[i].kind != HandoffKind::Acceptance {
                            fails(
                                r,
                                rpc_error("INVALID_HANDOFF_KIND"@, "reports are only valid for acceptance handoffs"@),
                            ) && same
                        } else {
                            &&& r matches Ok(k) && k == i
                            &&& final(handoffs)@ == old(handoffs)@.update(
                                i,
                                (Handoff { report: final(handoffs)@[i].report, ..old(handoffs)@[i] }),
                            )
                            &&& final(handoffs)@[i].report matches Some(j) && j@ == params@.get_or_null("report"@)
                        },
                    },
                },
            }
        }),
{
    let id = match required_str(params, "handoffId") {
        Ok(s) => s,
        Err(e) => return Err(e),
    };
    if let Some(e) = acceptance_error(leases, params, now, "acceptanceResource must use acceptance:<executor>:<port>") {
        return Err(e);
    }
    let i = match position(handoffs, id) {
        Some(i) => i,
        None => return Err(unknown_error("HANDOFF_NOT_FOUND", "unknown handoff: ", id)),
    };
    if handoffs[i].kind != HandoffKind::Acceptance {
        return Err(RpcError::new("INVALID_HANDOFF_KIND", "reports are only valid for acceptance handoffs"));
    }
    handoffs[i].report = Some(params.copy_or_null("report"));
    Ok(i)
}

/// Acknowledges a handoff, once. The result is the position of the handoff.
pub fn acknowledge_handoff(handoffs: &mut Vec<Handoff>, params: &Json, now: u64) -> (r: Result<usize, RpcError>)
    ensures
        ({
            let same = final(handoffs)@ == old(handoffs)@;
            match need(params@, "handoffId"@) {
                Err(e) => fails(r, e) && same,
                Ok(id) => match position_of(old(handoffs)@, id) {
                    None => fails(r, unknown("HANDOFF_NOT_FOUND"@, "unknown handoff: "@, id)) && same,
                    Some(i) => if old(handoffs)@[i].acknowledged_at is Some {
                        fails(
                            r,
                            unknown("HANDOFF_ALREADY_ACKNOWLEDGED"@, "handoff already acknowledged: "@, id),
                        ) && same
                    } else {
                        r matches Ok(k) && k == i && final(handoffs)@ == old(handoffs)@.update(
                            i,
                            (Handoff { acknowledged_at: Some(now), ..old(handoffs)@[i] }),
                        )
                    },
                },
            }
        }),
{
    let id = match required_str(params, "handoffId") {
        Ok(s) => s,
        Err(e) => return Err(e),
    };
    let i = match position(handoffs, id) {
        Some(i) => i,
        None => return Err(unknown_error("HANDOFF_NOT_FOUND", "unknown handoff: ", id)),
    };
    if handoffs[i].acknowledged_at.is_some() {
        return Err(unknown_error("HANDOFF_ALREADY_ACKNOWLEDGED", "handoff already acknowledged: ", id));
    }
    handoffs[i].acknowledged_at = Some(now);
    Ok(i)
}

/// Why a handoff cannot be completed by a request, if it cannot.
pub open spec fn completion_refusal(h: Handoff, t: LeasesView, params: JsonView, now: u64) -> Option<RpcErrorView> {
    if h.acknowledged_at is None {
        Some(rpc_error("HANDOFF_NOT_ACKNOWLEDGED"@, "handoff must be acknowledged before completion"@))
    } else if h.kind != HandoffKind::Acceptance {
        None
    } else {
        match acceptance_refusal(t, params, now, "acceptance resource is required"@) {
            Some(e) => Some(e),
            None => if h.report is None {
                Some(rpc_error("ACCEPTANCE_REPORT_REQUIRED"@, "acceptance report is required before completion"@))
            } else {
                None
            },
        }
    }
}

/// Completes a handoff that was acknowledged; an acceptance only with its lease, and after its
/// report. The result is the position of the handoff.
pub fn complete_handoff(handoffs: &mut Vec<Handoff>, leases: &LeaseTable, params: &Json, now: u64) -> (r: Result<usize, RpcError>)
    ensures
        ({
            let same = final(handoffs)@ == old(handoffs)@;
            match need(params@, "handoffId"@) {
                Err(e) => fails(r, e) && same,
                Ok(id) => match position_of(old(handoffs)@, id) {
                    None => fails(r, unknown("HANDOFF_NOT_FOUND"@, "unknown handoff: "@, id)) && same,
                    Some(i) => match completion_refusal(old(handoffs)@[i], leases@, params@, now) {
                        Some(e) => fails(r, e) && same,
                        None => r matches Ok(k) && k == i && final(handoffs)@ == old(handoffs)@.update(
                            i,
                            (Handoff { completed_at: Some(now), ..old(handoffs)@[i] }),
                        ),
                    },
                },
            }
        }),
{
    let id = match required_str(params, "handoffId") {
        Ok(s) => s,
        Err(e) => return Err(e),
    };
    let i = match position(handoffs, id) {
        Some(i) => i,
        None => return Err(unknown_error("HANDOFF_NOT_FOUND", "unknown handoff: ", id)),
    };
    if handoffs[i].acknowledged_at.is_none() {
        return Err(RpcError::new("HANDOFF_NOT_ACKNOWLEDGED", "handoff must be acknowledged before completion"));
    }
    if handoffs[i].kind == HandoffKind::Acceptance {
        if let Some(e) = acceptance_error(leases, params, now, "acceptance resource is required") {
            return Err(e);
        }
        if handoffs[i].report.is_none() {
            return Err(
                RpcError::new("ACCEPTANCE_REPORT_REQUIRED", "acceptance report is required before completion"),
            );
        }
    }
    handoffs[i].completed_at = Some(now);
    Ok(i)
}

/// A handoff is completed only after it was acknowledged, and an acceptance moreover only by the
/// holder of its lease and after its report.
pub proof fn completion_comes_last(h: Handoff, t: LeasesView, params: JsonView, now: u64)
    requires
        completion_refusal(h, t, params, now) is None,
    ensures
        h.acknowledged_at is Some,
        h.kind == HandoffKind::Acceptance ==> h.report is Some && (need(params, "acceptanceResource"@) matches Ok(
            resource,
        ) && (t.held(resource) matches Some(l) && l.expires_at > now)),
{
}

/// A handoff may be completed exactly when it was acknowledged and, where it is one for
/// acceptance, it has a report and the caller holds an acceptance resource.
pub proof fn completion_needs_no_more(h: Handoff, t: LeasesView, params: JsonView, now: u64)
    ensures
        completion_refusal(h, t, params, now) is None == (h.acknowledged_at is Some && (h.kind
            == HandoffKind::Acceptance ==> h.report is Some && (match (
            need(params, "acceptanceResource"@),
            need(params, "owner"@),
            need(params, "leaseToken"@),
        ) {
            (Ok(resource), Ok(owner), Ok(token)) => "acceptance:"@.is_prefix_of(resource) && (t.held(resource) matches Some(
                l,
            ) && l.owner@ == owner && l.token@ == token && now < l.expires_at),
            _ => false,
        }))),
{
}

/// The handoffs that are listed are exactly those of the kind, and to the agent, that are asked
/// for, in order.
pub proof fn listed_handoffs_are_those_asked_for(items: Seq<Handoff>, params: JsonView, n: int, k: int)
    requires
        0 <= n <= items.len() <= usize::MAX,
        0 <= k < n,
    ensures
        listed_upto(items, params, n).contains(k as usize) == ((params.get_str("kind"@) matches Some(x) ==> x == (
        if items[k].kind == HandoffKind::Work {
            "work"@
        } else {
            "acceptance"@
        })) && (params.get_str("agentId"@) matches Some(a) ==> (items[k].to.agent_id matches Some(b) && b@ == a))),
        forall|i: int| 0 <= i < listed_upto(items, params, n).len() ==> #[trigger] listed_upto(items, params, n)[i] < n,
        forall|i: int, j: int|
            0 <= i < j < listed_upto(items, params, n).len() ==> #[trigger] listed_upto(items, params, n)[i]
                < #[trigger] listed_upto(items, params, n)[j],
    decreases n,
{
    let before = listed_upto(items, params, n - 1);
    let after = listed_upto(items, params, n);
    if n > 1 {
        listed_handoffs_are_those_asked_for(items, params, n - 1, if k < n - 1 {
            k
        } else {
            0
        });
    }
    assert(forall|i: int| 0 <= i < before.len() ==> #[trigger] before[i] < n - 1);
    if listed(items[n - 1], params) {
        assert(after == before.push((n - 1) as usize));
        assert(after[before.len() as int] == (n - 1) as usize);
        if before.contains(k as usize) {
            let x = choose|x: int| 0 <= x < before.len() && before[x] == k as usize;
            assert(after[x] == k as usize);
        }
    }
    if k == n - 1 && before.contains(k as usize) {
        let x = choose|x: int| 0 <= x < before.len() && before[x] == k as usize;
        assert(before[x] < n - 1);
    }
}

} // verus!
