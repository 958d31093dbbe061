//! Approvals: leave to run one exact command, once, within a time.

use crate::json::Json;
use crate::lease::{end_of, later};
use crate::rpc::{fails, need, required_str, rpc_error, unknown, unknown_error, RpcError, RpcErrorView};
use crate::schema::{Approval, ApprovalState};
use crate::table::{lemma_position_by_names, position, position_of, Keyed};
use crate::text::str_eq;
use vstd::prelude::*;

verus! {

/// Whether an approval still stands for a command of an owner, asked for or given.
pub open spec fn open_for(a: Approval, digest: Seq<char>, owner: Seq<char>) -> bool {
    a.digest@ == digest && a.owner@ == owner && (a.state == ApprovalState::Pending || a.state
        == ApprovalState::Approved)
}

/// The first approval at or after a position that still stands for a command of an owner.
pub open spec fn open_from(items: Seq<Approval>, digest: Seq<char>, owner: Seq<char>, from: int) -> Option<int>
    decreases items.len() - from,
{
    if from < 0 || from >= items.len() {
        None
    } else if open_for(items[from], digest, owner) {
        Some(from)
    } else {
        open_from(items, digest, owner, from + 1)
    }
}

/// What an approval that was just asked for holds.
pub open spec fn requested(a: Approval, id: Seq<char>, digest: Seq<char>, owner: Seq<char>, reason: Seq<char>, now: u64) -> bool {
    &&& a.id@ == id
    &&& a.digest@ == digest
    &&& a.owner@ == owner
    &&& a.reason@ == reason
    &&& a.state == ApprovalState::Pending
    &&& a.created_at == now
    &&& a.approved_at is None
    &&& a.consumed_at is None
    &&& a.expires_at is None
}

/// Asks for an approval. One for the same command of the same owner that is asked for or given
/// already is returned instead. The result is the position of the approval.
pub fn request_approval(approvals: &mut Vec<Approval>, params: &Json, now: u64, id: &str) -> (r: Result<usize, RpcError>)
    ensures
        match (need(params@, "digest"@), need(params@, "owner"@)) {
            (Err(e), _) => fails(r, e) && final(approvals)@ == old(approvals)@,
            (Ok(_), Err(e)) => fails(r, e) && final(approvals)@ == old(approvals)@,
            (Ok(digest), Ok(owner)) => match open_from(old(approvals)@, digest, owner, 0) {
                Some(i) => r matches Ok(k) && k == i && final(approvals)@ == old(approvals)@,
                None => match need(params@, "reason"@) {
                    Err(e) => fails(r, e) && final(approvals)@ == old(approvals)@,
                    Ok(reason) => {
                        &&& r matches Ok(k) && k == old(approvals)@.len() && final(approvals)@ == old(approvals)@.push(
                            final(approvals)@[k as int],
                        ) && requested(final(approvals)@[k as int], id@, digest, owner, reason, now)
                    },
                },
            },
        },
{
    let digest = match required_str(params, "digest") {
        Ok(s) => s,
        Err(e) => return Err(e),
    };
    let owner = match required_str(params, "owner") {
        Ok(s) => s,
        Err(e) => return Err(e),
    };
    let mut i: usize = 0;
    while i < approvals.len()
        invariant
            i <= approvals.len(),
            approvals@ == old(approvals)@,
            need(params@, "digest"@) == Ok::<Seq<char>, RpcErrorView>(digest@),
            need(params@, "owner"@) == Ok::<Seq<char>, RpcErrorView>(owner@),
            open_from(approvals@, digest@, owner@, 0) == open_from(approvals@, digest@, owner@, i as int),
        decreases approvals.len() - i,
    {
        let a = &approvals[i];
        if str_eq(a.digest.as_str(), digest) && str_eq(a.owner.as_str(), owner) && (a.state
            == ApprovalState::Pending || a.state == ApprovalState::Approved) {
            return Ok(i);
        }
        i += 1;
    }
    let reason = match required_str(params, "reason") {
        Ok(s) => s,
        Err(e) => return Err(e),
    };
    let n = approvals.len();
    approvals.push(
        Approval {
            id: id.to_owned(),
            digest: digest.to_owned(),
            owner: owner.to_owned(),
            reason: reason.to_owned(),
            state: ApprovalState::Pending,
            created_at: now,
            approved_at: None,
            consumed_at: None,
            expires_at: None,
        },
    );
    Ok(n)
}

/// An approval after it was given at `now` for some milliseconds.
pub open spec fn approved(a: Approval, now: u64, ttl: u64) -> Approval {
    Approval {
        state: ApprovalState::Approved,
        approved_at: Some(now),
        expires_at: Some(later(now, ttl)),
        ..a
    }
}

/// Gives a pending approval, for `ttlMs` milliseconds from `now`.
pub fn approve(approvals: &mut Vec<Approval>, params: &Json, now: u64) -> (r: Result<usize, RpcError>)
    ensures
        match need(params@, "approvalId"@) {
            Err(e) => fails(r, e) && final(approvals)@ == old(approvals)@,
            Ok(id) => match position_of(old(approvals)@, id) {
                None => fails(r, unknown("APPROVAL_NOT_FOUND"@, "unknown approval: "@, id)) && final(approvals)@
                    == old(approvals)@,
                Some(i) => if old(approvals)@[i].state != ApprovalState::Pending {
                    fails(r, rpc_error("APPROVAL_NOT_PENDING"@, "approval is not pending"@)) && final(approvals)@
                        == old(approvals)@
                } else {
                    r matches Ok(k) && k == i && final(approvals)@ == old(approvals)@.update(
                        i,
                        approved(old(approvals)@[i], now, params@.u64_or("ttlMs"@, 300_000)),
                    )
                },
            },
        },
{
    let id = match required_str(params, "approvalId") {
        Ok(s) => s,
        Err(e) => return Err(e),
    };
    let i = match position(approvals, id) {
        Some(i) => i,
        None => return Err(unknown_error("APPROVAL_NOT_FOUND", "unknown approval: ", id)),
    };
    if approvals[i].state != ApprovalState::Pending {
        return Err(RpcError::new("APPROVAL_NOT_PENDING", "approval is not pending"));
    }
    approvals[i].state = ApprovalState::Approved;
    approvals[i].approved_at = Some(now);
    approvals[i].expires_at = Some(end_of(now, params.u64_or("ttlMs", 300_000)));
    Ok(i)
}

/// Takes an approval back.
pub fn revoke(approvals: &mut Vec<Approval>, params: &Json) -> (r: Result<usize, RpcError>)
    ensures
        match need(params@, "approvalId"@) {
            Err(e) => fails(r, e) && final(approvals)@ == old(approvals)@,
            Ok(id) => match position_of(old(approvals)@, id) {
                None => fails(r, unknown("APPROVAL_NOT_FOUND"@, "unknown approval: "@, id)) && final(approvals)@
                    == old(approvals)@,
                Some(i) => r matches Ok(k) && k == i && final(approvals)@ == old(approvals)@.update(
                    i,
                    (Approval { state: ApprovalState::Revoked, ..old(approvals)@[i] }),
                ),
            },
        },
{
    let id = match required_str(params, "approvalId") {
        Ok(s) => s,
        Err(e) => return Err(e),
    };
    let i = match position(approvals, id) {
        Some(i) => i,
        None => return Err(unknown_error("APPROVAL_NOT_FOUND", "unknown approval: ", id)),
    };
    approvals[i].state = ApprovalState::Revoked;
    Ok(i)
}

/// Whether an approval authorizes a command of an owner at a time.
pub open spec fn authorizes(a: Approval, digest: Seq<char>, owner: Seq<char>, now: u64) -> bool {
    a.digest@ == digest && a.owner@ == owner && a.state == ApprovalState::Approved && (a.expires_at matches Some(t)
        && t > now)
}

/// The error that an approval is not for this command.
pub open spec fn not_authorized() -> RpcErrorView {
    rpc_error("APPROVAL_INVALID"@, "approval does not authorize this exact command"@)
}

/// Uses up the approval `approval_id` for the command with a digest, of an owner.
pub fn consume(approvals: &mut Vec<Approval>, approval_id: &str, digest: &str, owner: &str, now: u64) -> (r: Result<
    (),
    RpcError,
>)
    ensures
        match position_of(old(approvals)@, approval_id@) {
            None => fails(r, rpc_error("APPROVAL_NOT_FOUND"@, "approval not found"@)) && final(approvals)@
                == old(approvals)@,
            Some(i) => if authorizes(old(approvals)@[i], digest@, owner@, now) {
                r is Ok && final(approvals)@ == old(approvals)@.update(
                    i,
                    (Approval { state: ApprovalState::Consumed, consumed_at: Some(now), ..old(approvals)@[i] }),
                )
            } else {
                fails(r, not_authorized()) && final(approvals)@ == old(approvals)@
            },
        },
{
    let i = match position(approvals, approval_id) {
        Some(i) => i,
        None => return Err(RpcError::new("APPROVAL_NOT_FOUND", "approval not found")),
    };
    let a = &approvals[i];
    let live = match a.expires_at {
        Some(t) => t > now,
        None => false,
    };
    if !str_eq(a.digest.as_str(), digest) || !str_eq(a.owner.as_str(), owner) || a.state != ApprovalState::Approved
        || !live {
        return Err(RpcError::new("APPROVAL_INVALID", "approval does not authorize this exact command"));
    }
    approvals[i].state = ApprovalState::Consumed;
    approvals[i].consumed_at = Some(now);
    Ok(())
}

/// An approval that was used up authorizes nothing, at any time, and cannot be given again.
pub proof fn approval_is_used_once(items: Seq<Approval>, i: int, now: u64, digest: Seq<char>, owner: Seq<char>, at: u64)
    requires
        0 <= i < items.len(),
        position_of(items, items[i].id@) == Some(i),
    ensures
        ({
            let after = items.update(
                i,
                (Approval { state: ApprovalState::Consumed, consumed_at: Some(now), ..items[i] }),
            );
            &&& position_of(after, items[i].id@) == Some(i)
            &&& !authorizes(after[i], digest, owner, at)
            &&& after[i].state != ApprovalState::Pending
        }),
{
    let after = items.update(i, (Approval { state: ApprovalState::Consumed, consumed_at: Some(now), ..items[i] }));
    assert forall|k: int| 0 <= k < items.len() implies (#[trigger] items[k]).key_view() == after[k].key_view() by {}
    lemma_position_by_names(items, after, items[i].id@, 0);
}

/// An approval authorizes only the command and the owner that it was asked for, and only until
/// it ends.
pub proof fn approval_is_exact(a: Approval, now: u64, ttl: u64, digest: Seq<char>, owner: Seq<char>, at: u64)
    ensures
        authorizes(approved(a, now, ttl), digest, owner, at) == (a.digest@ == digest && a.owner@ == owner && at
            < later(now, ttl)),
{
}

/// Exactly an approval that was given, for this command and this owner, and that is not past its
/// end, lets the command run: one that is only asked for, taken back or used up does not.
pub proof fn only_a_given_approval_authorizes(a: Approval, digest: Seq<char>, owner: Seq<char>, now: u64)
    ensures
        authorizes(a, digest, owner, now) ==> a.state == ApprovalState::Approved && a.digest@ == digest && a.owner@
            == owner && a.expires_at is Some && now < a.expires_at->0,
        a.state == ApprovalState::Approved && a.digest@ == digest && a.owner@ == owner && (a.expires_at matches Some(t)
            && now < t) ==> authorizes(a, digest, owner, now),
{
}

/// Asking for an approval finds the first one for the same command and owner that is asked for or
/// given, and finds none only where there is none.
pub proof fn standing_approval_is_found(items: Seq<Approval>, digest: Seq<char>, owner: Seq<char>, from: int)
    requires
        0 <= from <= items.len(),
    ensures
        match open_from(items, digest, owner, from) {
            Some(i) => {
                &&& from <= i < items.len()
                &&& items[i].digest@ == digest && items[i].owner@ == owner
                &&& items[i].state != ApprovalState::Revoked && items[i].state != ApprovalState::Consumed && items[i].state
                    != ApprovalState::Expired
                &&& forall|k: int|
                    from <= k < i && (#[trigger] items[k]).digest@ == digest && items[k].owner@ == owner ==> items[k].state
                        != ApprovalState::Pending && items[k].state != ApprovalState::Approved
            },
            None => forall|k: int|
                from <= k < items.len() && (#[trigger] items[k]).digest@ == digest && items[k].owner@ == owner
                    ==> items[k].state != ApprovalState::Pending && items[k].state != ApprovalState::Approved,
        },
    decreases items.len() - from,
{
    if from < items.len() && !open_for(items[from], digest, owner) {
        standing_approval_is_found(items, digest, owner, from + 1);
    }
}

/// Giving an approval makes it one that is given, from now until its time is over, for the command
/// and the owner that it was asked for.
pub proof fn given_approval_lasts_its_time(a: Approval, now: u64, ttl: u64)
    requires
        now + ttl <= u64::MAX,
    ensures
        approved(a, now, ttl).state == ApprovalState::Approved,
        approved(a, now, ttl).approved_at == Some(now),
        approved(a, now, ttl).expires_at == Some((now + ttl) as u64),
        approved(a, now, ttl).id == a.id && approved(a, now, ttl).digest == a.digest && approved(a, now, ttl).owner
            == a.owner,
{
}

} // verus!
