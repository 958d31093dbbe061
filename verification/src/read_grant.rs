//! Grants to read below a directory of an executor: asked for, approved by somebody, revoked.

use crate::controller::get_record;
use crate::json::{Json, JsonView};
use crate::rpc::{fails, need, required_str, rpc_error, unknown, RpcError, RpcErrorView};
use crate::schema::{ReadGrant, ReadGrantState};
use crate::session::revoked_grant;
use crate::table::{position, position_of, Keyed};
use crate::task::opt_text;
use crate::text::{str_eq, views};
use vstd::prelude::*;

verus! {

/// The session, the executor and the directory that a request for a grant names.
pub open spec fn wanted(params: JsonView) -> Result<(Seq<char>, Seq<char>, Seq<char>), RpcErrorView> {
    match (need(params, "workspaceSessionId"@), need(params, "executorId"@), need(params, "requestedRoot"@)) {
        (Err(e), _, _) => Err(e),
        (Ok(_), Err(e), _) => Err(e),
        (Ok(_), Ok(_), Err(e)) => Err(e),
        (Ok(workspace), Ok(executor), Ok(root)) => Ok((workspace, executor, root)),
    }
}

/// The executor that resolves the directory of a request for a grant, and the parameters with
/// which it is asked.
pub fn resolve_read_grant(params: &Json) -> (r: Result<(String, Json), RpcError>)
    ensures
        match wanted(params@) {
            Err(e) => fails(r, e),
            Ok(w) => r matches Ok(x) && x.0@ == w.1 && x.1@ == JsonView::obj().plus(
                "requestedRoot"@,
                JsonView::Text(w.2),
            ),
        },
{
    match required_str(params, "workspaceSessionId") {
        Ok(_) => {},
        Err(e) => return Err(e),
    }
    let executor = match required_str(params, "executorId") {
        Ok(s) => s,
        Err(e) => return Err(e),
    };
    let root = match required_str(params, "requestedRoot") {
        Ok(s) => s,
        Err(e) => return Err(e),
    };
    Ok((executor.to_owned(), Json::obj().plus("requestedRoot", Json::text(root))))
}

/// The capabilities that a grant covers: those that read.
pub open spec fn reading() -> Seq<Seq<char>> {
    seq![
        "filesystem.resolve"@,
        "filesystem.stat"@,
        "filesystem.list"@,
        "filesystem.read"@,
        "filesystem.search"@,
    ]
}

/// What a grant that was just asked for holds.
pub open spec fn grant_requested(
    g: ReadGrant,
    id: Seq<char>,
    w: (Seq<char>, Seq<char>, Seq<char>),
    resolved_root: Seq<char>,
    by: Seq<char>,
    audit: JsonView,
    now: u64,
) -> bool {
    &&& g.id@ == id
    &&& g.workspace_session_id@ == w.0
    &&& g.executor_id@ == w.1
    &&& g.requested_root@ == w.2
    &&& g.real_root@ == resolved_root
    &&& views(g.capabilities@) == reading()
    &&& g.state == ReadGrantState::Requested
    &&& g.requested_by@ == by
    &&& g.created_at == now
    &&& g.approved_at is None
    &&& g.revoked_at is None
    &&& g.approved_by is None
    &&& g.audit@ == audit
}

/// Notes a request for a grant, with the directory that the executor resolved. The result is the
/// position of the grant.
pub fn request_read_grant(grants: &mut Vec<ReadGrant>, params: &Json, resolved: &Json, now: u64, id: &str) -> (r: Result<
    usize,
    RpcError,
>)
    ensures
        ({
            let same = final(grants)@ == old(grants)@;
            match wanted(params@) {
                Err(e) => fails(r, e) && same,
                Ok(w) => match (need(resolved@, "realRoot"@), need(params@, "requestedBy"@)) {
                    (Err(e), _) => fails(r, e) && same,
                    (Ok(_), Err(e)) => fails(r, e) && same,
                    (Ok(resolved_root), Ok(by)) => {
                        &&& r matches Ok(k) && k == old(grants)@.len() && final(grants)@ == old(grants)@.push(
                            final(grants)@[k as int],
                        ) && grant_requested(
                            final(grants)@[k as int],
                            id@,
                            w,
                            resolved_root,
                            by,
                            crate::evidence::field_or(params@, "audit"@, JsonView::obj()),
                            now,
                        )
                    },
                },
            }
        }),
{
    let workspace = match required_str(params, "workspaceSessionId") {
        Ok(s) => s,
        Err(e) => return Err(e),
    };
    let executor = match required_str(params, "executorId") {
        Ok(s) => s,
        Err(e) => return Err(e),
    };
    let root = match required_str(params, "requestedRoot") {
        Ok(s) => s,
        Err(e) => return Err(e),
    };
    let resolved_root = match required_str(resolved, "realRoot") {
        Ok(s) => s,
        Err(e) => return Err(e),
    };
    let by = match required_str(params, "requestedBy") {
        Ok(s) => s,
        Err(e) => return Err(e),
    };
    let mut capabilities: Vec<String> = Vec::new();
    capabilities.push("filesystem.resolve".to_owned());
    capabilities.push("filesystem.stat".to_owned());
    capabilities.push("filesystem.list".to_owned());
    capabilities.push("filesystem.read".to_owned());
    capabilities.push("filesystem.search".to_owned());
    assert(views(capabilities@) =~= reading());
    let audit = match params.get("audit") {
        Some(v) => v.copy(),
        None => Json::obj(),
    };
    let n = grants.len();
    grants.push(
        ReadGrant {
            id: id.to_owned(),
            workspace_session_id: workspace.to_owned(),
            executor_id: executor.to_owned(),
            requested_root: root.to_owned(),
            real_root: resolved_root.to_owned(),
            capabilities,
            state: ReadGrantState::Requested,
            requested_by: by.to_owned(),
            created_at: now,
            approved_at: None,
            revoked_at: None,
            approved_by: None,
            audit,
        },
    );
    Ok(n)
}

/// The position of the grant that a request approves, or why it is not approved.
pub open spec fn approvable(grants: Seq<ReadGrant>, params: JsonView) -> Result<int, RpcErrorView> {
    match (need(params, "grantId"@), need(params, "approvedBy"@)) {
        (Err(e), _) => Err(e),
        (Ok(_), Err(e)) => Err(e),
        (Ok(id), Ok(_)) => match position_of(grants, id) {
            None => Err(unknown("READ_GRANT_NOT_FOUND"@, "unknown read grant: "@, id)),
            Some(i) => if grants[i].state != ReadGrantState::Requested {
                Err(rpc_error("INVALID_READ_GRANT_STATE"@, "only requested grants can be approved"@))
            } else {
                Ok(i)
            },
        },
    }
}

/// Whether a grant is another that was approved.
pub open spec fn approves(after: ReadGrant, before: ReadGrant, by: Seq<char>, now: u64) -> bool {
    opt_text(after.approved_by) == Some(by) && after == (ReadGrant {
        state: ReadGrantState::Approved,
        approved_at: Some(now),
        approved_by: after.approved_by,
        ..before
    })
}

/// The position of the grant that a request approves. The executor has to be told of it before it
/// is approved.
pub fn check_approval(grants: &Vec<ReadGrant>, params: &Json) -> (r: Result<usize, RpcError>)
    ensures
        match approvable(grants@, params@) {
            Err(e) => fails(r, e),
            Ok(i) => r matches Ok(k) && k == i && k < grants@.len(),
        },
{
    let id = match required_str(params, "grantId") {
        Ok(s) => s,
        Err(e) => return Err(e),
    };
    match required_str(params, "approvedBy") {
        Ok(_) => {},
        Err(e) => return Err(e),
    }
    let i = match position(grants, id) {
        Some(i) => i,
        None => return Err(crate::rpc::unknown_error("READ_GRANT_NOT_FOUND", "unknown read grant: ", id)),
    };
    if grants[i].state != ReadGrantState::Requested {
        return Err(RpcError::new("INVALID_READ_GRANT_STATE", "only requested grants can be approved"));
    }
    Ok(i)
}

/// A grant as it is approved by somebody.
pub fn approved_grant(grant: ReadGrant, approver: &str, now: u64) -> (r: ReadGrant)
    ensures
        approves(r, grant, approver@, now),
{
    let mut grant = grant;
    grant.state = ReadGrantState::Approved;
    grant.approved_at = Some(now);
    grant.approved_by = Some(approver.to_owned());
    grant
}

/// Approves the grant that a request names.
pub fn approve_read_grant(grants: &mut Vec<ReadGrant>, params: &Json, now: u64) -> (r: Result<usize, RpcError>)
    ensures
        match approvable(old(grants)@, params@) {
            Err(e) => fails(r, e) && final(grants)@ == old(grants)@,
            Ok(i) => {
                &&& r matches Ok(k) && k == i
                &&& final(grants)@ == old(grants)@.update(i, final(grants)@[i])
                &&& need(params@, "approvedBy"@) matches Ok(by) && approves(final(grants)@[i], old(grants)@[i], by, now)
            },
        },
{
    let i = match check_approval(grants, params) {
        Ok(i) => i,
        Err(e) => return Err(e),
    };
    let approver = match required_str(params, "approvedBy") {
        Ok(s) => s,
        Err(e) => return Err(e),
    };
    let ghost before = grants@;
    grants[i].state = ReadGrantState::Approved;
    grants[i].approved_at = Some(now);
    grants[i].approved_by = Some(approver.to_owned());
    assert(grants@ =~= before.update(i as int, grants@[i as int]));
    Ok(i)
}

/// The position of the grant that a request names.
pub fn get_read_grant(grants: &Vec<ReadGrant>, params: &Json) -> (r: Result<usize, RpcError>)
    ensures
        match need(params@, "grantId"@) {
            Err(e) => fails(r, e),
            Ok(id) => match position_of(grants@, id) {
                Some(i) => r matches Ok(k) && k == i && k < grants@.len(),
                None => fails(r, unknown("READ_GRANT_NOT_FOUND"@, "unknown read grant: "@, id)),
            },
        },
{
    get_record(grants, params, "grantId", "READ_GRANT_NOT_FOUND", "unknown read grant: ")
}

/// Revokes the grant that a request names, after the executor was told.
pub fn revoke_read_grant(grants: &mut Vec<ReadGrant>, params: &Json, now: u64) -> (r: Result<usize, RpcError>)
    ensures
        match need(params@, "grantId"@) {
            Err(e) => fails(r, e) && final(grants)@ == old(grants)@,
            Ok(id) => match position_of(old(grants)@, id) {
                Some(i) => r matches Ok(k) && k == i && final(grants)@ == old(grants)@.update(
                    i,
                    revoked_grant(old(grants)@[i], now),
                ),
                None => fails(r, unknown("READ_GRANT_NOT_FOUND"@, "unknown read grant: "@, id)) && final(grants)@
                    == old(grants)@,
            },
        },
{
    match get_read_grant(grants, params) {
        Err(e) => Err(e),
        Ok(i) => {
            grants[i].state = ReadGrantState::Revoked;
            grants[i].revoked_at = Some(now);
            Ok(i)
        },
    }
}

/// Whether a grant is among those that a request for a list asks for.
pub open spec fn grant_listed(g: ReadGrant, params: JsonView) -> bool {
    &&& params.get_str("workspaceSessionId"@) matches Some(w) ==> w == g.workspace_session_id@
    &&& params.get_str("executorId"@) matches Some(x) ==> x == g.executor_id@
}

/// The positions, below a bound, of the grants that a request for a list asks for.
pub open spec fn grants_upto(grants: Seq<ReadGrant>, params: JsonView, n: int) -> Seq<usize>
    decreases n,
{
    if n <= 0 {
        Seq::empty()
    } else {
        let before = grants_upto(grants, params, n - 1);
        if grant_listed(grants[n - 1], params) {
            before.push((n - 1) as usize)
        } else {
            before
        }
    }
}

/// The positions of the grants of the session and of the executor that `params` names, where it
/// names them.
pub fn list_read_grants(grants: &Vec<ReadGrant>, params: &Json) -> (r: Vec<usize>)
    ensures
        r@ == grants_upto(grants@, params@, grants@.len() as int),
{
    let workspace = params.get_text("workspaceSessionId");
    let executor = params.get_text("executorId");
    let mut r: Vec<usize> = Vec::new();
    let mut i: usize = 0;
    while i < grants.len()
        invariant
            i <= grants.len(),
            opt_text(workspace) == params@.get_str("workspaceSessionId"@),
            opt_text(executor) == params@.get_str("executorId"@),
            r@ == grants_upto(grants@, params@, i as int),
        decreases grants.len() - i,
    {
        let a = match &workspace {
            Some(w) => str_eq(w.as_str(), grants[i].workspace_session_id.as_str()),
            None => true,
        };
        let b = match &executor {
            Some(x) => str_eq(x.as_str(), grants[i].executor_id.as_str()),
            None => true,
        };
        if a && b {
            r.push(i);
        }
        i += 1;
    }
    r
}

/// A grant is approved at most once, and only while it is asked for: one that was approved or
/// revoked is refused.
pub proof fn grant_is_approved_once(grants: Seq<ReadGrant>, params: JsonView, i: int, after: ReadGrant)
    requires
        approvable(grants, params) == Ok::<int, RpcErrorView>(i),
        0 <= i < grants.len(),
        after.id@ == grants[i].id@,
        after.state != ReadGrantState::Requested,
    ensures
        approvable(grants.update(i, after), params) is Err,
{
    let b = grants.update(i, after);
    assert forall|k: int| 0 <= k < grants.len() implies (#[trigger] grants[k]).key_view() == b[k].key_view() by {}
    crate::table::lemma_position_by_names(grants, b, need(params, "grantId"@)->Ok_0, 0);
}

/// The grants that are listed are exactly those of the session and of the executor that are asked
/// for, in order.
pub proof fn listed_grants_are_those_asked_for(grants: Seq<ReadGrant>, params: JsonView, n: int, k: int)
    requires
        0 <= n <= grants.len() <= usize::MAX,
        0 <= k < n,
    ensures
        grants_upto(grants, params, n).contains(k as usize) == ((params.get_str("workspaceSessionId"@) is None
            || params.get_str("workspaceSessionId"@) == Some(grants[k].workspace_session_id@)) && (params.get_str(
            "executorId"@,
        ) is None || params.get_str("executorId"@) == Some(grants[k].executor_id@))),
        forall|i: int| 0 <= i < grants_upto(grants, params, n).len() ==> #[trigger] grants_upto(grants, params, n)[i] < n,
        forall|i: int, j: int|
            0 <= i < j < grants_upto(grants, params, n).len() ==> #[trigger] grants_upto(grants, params, n)[i]
                < #[trigger] grants_upto(grants, params, n)[j],
    decreases n,
{
    let before = grants_upto(grants, params, n - 1);
    let after = grants_upto(grants, params, n);
    if n > 1 {
        listed_grants_are_those_asked_for(grants, params, n - 1, if k < n - 1 {
            k
        } else {
            0
        });
    }
    assert(forall|i: int| 0 <= i < before.len() ==> #[trigger] before[i] < n - 1);
    if grant_listed(grants[n - 1], params) {
        assert(after == before.push((n - 1) as usize));
        assert(after[before.len() as int] == (n - 1) as usize);
        if before.contains(k as usize) {
            let x = choose|x: int| 0 <= x < before.len() && before[x] == k as usize;
            assert(after[x] == k as usize);
        }
    }
    if k == n - 1 && before.contains(k as usize) {
        let x = choose|x: int| 0 <= x < before.len() && before[x] == k as usize;
        assert(before[x] < n - 1);
    }
}

/// A grant that is approved was asked for and neither approved nor revoked before, and only its
/// approval changes: it stays for the same session, executor, directory and capabilities.
pub proof fn approval_widens_nothing(grants: Seq<ReadGrant>, params: JsonView, i: int, after: ReadGrant, by: Seq<char>, now: u64)
    requires
        approvable(grants, params) == Ok::<int, RpcErrorView>(i),
        approves(after, grants[i], by, now),
    ensures
        grants[i].state == ReadGrantState::Requested,
        after.state == ReadGrantState::Approved,
        after.real_root == grants[i].real_root,
        after.capabilities == grants[i].capabilities,
        after.workspace_session_id == grants[i].workspace_session_id,
        after.executor_id == grants[i].executor_id,
        after.approved_at == Some(now),
        opt_text(after.approved_by) == Some(by),
{
}

/// A grant covers reading alone.
pub proof fn grant_covers_reading_alone(
    g: ReadGrant,
    id: Seq<char>,
    w: (Seq<char>, Seq<char>, Seq<char>),
    resolved_root: Seq<char>,
    by: Seq<char>,
    audit: JsonView,
    now: u64,
    i: int,
)
    requires
        grant_requested(g, id, w, resolved_root, by, audit, now),
        0 <= i < g.capabilities@.len(),
    ensures
        g.state != ReadGrantState::Approved,
        g.real_root@ == resolved_root,
        g.capabilities@[i]@ == "filesystem.resolve"@ || g.capabilities@[i]@ == "filesystem.stat"@ || g.capabilities@[i]@
            == "filesystem.list"@ || g.capabilities@[i]@ == "filesystem.read"@ || g.capabilities@[i]@
            == "filesystem.search"@,
{
    assert(views(g.capabilities@)[i] == g.capabilities@[i]@);
    assert(reading().len() == 5 && views(g.capabilities@).len() == g.capabilities@.len());
    assert(i == 0 || i == 1 || i == 2 || i == 3 || i == 4);
}

} // verus!
