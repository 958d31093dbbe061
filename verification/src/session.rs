//! Workspace sessions: which controller has the authority over one, how the authority moves to
//! another controller, and which requests go to that controller.

use crate::codec::{debug_option, debug_text};
use crate::json::{Json, JsonView};
use crate::lease::{end_of, execution_fence, later, later_epochs_supersede, MAX_FENCE_EPOCH};
use crate::rpc::{
    call_result, call_result_view, fails, need, required_str, rpc_error, same_option, unknown, unknown_error, Called,
    RpcError, RpcErrorView,
};
use crate::schema::{
    ActivationTransaction, AgentInstance, Artifact, ControllerPeer, Generation, Handoff, ReadGrant, ReadGrantState,
    SessionAuthority, SessionState, Task, TaskState, WorkspaceSession,
};
use crate::state::WorkbenchState;
use crate::table::{
    find_in, lookup, position, position_of, upsert_by, upserted, upserted_record_is_found, Keyed,
};
use crate::task::{allowed, opt_text};
use crate::text::{concat2, concat3, concat4, opt_eq, starts_with, str_eq, strip_prefix};
use vstd::prelude::*;

verus! {

/// What an authority says: the controller, the epoch and the controller that it moves to.
pub open spec fn authority_view(a: SessionAuthority) -> (Seq<char>, u64, Option<Seq<char>>) {
    (a.controller_id@, a.epoch, opt_text(a.pending_controller_id))
}

/// What the authority of a session says, where it has one.
pub open spec fn authority_of(s: WorkspaceSession) -> Option<(Seq<char>, u64, Option<Seq<char>>)> {
    match s.authority {
        Some(a) => Some(authority_view(a)),
        None => None,
    }
}

/// Whether two authorities say the same.
pub fn same_authority(a: &SessionAuthority, b: &SessionAuthority) -> (r: bool)
    ensures
        r == (authority_view(*a) == authority_view(*b)),
{
    str_eq(a.controller_id.as_str(), b.controller_id.as_str()) && a.epoch == b.epoch && same_option(
        &a.pending_controller_id,
        &b.pending_controller_id,
    )
}

/// Whether a session of a list, by its name, has an authority.
pub open spec fn stored_authority(sessions: Seq<WorkspaceSession>, id: Seq<char>) -> Option<(Seq<char>, u64, Option<Seq<char>>)> {
    match find_in(sessions, id) {
        Some(s) => authority_of(s),
        None => None,
    }
}

/// The epoch of the authority over a session; zero where it has none.
pub open spec fn epoch_of(sessions: Seq<WorkspaceSession>, id: Seq<char>) -> u64 {
    match stored_authority(sessions, id) {
        Some(a) => a.1,
        None => 0,
    }
}

/// The epoch of the authority over a session; zero where it has none.
pub fn session_epoch(sessions: &Vec<WorkspaceSession>, id: &str) -> (r: u64)
    ensures
        r == epoch_of(sessions@, id@),
{
    match lookup(sessions, id) {
        Some(s) => match &s.authority {
            Some(a) => a.epoch,
            None => 0,
        },
        None => 0,
    }
}

/// A session with an authority in place of its own.
pub open spec fn governed(after: WorkspaceSession, s: WorkspaceSession, authority: (Seq<char>, u64, Option<Seq<char>>)) -> bool {
    authority_of(after) == Some(authority) && after == (WorkspaceSession { authority: after.authority, ..s })
}

/// Whether a grant belongs to a session and is in force.
pub open spec fn in_force(g: ReadGrant, session: Seq<char>) -> bool {
    g.workspace_session_id@ == session && g.state == ReadGrantState::Approved
}

/// The names and the executors of the grants, among the first `n`, that are in force in a session.
pub open spec fn grants_in_force(grants: Seq<ReadGrant>, session: Seq<char>, n: int) -> Seq<(Seq<char>, Seq<char>)>
    decreases n,
{
    if n <= 0 {
        Seq::empty()
    } else {
        let before = grants_in_force(grants, session, n - 1);
        if in_force(grants[n - 1], session) {
            before.push((grants[n - 1].id@, grants[n - 1].executor_id@))
        } else {
            before
        }
    }
}

/// What each pair of texts holds.
pub open spec fn pair_views(v: Seq<(String, String)>) -> Seq<(Seq<char>, Seq<char>)> {
    v.map_values(|p: (String, String)| (p.0@, p.1@))
}

/// The error that the authority over a session cannot be set.
pub open spec fn authority_fixed() -> RpcErrorView {
    rpc_error("INVALID_AUTHORITY"@, "session authority can only change through handoff"@)
}

/// Makes a session ready to be stored: one without an authority is governed by this controller,
/// and one with another authority than the stored session is refused. The second part of the
/// result names the grants that have to be revoked before an archived session is stored.
pub fn prepare_session(
    id: &str,
    sessions: &Vec<WorkspaceSession>,
    grants: &Vec<ReadGrant>,
    session: WorkspaceSession,
) -> (r: Result<(WorkspaceSession, Vec<(String, String)>), RpcError>)
    ensures
        ({
            let grants_view = if session.state == SessionState::Archived {
                grants_in_force(grants@, session.metadata.id@, grants@.len() as int)
            } else {
                Seq::empty()
            };
            match authority_of(session) {
                None => r matches Ok(p) && governed(p.0, session, (id@, 1, None)) && pair_views(p.1@) == grants_view,
                Some(a) => if a.0 != id@ {
                    fails(
                        r,
                        rpc_error(
                            "NOT_SESSION_AUTHORITY"@,
                            "session "@ + session.metadata.id@ + " is owned by controller "@ + a.0,
                        ),
                    )
                } else if stored_authority(sessions@, session.metadata.id@) != Some(a) {
                    fails(r, authority_fixed())
                } else {
                    r matches Ok(p) && p.0 == session && pair_views(p.1@) == grants_view
                },
            }
        }),
{
    let ghost given = session;
    let mut session = session;
    match &session.authority {
        None => {
            session.authority =
            Some(SessionAuthority { controller_id: id.to_owned(), epoch: 1, pending_controller_id: None });
        },
        Some(authority) => {
            if !str_eq(authority.controller_id.as_str(), id) {
                let message = concat4(
                    "session ",
                    session.metadata.id.as_str(),
                    " is owned by controller ",
                    authority.controller_id.as_str(),
                );
                return Err(RpcError::new("NOT_SESSION_AUTHORITY", message.as_str()));
            }
            let kept = match lookup(sessions, session.metadata.id.as_str()) {
                Some(s) => match &s.authority {
                    Some(a) => same_authority(a, authority),
                    None => false,
                },
                None => false,
            };
            if !kept {
                return Err(RpcError::new("INVALID_AUTHORITY", "session authority can only change through handoff"));
            }
        },
    }
    let mut revoked: Vec<(String, String)> = Vec::new();
    if session.state == SessionState::Archived {
        let mut i: usize = 0;
        while i < grants.len()
            invariant
                i <= grants.len(),
                session.metadata.id@ == given.metadata.id@,
                pair_views(revoked@) == grants_in_force(grants@, given.metadata.id@, i as int),
            decreases grants.len() - i,
        {
            if str_eq(grants[i].workspace_session_id.as_str(), session.metadata.id.as_str()) && grants[i].state
                == ReadGrantState::Approved {
                let ghost before = revoked@;
                revoked.push((grants[i].id.clone(), grants[i].executor_id.clone()));
                assert(pair_views(revoked@) =~= pair_views(before).push((grants@[i as int].id@, grants@[i as int].executor_id@)));
            }
            i += 1;
        }
    }
    assert(session.state == SessionState::Archived || pair_views(revoked@) =~= Seq::<(Seq<char>, Seq<char>)>::empty());
    Ok((session, revoked))
}

/// A grant that was revoked at a time.
pub open spec fn revoked_grant(g: ReadGrant, now: u64) -> ReadGrant {
    ReadGrant { state: ReadGrantState::Revoked, revoked_at: Some(now), ..g }
}

/// The grants after the first of each name, of the first `n` names, was revoked.
pub open spec fn revoke_named(grants: Seq<ReadGrant>, names: Seq<(Seq<char>, Seq<char>)>, n: int, now: u64) -> Seq<ReadGrant>
    decreases n,
{
    if n <= 0 {
        grants
    } else {
        let before = revoke_named(grants, names, n - 1, now);
        match position_of(before, names[n - 1].0) {
            Some(i) => before.update(i, revoked_grant(before[i], now)),
            None => before,
        }
    }
}

/// Stores a session that was made ready, and revokes the grants that were named.
pub fn store_session(
    sessions: &mut Vec<WorkspaceSession>,
    grants: &mut Vec<ReadGrant>,
    session: WorkspaceSession,
    revoked: &Vec<(String, String)>,
    now: u64,
)
    ensures
        final(sessions)@ == upserted(old(sessions)@, session),
        final(grants)@ == revoke_named(old(grants)@, pair_views(revoked@), revoked@.len() as int, now),
{
    upsert_by(sessions, session);
    let mut k: usize = 0;
    while k < revoked.len()
        invariant
            k <= revoked.len(),
            grants@ == revoke_named(old(grants)@, pair_views(revoked@), k as int, now),
        decreases revoked.len() - k,
    {
        let ghost before = grants@;
        if let Some(i) = position(grants, revoked[k].0.as_str()) {
            grants[i].state = ReadGrantState::Revoked;
            grants[i].revoked_at = Some(now);
            assert(grants@ =~= before.update(i as int, revoked_grant(before[i as int], now)));
        }
        assert(pair_views(revoked@)[k as int].0 == revoked@[k as int].0@);
        k += 1;
    }
}

/// What a controller does with a session that is handed to it.
#[derive(Debug)]
pub enum Accepted {
    /// It has the session with that authority already, at a position.
    Already(usize),
    /// It stored the session.
    Stored,
}

/// Why a session that is handed over is refused by a controller, if it is.
pub open spec fn acceptance(id: Seq<char>, sessions: Seq<WorkspaceSession>, session: WorkspaceSession) -> Option<RpcErrorView> {
    match authority_of(session) {
        None => Some(rpc_error("INVALID_AUTHORITY"@, "handoff has no session authority"@)),
        Some(a) => if a.0 != id {
            Some(rpc_error("INVALID_AUTHORITY"@, "handoff target does not match this controller"@))
        } else {
            match stored_authority(sessions, session.metadata.id@) {
                Some(current) => if current != a && current.1 >= a.1 {
                    Some(rpc_error("STALE_AUTHORITY_EPOCH"@, "handoff epoch must increase"@))
                } else {
                    None
                },
                None => None,
            }
        },
    }
}

/// Takes over a session. Its epoch has to be greater than that of the session that is there; a
/// session that was taken over already stays as it is.
pub fn accept_session(id: &str, sessions: &mut Vec<WorkspaceSession>, session: WorkspaceSession) -> (r: Result<Accepted, RpcError>)
    ensures
        match acceptance(id@, old(sessions)@, session) {
            Some(e) => fails(r, e) && final(sessions)@ == old(sessions)@,
            None => if stored_authority(old(sessions)@, session.metadata.id@) == authority_of(session) {
                (r matches Ok(Accepted::Already(i)) && position_of(old(sessions)@, session.metadata.id@) == Some(
                    i as int,
                )) && final(sessions)@ == old(sessions)@
            } else {
                (r matches Ok(Accepted::Stored)) && final(sessions)@ == upserted(old(sessions)@, session)
            },
        },
{
    let authority = match &session.authority {
        Some(a) => a,
        None => return Err(RpcError::new("INVALID_AUTHORITY", "handoff has no session authority")),
    };
    if !str_eq(authority.controller_id.as_str(), id) {
        return Err(RpcError::new("INVALID_AUTHORITY", "handoff target does not match this controller"));
    }
    if let Some(i) = position(sessions, session.metadata.id.as_str()) {
        if let Some(current) = &sessions[i].authority {
            if same_authority(current, authority) {
                return Ok(Accepted::Already(i));
            }
            if current.epoch >= authority.epoch {
                return Err(RpcError::new("STALE_AUTHORITY_EPOCH", "handoff epoch must increase"));
            }
        }
    }
    upsert_by(sessions, session);
    Ok(Accepted::Stored)
}

/// The items after each of a list was put in its place or at the end.
pub open spec fn upserted_all<T: Keyed>(items: Seq<T>, added: Seq<T>) -> Seq<T>
    decreases added.len(),
{
    if added.len() == 0 {
        items
    } else {
        upserted(upserted_all(items, added.drop_last()), added.last())
    }
}

/// Puts each record of a list in its place, or at the end.
pub fn upsert_all<T: Keyed>(items: &mut Vec<T>, added: Vec<T>)
    ensures
        final(items)@ == upserted_all(old(items)@, added@),
{
    let mut rest = added;
    let mut reversed: Vec<T> = Vec::new();
    let ghost all = rest@;
    while rest.len() > 0
        invariant
            rest@.len() + reversed@.len() == all.len(),
            rest@ == all.take(rest@.len() as int),
            forall|k: int| 0 <= k < reversed@.len() ==> #[trigger] reversed@[k] == all[all.len() - 1 - k],
        decreases rest.len(),
    {
        let ghost before = rest@;
        if let Some(item) = rest.pop() {
            reversed.push(item);
        }
    }
    let ghost start = items@;
    assert(all.take(0) =~= Seq::<T>::empty());
    while reversed.len() > 0
        invariant
            reversed@.len() <= all.len(),
            forall|k: int| 0 <= k < reversed@.len() ==> #[trigger] reversed@[k] == all[all.len() - 1 - k],
            items@ == upserted_all(start, all.take(all.len() - reversed@.len())),
        decreases reversed.len(),
    {
        let ghost n = all.len() - reversed@.len();
        if let Some(item) = reversed.pop() {
            upsert_by(items, item);
            proof {
                assert(all.take(n + 1).drop_last() =~= all.take(n));
                assert(all.take(n + 1).last() == item);
            }
        }
    }
    assert(all.take(all.len() as int) =~= all);
}

/// Whether a task of a session is queued or under way.
pub open spec fn unfinished(t: Task, session: Seq<char>) -> bool {
    t.workspace_session_id@ == session && !(t.state == TaskState::Succeeded || t.state == TaskState::Failed || t.state
        == TaskState::Cancelled || t.state == TaskState::TimedOut || t.state == TaskState::OutcomeUnknown)
}

/// Whether nothing of a session is queued or under way.
pub open spec fn quiescent(tasks: Seq<Task>, session: Seq<char>) -> bool {
    forall|i: int| 0 <= i < tasks.len() ==> !unfinished(#[trigger] tasks[i], session)
}

fn is_quiescent(tasks: &Vec<Task>, session: &str) -> (r: bool)
    ensures
        r == quiescent(tasks@, session@),
{
    let mut i: usize = 0;
    while i < tasks.len()
        invariant
            i <= tasks.len(),
            forall|k: int| 0 <= k < i ==> !unfinished(#[trigger] tasks@[k], session@),
        decreases tasks.len() - i,
    {
        let over = match tasks[i].state {
            TaskState::Succeeded
            | TaskState::Failed
            | TaskState::Cancelled
            | TaskState::TimedOut
            | TaskState::OutcomeUnknown => true,
            _ => false,
        };
        if str_eq(tasks[i].workspace_session_id.as_str(), session) && !over {
            assert(unfinished(tasks@[i as int], session@));
            return false;
        }
        i += 1;
    }
    true
}

/// The position of a session, and that of the controller that it moves to; or why it cannot move.
pub open spec fn transfer(
    id: Seq<char>,
    sessions: Seq<WorkspaceSession>,
    controllers: Seq<ControllerPeer>,
    tasks: Seq<Task>,
    params: JsonView,
) -> Result<(int, int), RpcErrorView> {
    match (need(params, "sessionId"@), need(params, "targetControllerId"@)) {
        (Err(e), _) => Err(e),
        (Ok(_), Err(e)) => Err(e),
        (Ok(session), Ok(target)) => match position_of(controllers, target) {
            None => Err(rpc_error("CONTROLLER_NOT_FOUND"@, "target not registered"@)),
            Some(c) => if !quiescent(tasks, session) {
                Err(rpc_error("SESSION_NOT_QUIESCENT"@, "session has queued or running tasks"@))
            } else {
                match position_of(sessions, session) {
                    None => Err(rpc_error("SESSION_NOT_FOUND"@, "session not found"@)),
                    Some(s) => match authority_of(sessions[s]) {
                        None => Err(rpc_error("INVALID_AUTHORITY"@, "session has no authority"@)),
                        Some(a) => if a.0 != id {
                            Err(rpc_error("NOT_SESSION_AUTHORITY"@, "session is owned by "@ + a.0))
                        } else if a.2 is Some && a.2 != Some(target) {
                            Err(
                                rpc_error(
                                    "HANDOFF_IN_PROGRESS"@,
                                    "handoff is already pending to "@ + debug_text(a.2),
                                ),
                            )
                        } else {
                            Ok((s, c))
                        },
                    },
                }
            },
        },
    }
}

/// Begins to move a session to another controller: no task of it may be under way, and from then
/// on it is pending to that controller alone. The result gives the positions of the session and
/// of the controller.
pub fn begin_session_handoff(
    id: &str,
    sessions: &mut Vec<WorkspaceSession>,
    controllers: &Vec<ControllerPeer>,
    tasks: &Vec<Task>,
    params: &Json,
) -> (r: Result<(usize, usize), RpcError>)
    ensures
        match transfer(id@, old(sessions)@, controllers@, tasks@, params@) {
            Err(e) => fails(r, e) && final(sessions)@ == old(sessions)@,
            Ok(p) => {
                &&& r matches Ok(q) && q.0 == p.0 && q.1 == p.1
                &&& 0 <= p.0 < old(sessions)@.len()
                &&& 0 <= p.1 < controllers@.len()
                &&& authority_of(old(sessions)@[p.0]) matches Some(a) && need(params@, "targetControllerId"@) matches Ok(
                    target,
                ) && governed(final(sessions)@[p.0], old(sessions)@[p.0], (id@, a.1, Some(target)))
                &&& final(sessions)@ == old(sessions)@.update(p.0, final(sessions)@[p.0])
            },
        },
{
    let session = match required_str(params, "sessionId") {
        Ok(s) => s,
        Err(e) => return Err(e),
    };
    let target = match required_str(params, "targetControllerId") {
        Ok(s) => s,
        Err(e) => return Err(e),
    };
    proof {
        crate::table::lemma_position_from(controllers@, target@, 0);
        crate::table::lemma_position_from(sessions@, session@, 0);
    }
    let c = match position(controllers, target) {
        Some(c) => c,
        None => return Err(RpcError::new("CONTROLLER_NOT_FOUND", "target not registered")),
    };
    if !is_quiescent(tasks, session) {
        return Err(RpcError::new("SESSION_NOT_QUIESCENT", "session has queued or running tasks"));
    }
    let s = match position(sessions, session) {
        Some(s) => s,
        None => return Err(RpcError::new("SESSION_NOT_FOUND", "session not found")),
    };
    let current = match &sessions[s].authority {
        Some(a) => a.clone(),
        None => return Err(RpcError::new("INVALID_AUTHORITY", "session has no authority")),
    };
    if !str_eq(current.controller_id.as_str(), id) {
        let message = concat2("session is owned by ", current.controller_id.as_str());
        return Err(RpcError::new("NOT_SESSION_AUTHORITY", message.as_str()));
    }
    if current.pending_controller_id.is_some() {
        if !opt_eq(&current.pending_controller_id, target) {
            let shown = debug_option(&current.pending_controller_id);
            let message = concat2("handoff is already pending to ", shown.as_str());
            return Err(RpcError::new("HANDOFF_IN_PROGRESS", message.as_str()));
        }
    } else {
        sessions[s].authority =
        Some(
            SessionAuthority {
                controller_id: id.to_owned(),
                epoch: current.epoch,
                pending_controller_id: Some(target.to_owned()),
            },
        );
    }
    proof {
        assert(sessions@ =~= old(sessions)@.update(s as int, sessions@[s as int]));
    }
    Ok((s, c))
}

/// A session as it is handed to a controller: governed by that controller in the next epoch.
pub fn offered_session(session: WorkspaceSession, target: &str, now: u64) -> (r: WorkspaceSession)
    ensures
        authority_of(session) matches Some(a) ==> authority_of(r) == Some(
            (target@, later(a.1, 1), None::<Seq<char>>),
        ) && r == (WorkspaceSession {
            authority: r.authority,
            metadata: crate::schema::Metadata { updated_at: now, ..session.metadata },
            ..session
        }),
        authority_of(session) is None ==> r == session,
{
    let mut session = session;
    if let Some(current) = &session.authority {
        let epoch = end_of(current.epoch, 1);
        session.authority =
        Some(SessionAuthority { controller_id: target.to_owned(), epoch, pending_controller_id: None });
        session.metadata.updated_at = now;
    }
    session
}

/// Ends the move of a session with what the other controller answered: it is that controller's
/// only if it took the session.
pub fn finish_session_handoff(sessions: &mut Vec<WorkspaceSession>, session: WorkspaceSession, called: Called) -> (r: Result<
    (),
    RpcError,
>)
    ensures
        match call_result_view(
            called@,
            rpc_error("CONTROLLER_UNAVAILABLE"@, Seq::empty()),
            rpc_error("HANDOFF_REJECTED"@, "target rejected session handoff"@),
        ) {
            Ok(_) => r is Ok && final(sessions)@ == upserted(old(sessions)@, session),
            Err(e) => fails(r, e) && final(sessions)@ == old(sessions)@,
        },
{
    match call_result(
        called,
        "CONTROLLER_UNAVAILABLE",
        false,
        "HANDOFF_REJECTED",
        "target rejected session handoff",
    ) {
        Ok(_) => {
            upsert_by(sessions, session);
            Ok(())
        },
        Err(e) => Err(e),
    }
}

/// The position of the session that a request names.
pub fn get_session(sessions: &Vec<WorkspaceSession>, params: &Json) -> (r: Result<usize, RpcError>)
    ensures
        match need(params@, "sessionId"@) {
            Err(e) => fails(r, e),
            Ok(id) => match position_of(sessions@, id) {
                Some(i) => r matches Ok(k) && k == i,
                None => fails(r, unknown("SESSION_NOT_FOUND"@, "unknown session: "@, id)),
            },
        },
{
    let id = match required_str(params, "sessionId") {
        Ok(s) => s,
        Err(e) => return Err(e),
    };
    match position(sessions, id) {
        Some(i) => Ok(i),
        None => Err(unknown_error("SESSION_NOT_FOUND", "unknown session: ", id)),
    }
}

/// Puts the session that a request names into a state.
pub fn transition_session(sessions: &mut Vec<WorkspaceSession>, params: &Json, state: SessionState, now: u64) -> (r: Result<
    usize,
    RpcError,
>)
    ensures
        match need(params@, "sessionId"@) {
            Err(e) => fails(r, e) && final(sessions)@ == old(sessions)@,
            Ok(id) => match position_of(old(sessions)@, id) {
                Some(i) => r matches Ok(k) && k == i && final(sessions)@ == old(sessions)@.update(
                    i,
                    (WorkspaceSession {
                        state,
                        metadata: crate::schema::Metadata { updated_at: now, ..old(sessions)@[i].metadata },
                        ..old(sessions)@[i]
                    }),
                ),
                None => fails(r, unknown("SESSION_NOT_FOUND"@, "unknown session: "@, id)) && final(sessions)@ == old(
                    sessions,
                )@,
            },
        },
{
    match get_session(sessions, params) {
        Err(e) => Err(e),
        Ok(i) => {
            proof {
                crate::table::lemma_position_from(sessions@, need(params@, "sessionId"@)->Ok_0, 0);
            }
            sessions[i].state = state;
            sessions[i].metadata.updated_at = now;
            Ok(i)
        },
    }
}

/// Whether the requests of an action are served one at a time within a session. Those that read,
/// and those that run beside a long command, are not.
pub open spec fn gated(action: Seq<char>) -> bool {
    !(action == "capability.invoke"@ || action == "status"@ || action == "doctor"@ || action == "task.get"@ || action
        == "task.list"@ || action == "task.events"@ || action == "task.wait"@ || action == "task.cancel"@ || action
        == "task.retry"@ || action == "driver.status"@ || action == "driver.renew"@ || action == "lease.status"@ || action
        == "lease.renew"@)
}

/// Whether the requests of an action are served one at a time within a session.
pub fn requires_session_gate(action: &str) -> (r: bool)
    ensures
        r == gated(action@),
{
    !(str_eq(action, "capability.invoke") || str_eq(action, "status") || str_eq(action, "doctor") || str_eq(
        action,
        "task.get",
    ) || str_eq(action, "task.list") || str_eq(action, "task.events") || str_eq(action, "task.wait") || str_eq(
        action,
        "task.cancel",
    ) || str_eq(action, "task.retry") || str_eq(action, "driver.status") || str_eq(action, "driver.renew") || str_eq(
        action,
        "lease.status",
    ) || str_eq(action, "lease.renew"))
}

/// What is at a path of two keys.
pub open spec fn at2(j: JsonView, a: Seq<char>, b: Seq<char>) -> Option<JsonView> {
    match j.get(a) {
        Some(x) => x.get(b),
        None => None,
    }
}

/// The text in an optional value.
pub open spec fn text_in(j: Option<JsonView>) -> Option<Seq<char>> {
    match j {
        Some(x) => x.as_str(),
        None => None,
    }
}

/// The name of the session that the parameters of a request give.
pub open spec fn named_session(action: Seq<char>, params: JsonView) -> Option<Seq<char>> {
    let direct = match params.get("workspaceSessionId"@) {
        Some(x) => x.as_str(),
        None => text_in(params.get("sessionId"@)),
    };
    if direct is Some {
        direct
    } else if action == "session.put"@ {
        text_in(at2(params, "metadata"@, "id"@))
    } else if action == "session.accept-handoff"@ {
        match params.get("session"@) {
            Some(s) => text_in(at2(s, "metadata"@, "id"@)),
            None => None,
        }
    } else if action == "artifact.put"@ {
        text_in(at2(params, "provenance"@, "workspaceSessionId"@))
    } else if "driver."@.is_prefix_of(action) || "lease."@.is_prefix_of(action) {
        match params.get_str("resource"@) {
            Some(resource) => if "workspace:"@.is_prefix_of(resource) {
                Some(resource.skip("workspace:"@.len() as int))
            } else {
                None
            },
            None => None,
        }
    } else {
        None
    }
}

/// The session of the record that a text parameter names.
pub open spec fn session_through<T: Keyed + InSession>(items: Seq<T>, params: JsonView, key: Seq<char>) -> Option<Seq<char>> {
    match params.get_str(key) {
        Some(id) => match find_in(items, id) {
            Some(t) => Some(t.session_view()),
            None => None,
        },
        None => None,
    }
}

/// The session that a request is about, where it is about one.
pub open spec fn session_for(state: WorkbenchState, action: Seq<char>, params: JsonView) -> Option<Seq<char>> {
    let named = named_session(action, params);
    if named is Some {
        named
    } else if "agent."@.is_prefix_of(action) {
        session_through(state.agents@, params, "agentId"@)
    } else if "task."@.is_prefix_of(action) {
        session_through(state.tasks@, params, "taskId"@)
    } else if "transaction."@.is_prefix_of(action) {
        session_through(state.transactions@, params, "transactionId"@)
    } else if "handoff."@.is_prefix_of(action) {
        session_through(state.handoffs@, params, "handoffId"@)
    } else {
        None
    }
}

/// A record that belongs to a session.
pub trait InSession: Sized {
    /// The name of the session.
    spec fn session_view(&self) -> Seq<char>;

    /// The name of the session.
    fn session(&self) -> (r: &str)
        ensures
            r@ == self.session_view(),
    ;
}

impl InSession for Task {
    open spec fn session_view(&self) -> Seq<char> {
        self.workspace_session_id@
    }

    fn session(&self) -> (r: &str) {
        self.workspace_session_id.as_str()
    }
}

impl InSession for AgentInstance {
    open spec fn session_view(&self) -> Seq<char> {
        self.workspace_session_id@
    }

    fn session(&self) -> (r: &str) {
        self.workspace_session_id.as_str()
    }
}

impl InSession for ActivationTransaction {
    open spec fn session_view(&self) -> Seq<char> {
        self.workspace_session_id@
    }

    fn session(&self) -> (r: &str) {
        self.workspace_session_id.as_str()
    }
}

impl InSession for Handoff {
    open spec fn session_view(&self) -> Seq<char> {
        self.workspace_session_id@
    }

    fn session(&self) -> (r: &str) {
        self.workspace_session_id.as_str()
    }
}

impl InSession for Generation {
    open spec fn session_view(&self) -> Seq<char> {
        self.workspace_session_id@
    }

    fn session(&self) -> (r: &str) {
        self.workspace_session_id.as_str()
    }
}

impl InSession for Artifact {
    open spec fn session_view(&self) -> Seq<char> {
        self.provenance.workspace_session_id@
    }

    fn session(&self) -> (r: &str) {
        self.provenance.workspace_session_id.as_str()
    }
}

fn through<T: Keyed + InSession>(items: &Vec<T>, params: &Json, key: &str) -> (r: Option<String>)
    ensures
        opt_text(r) == session_through(items@, params@, key@),
{
    match params.get_str(key) {
        Some(id) => match lookup(items, id) {
            Some(t) => Some(t.session().to_owned()),
            None => None,
        },
        None => None,
    }
}

fn text_at2(j: &Json, a: &str, b: &str) -> (r: Option<String>)
    ensures
        opt_text(r) == text_in(at2(j@, a@, b@)),
{
    match j.get(a) {
        Some(x) => x.get_text(b),
        None => None,
    }
}

fn session_named(action: &str, params: &Json) -> (r: Option<String>)
    ensures
        opt_text(r) == named_session(action@, params@),
{
    let direct = match params.get("workspaceSessionId") {
        Some(x) => match x.as_str() {
            Some(s) => Some(s.to_owned()),
            None => None,
        },
        None => params.get_text("sessionId"),
    };
    if direct.is_some() {
        return direct;
    }
    if str_eq(action, "session.put") {
        return text_at2(params, "metadata", "id");
    }
    if str_eq(action, "session.accept-handoff") {
        return match params.get("session") {
            Some(s) => text_at2(s, "metadata", "id"),
            None => None,
        };
    }
    if str_eq(action, "artifact.put") {
        return text_at2(params, "provenance", "workspaceSessionId");
    }
    if starts_with(action, "driver.") || starts_with(action, "lease.") {
        return match params.get_str("resource") {
            Some(resource) => strip_prefix(resource, "workspace:"),
            None => None,
        };
    }
    None
}

/// The session that a request is about: the one that it names, or that of the record that it
/// names.
pub fn session_id_for_action(state: &WorkbenchState, action: &str, params: &Json) -> (r: Option<String>)
    ensures
        opt_text(r) == session_for(*state, action@, params@),
{
    let named = session_named(action, params);
    if named.is_some() {
        return named;
    }
    if starts_with(action, "agent.") {
        through(&state.agents, params, "agentId")
    } else if starts_with(action, "task.") {
        through(&state.tasks, params, "taskId")
    } else if starts_with(action, "transaction.") {
        through(&state.transactions, params, "transactionId")
    } else if starts_with(action, "handoff.") {
        through(&state.handoffs, params, "handoffId")
    } else {
        None
    }
}

/// Where a request is served.
#[derive(Debug)]
pub enum Route {
    /// By this controller.
    Here,
    /// By the controller at a position.
    Peer(usize),
}

/// The position of the controller that serves a request about a session; none where this one
/// does.
pub open spec fn route_view(
    id: Seq<char>,
    sessions: Seq<WorkspaceSession>,
    controllers: Seq<ControllerPeer>,
    action: Seq<char>,
    session: Option<Seq<char>>,
) -> Result<Option<int>, RpcErrorView> {
    if action == "session.put"@ || action == "session.accept-handoff"@ || session is None {
        Ok(None)
    } else {
        match stored_authority(sessions, session->0) {
            None => Ok(None),
            Some(a) => if a.2 is Some && action != "session.get"@ && action != "session.handoff"@ {
                Err(
                    rpc_error(
                        "SESSION_HANDOFF_IN_PROGRESS"@,
                        "session handoff to "@ + a.2->0 + " is in progress"@,
                    ),
                )
            } else if a.0 == id {
                Ok(None)
            } else {
                match position_of(controllers, a.0) {
                    Some(c) => Ok(Some(c)),
                    None => Err(
                        rpc_error(
                            "SESSION_AUTHORITY_UNAVAILABLE"@,
                            "home controller "@ + a.0 + " is not registered"@,
                        ),
                    ),
                }
            },
        }
    }
}

/// Where a request about a session is served: by the controller that has the authority over it.
/// While a session moves, only its reading and its moving are served.
pub fn route_session_action(
    id: &str,
    sessions: &Vec<WorkspaceSession>,
    controllers: &Vec<ControllerPeer>,
    action: &str,
    session: &Option<String>,
) -> (r: Result<Route, RpcError>)
    ensures
        match route_view(id@, sessions@, controllers@, action@, opt_text(*session)) {
            Err(e) => fails(r, e),
            Ok(None) => r == Ok::<Route, RpcError>(Route::Here),
            Ok(Some(c)) => r matches Ok(Route::Peer(k)) && k == c && c < controllers@.len(),
        },
{
    if str_eq(action, "session.put") || str_eq(action, "session.accept-handoff") {
        return Ok(Route::Here);
    }
    let session = match session {
        Some(s) => s,
        None => return Ok(Route::Here),
    };
    let authority = match lookup(sessions, session.as_str()) {
        Some(s) => match &s.authority {
            Some(a) => a,
            None => return Ok(Route::Here),
        },
        None => return Ok(Route::Here),
    };
    if let Some(target) = &authority.pending_controller_id {
        if !str_eq(action, "session.get") && !str_eq(action, "session.handoff") {
            let message = concat3("session handoff to ", target.as_str(), " is in progress");
            return Err(RpcError::new("SESSION_HANDOFF_IN_PROGRESS", message.as_str()));
        }
    }
    if str_eq(authority.controller_id.as_str(), id) {
        return Ok(Route::Here);
    }
    proof {
        crate::table::lemma_position_from(controllers@, authority.controller_id@, 0);
    }
    match position(controllers, authority.controller_id.as_str()) {
        Some(c) => Ok(Route::Peer(c)),
        None => {
            let message = concat3("home controller ", authority.controller_id.as_str(), " is not registered");
            Err(RpcError::new("SESSION_AUTHORITY_UNAVAILABLE", message.as_str()))
        },
    }
}

/// What a request that another controller served gives.
pub fn routed_result(called: Called) -> (r: Result<Json, RpcError>)
    ensures
        match r {
            Ok(j) => call_result_view(
                called@,
                rpc_error("SESSION_AUTHORITY_UNAVAILABLE"@, Seq::empty()),
                rpc_error("SESSION_AUTHORITY_FAILED"@, "home controller rejected request"@),
            ) == Ok::<JsonView, RpcErrorView>(j@),
            Err(e) => call_result_view(
                called@,
                rpc_error("SESSION_AUTHORITY_UNAVAILABLE"@, Seq::empty()),
                rpc_error("SESSION_AUTHORITY_FAILED"@, "home controller rejected request"@),
            ) == Err::<JsonView, RpcErrorView>(e@),
        },
{
    call_result(
        called,
        "SESSION_AUTHORITY_UNAVAILABLE",
        false,
        "SESSION_AUTHORITY_FAILED",
        "home controller rejected request",
    )
}

/// The positions, below a bound, of the records of a session.
pub open spec fn of_session_upto<T: InSession>(items: Seq<T>, session: Seq<char>, n: int) -> Seq<usize>
    decreases n,
{
    if n <= 0 {
        Seq::empty()
    } else {
        let before = of_session_upto(items, session, n - 1);
        if items[n - 1].session_view() == session {
            before.push((n - 1) as usize)
        } else {
            before
        }
    }
}

/// The positions of the records that belong to a session: what goes along when it moves.
pub fn of_session<T: InSession>(items: &Vec<T>, session: &str) -> (r: Vec<usize>)
    ensures
        r@ == of_session_upto(items@, session@, items@.len() as int),
{
    let mut r: Vec<usize> = Vec::new();
    let mut i: usize = 0;
    while i < items.len()
        invariant
            i <= items.len(),
            r@ == of_session_upto(items@, session@, i as int),
        decreases items.len() - i,
    {
        if str_eq(items[i].session(), session) {
            r.push(i);
        }
        i += 1;
    }
    r
}

/// The positions of the records that go along with a session when it moves.
#[derive(Debug)]
pub struct SessionParts {
    pub agents: Vec<usize>,
    pub artifacts: Vec<usize>,
    pub generations: Vec<usize>,
    pub handoffs: Vec<usize>,
    pub tasks: Vec<usize>,
    pub transactions: Vec<usize>,
}

/// The records that go along with a session when it moves: those of its agents, artifacts,
/// generations, handoffs, tasks and transactions. The tasks are those of the table.
pub fn session_parts(state: &WorkbenchState, tasks: &Vec<Task>, session: &str) -> (r: SessionParts)
    ensures
        r.agents@ == of_session_upto(state.agents@, session@, state.agents@.len() as int),
        r.artifacts@ == of_session_upto(state.artifacts@, session@, state.artifacts@.len() as int),
        r.generations@ == of_session_upto(state.generations@, session@, state.generations@.len() as int),
        r.handoffs@ == of_session_upto(state.handoffs@, session@, state.handoffs@.len() as int),
        r.tasks@ == of_session_upto(tasks@, session@, tasks@.len() as int),
        r.transactions@ == of_session_upto(state.transactions@, session@, state.transactions@.len() as int),
{
    SessionParts {
        agents: of_session(&state.agents, session),
        artifacts: of_session(&state.artifacts, session),
        generations: of_session(&state.generations, session),
        handoffs: of_session(&state.handoffs, session),
        tasks: of_session(tasks, session),
        transactions: of_session(&state.transactions, session),
    }
}

/// What a controller sends to the one that a session moves to: the session, and the records that
/// go along, each list as a document.
pub fn session_bundle(
    session: Json,
    agents: Json,
    artifacts: Json,
    generations: Json,
    handoffs: Json,
    tasks: Json,
    transactions: Json,
) -> (r: Json)
    ensures
        r@ == JsonView::obj().plus("agents"@, agents@).plus("artifacts"@, artifacts@).plus(
            "generations"@,
            generations@,
        ).plus("handoffs"@, handoffs@).plus("session"@, session@).plus("tasks"@, tasks@).plus(
            "transactions"@,
            transactions@,
        ),
{
    Json::obj().plus("agents", agents).plus("artifacts", artifacts).plus("generations", generations).plus(
        "handoffs",
        handoffs,
    ).plus("session", session).plus("tasks", tasks).plus("transactions", transactions)
}

/// The records that came along with a session, each list as far as it can be read.
#[derive(Debug)]
pub struct SessionRecords {
    pub tasks: Result<Vec<Task>, RpcError>,
    pub artifacts: Result<Vec<Artifact>, RpcError>,
    pub generations: Result<Vec<Generation>, RpcError>,
    pub transactions: Result<Vec<ActivationTransaction>, RpcError>,
    pub agents: Result<Vec<AgentInstance>, RpcError>,
    pub handoffs: Result<Vec<Handoff>, RpcError>,
}

/// Why the first of two lists cannot be read, or else the second.
pub open spec fn first_trouble<T>(list: Result<Vec<T>, RpcError>, rest: Option<RpcErrorView>) -> Option<RpcErrorView> {
    match list {
        Ok(_) => rest,
        Err(e) => Some(e@),
    }
}

impl SessionRecords {
    /// Why the first list that cannot be read cannot be.
    pub open spec fn trouble(self) -> Option<RpcErrorView> {
        let f = first_trouble(self.handoffs, None);
        let e = first_trouble(self.agents, f);
        let d = first_trouble(self.transactions, e);
        let c = first_trouble(self.generations, d);
        let b = first_trouble(self.artifacts, c);
        first_trouble(self.tasks, b)
    }
}

/// Records after those of a list that can be read were put in their places, where `reached` says
/// that the lists before it could be read.
pub open spec fn records_after<T: Keyed>(items: Seq<T>, added: Result<Vec<T>, RpcError>, reached: bool) -> Seq<T> {
    match added {
        Ok(list) => if reached {
            upserted_all(items, list@)
        } else {
            items
        },
        Err(_) => items,
    }
}

/// Whether records are others with those that came along with a session put in their places, list
/// by list up to the first that cannot be read.
pub open spec fn records_merged(after: WorkbenchState, before: WorkbenchState, given: SessionRecords) -> bool {
    let a = given.tasks is Ok;
    let b = a && given.artifacts is Ok;
    let c = b && given.generations is Ok;
    let d = c && given.transactions is Ok;
    let e = d && given.agents is Ok;
    &&& after.tasks@ == records_after(before.tasks@, given.tasks, true)
    &&& after.artifacts@ == records_after(before.artifacts@, given.artifacts, a)
    &&& after.generations@ == records_after(before.generations@, given.generations, b)
    &&& after.transactions@ == records_after(before.transactions@, given.transactions, c)
    &&& after.agents@ == records_after(before.agents@, given.agents, d)
    &&& after.handoffs@ == records_after(before.handoffs@, given.handoffs, e)
    &&& after == (WorkbenchState {
        tasks: after.tasks,
        artifacts: after.artifacts,
        generations: after.generations,
        transactions: after.transactions,
        agents: after.agents,
        handoffs: after.handoffs,
        ..before
    })
}

/// Puts the records that came along with a session in their places, list by list up to the first
/// that cannot be read.
pub fn merge_records(state: &mut WorkbenchState, given: SessionRecords) -> (r: Result<(), RpcError>)
    ensures
        records_merged(*final(state), *old(state), given),
        match given.trouble() {
            Some(e) => fails(r, e),
            None => r is Ok,
        },
{
    match given.tasks {
        Ok(list) => upsert_all(&mut state.tasks, list),
        Err(e) => return Err(e),
    }
    match given.artifacts {
        Ok(list) => upsert_all(&mut state.artifacts, list),
        Err(e) => return Err(e),
    }
    match given.generations {
        Ok(list) => upsert_all(&mut state.generations, list),
        Err(e) => return Err(e),
    }
    match given.transactions {
        Ok(list) => upsert_all(&mut state.transactions, list),
        Err(e) => return Err(e),
    }
    match given.agents {
        Ok(list) => upsert_all(&mut state.agents, list),
        Err(e) => return Err(e),
    }
    match given.handoffs {
        Ok(list) => upsert_all(&mut state.handoffs, list),
        Err(e) => return Err(e),
    }
    Ok(())
}

/// Only the controller that has the authority over a session serves requests about it; while the
/// session moves, nobody does, but for reading it and moving it.
pub proof fn session_is_served_by_its_authority(
    id: Seq<char>,
    sessions: Seq<WorkspaceSession>,
    controllers: Seq<ControllerPeer>,
    action: Seq<char>,
    session: Seq<char>,
)
    requires
        stored_authority(sessions, session) is Some,
        action != "session.put"@,
        action != "session.accept-handoff"@,
    ensures
        ({
            let a = stored_authority(sessions, session)->0;
            &&& route_view(id, sessions, controllers, action, Some(session)) == Ok::<Option<int>, RpcErrorView>(None)
                ==> a.0 == id
            &&& a.2 is Some && action != "session.get"@ && action != "session.handoff"@ ==> route_view(
                id,
                sessions,
                controllers,
                action,
                Some(session),
            ) is Err
        }),
{
}

/// A session that was handed over is governed by the target in a greater epoch, and the target
/// takes it over once: to take it over again changes nothing, and an older epoch is refused.
pub proof fn handed_over_session_has_one_authority(
    target: Seq<char>,
    sessions: Seq<WorkspaceSession>,
    offered: WorkspaceSession,
    old_session: WorkspaceSession,
)
    requires
        acceptance(target, sessions, offered) is None,
        authority_of(old_session) is Some,
        authority_of(old_session).unwrap().0 == target,
        old_session.metadata.id@ == offered.metadata.id@,
        authority_of(old_session).unwrap().1 < authority_of(offered).unwrap().1,
        stored_authority(sessions, offered.metadata.id@) != authority_of(offered),
    ensures
        stored_authority(upserted(sessions, offered), offered.metadata.id@) == authority_of(offered),
        acceptance(target, upserted(sessions, offered), offered) is None,
        acceptance(target, upserted(sessions, offered), old_session) == Some(
            rpc_error("STALE_AUTHORITY_EPOCH"@, "handoff epoch must increase"@),
        ),
        stored_authority(sessions, offered.metadata.id@) matches Some(a) ==> a.1 < authority_of(offered).unwrap().1,
{
    upserted_record_is_found(sessions, offered, offered.metadata.id@);
}

/// A new home of a session supersedes the old one: once it took the session over, its operations
/// have greater fences than any of the old home, whatever the two clocks say, as long as the epochs
/// fit.
pub proof fn new_home_supersedes_the_old(
    target: Seq<char>,
    here: Seq<WorkspaceSession>,
    there: Seq<WorkspaceSession>,
    offered: WorkspaceSession,
    fence: u64,
    now: u64,
    next_fence: u64,
    next_now: u64,
)
    requires
        stored_authority(here, offered.metadata.id@) is Some,
        authority_of(offered) == Some((target, later(epoch_of(here, offered.metadata.id@), 1), None::<Seq<char>>)),
        epoch_of(here, offered.metadata.id@) < MAX_FENCE_EPOCH,
    ensures
        epoch_of(upserted(there, offered), offered.metadata.id@) > epoch_of(here, offered.metadata.id@),
        execution_fence(epoch_of(here, offered.metadata.id@), fence, now) < execution_fence(
            epoch_of(upserted(there, offered), offered.metadata.id@),
            next_fence,
            next_now,
        ),
{
    upserted_record_is_found(there, offered, offered.metadata.id@);
    later_epochs_supersede(
        epoch_of(here, offered.metadata.id@),
        fence,
        now,
        epoch_of(upserted(there, offered), offered.metadata.id@),
        next_fence,
        next_now,
    );
}

/// A session moves only when each of its tasks is over: it succeeded, failed, was cancelled, timed
/// out or was lost. No such task can go on to succeed, and none of them can be set running, so
/// nothing that the session began goes on behind the back of its new home.
pub proof fn moving_session_has_no_work_under_way(
    id: Seq<char>,
    sessions: Seq<WorkspaceSession>,
    controllers: Seq<ControllerPeer>,
    tasks: Seq<Task>,
    params: JsonView,
    i: int,
)
    requires
        transfer(id, sessions, controllers, tasks, params) is Ok,
        0 <= i < tasks.len(),
        need(params, "sessionId"@) == Ok::<Seq<char>, RpcErrorView>(tasks[i].workspace_session_id@),
    ensures
        tasks[i].state != TaskState::Queued && tasks[i].state != TaskState::Running,
        tasks[i].state != TaskState::CancelRequested && tasks[i].state != TaskState::Cancelling && tasks[i].state
            != TaskState::FailedToCancel,
        !allowed(tasks[i].state, TaskState::Succeeded),
        !allowed(tasks[i].state, TaskState::Running),
{
    assert(!unfinished(tasks[i], tasks[i].workspace_session_id@));
}

/// A session that has a task under way does not move to any controller, whoever asks.
pub proof fn session_with_work_under_way_stays(
    id: Seq<char>,
    sessions: Seq<WorkspaceSession>,
    controllers: Seq<ControllerPeer>,
    tasks: Seq<Task>,
    params: JsonView,
    i: int,
)
    requires
        need(params, "sessionId"@) == Ok::<Seq<char>, RpcErrorView>(tasks[i].workspace_session_id@),
        need(params, "targetControllerId"@) matches Ok(target) && position_of(controllers, target) is Some,
        0 <= i < tasks.len(),
        tasks[i].state == TaskState::Queued || tasks[i].state == TaskState::Running || tasks[i].state
            == TaskState::CancelRequested || tasks[i].state == TaskState::Cancelling || tasks[i].state
            == TaskState::FailedToCancel,
    ensures
        transfer(id, sessions, controllers, tasks, params) matches Err(e) && e.code == "SESSION_NOT_QUIESCENT"@
            && e.message == "session has queued or running tasks"@,
{
    assert(unfinished(tasks[i], tasks[i].workspace_session_id@));
}

/// A session whose tasks are all over moves from the controller that governs it to one that is
/// registered, unless it is on its way to another one.
pub proof fn quiet_session_may_move(
    id: Seq<char>,
    sessions: Seq<WorkspaceSession>,
    controllers: Seq<ControllerPeer>,
    tasks: Seq<Task>,
    params: JsonView,
    session: Seq<char>,
    target: Seq<char>,
    at: int,
)
    requires
        need(params, "sessionId"@) == Ok::<Seq<char>, RpcErrorView>(session),
        need(params, "targetControllerId"@) == Ok::<Seq<char>, RpcErrorView>(target),
        position_of(controllers, target) is Some,
        position_of(sessions, session) == Some(at),
        sessions[at].authority matches Some(a) && a.controller_id@ == id && (a.pending_controller_id matches Some(p)
            ==> p@ == target),
        forall|i: int|
            0 <= i < tasks.len() && (#[trigger] tasks[i]).workspace_session_id@ == session ==> (tasks[i].state
                == TaskState::Succeeded || tasks[i].state == TaskState::Failed || tasks[i].state == TaskState::Cancelled
                || tasks[i].state == TaskState::TimedOut || tasks[i].state == TaskState::OutcomeUnknown),
    ensures
        transfer(id, sessions, controllers, tasks, params) matches Ok(p) && p.0 == at && Some(p.1) == position_of(
            controllers,
            target,
        ),
{
    assert forall|i: int| 0 <= i < tasks.len() implies !unfinished(#[trigger] tasks[i], session) by {}
}

/// A session is accepted only from a handoff to this controller, and over a session that is here
/// only where the handoff is the one that is stored already or one of a later epoch.
pub proof fn session_is_accepted_forward_only(id: Seq<char>, sessions: Seq<WorkspaceSession>, session: WorkspaceSession)
    ensures
        acceptance(id, sessions, session) is None ==> (session.authority matches Some(a) && a.controller_id@ == id),
        acceptance(id, sessions, session) is None ==> (stored_authority(sessions, session.metadata.id@) matches Some(
            current,
        ) ==> current.1 < session.authority->0.epoch || Some(current) == authority_of(session)),
        (session.authority matches Some(a) && a.controller_id@ == id) && stored_authority(
            sessions,
            session.metadata.id@,
        ) is None ==> acceptance(id, sessions, session) is None,
        (session.authority matches Some(a) && a.controller_id@ == id && (stored_authority(
            sessions,
            session.metadata.id@,
        ) matches Some(current) && current.1 < a.epoch)) ==> acceptance(id, sessions, session) is None,
{
}

/// A request for a session goes to the controller that governs it, and is served here where that
/// is this one; while the session moves, only the move and a look at it are served.
pub proof fn request_goes_to_the_home_of_its_session(
    id: Seq<char>,
    sessions: Seq<WorkspaceSession>,
    controllers: Seq<ControllerPeer>,
    action: Seq<char>,
    session: Seq<char>,
    home: SessionAuthority,
)
    requires
        action != "session.put"@ && action != "session.accept-handoff"@,
        find_in(sessions, session) matches Some(w) && w.authority == Some(home),
    ensures
        ({
            let route = route_view(id, sessions, controllers, action, Some(session));
            let still = home.pending_controller_id is None || action == "session.get"@ || action == "session.handoff"@;
            &&& !still ==> (route matches Err(e) && e.code == "SESSION_HANDOFF_IN_PROGRESS"@)
            &&& still && home.controller_id@ == id ==> route == Ok::<Option<int>, RpcErrorView>(None)
            &&& still && home.controller_id@ != id ==> match position_of(controllers, home.controller_id@) {
                Some(c) => route == Ok::<Option<int>, RpcErrorView>(Some(c)),
                None => route matches Err(e) && e.code == "SESSION_AUTHORITY_UNAVAILABLE"@,
            }
        }),
{
}

/// The records of a session are exactly those that name it, in order.
pub proof fn parts_of_a_session_name_it<T: InSession>(items: Seq<T>, session: Seq<char>, n: int, k: int)
    requires
        0 <= n <= items.len() <= usize::MAX,
        0 <= k < n,
    ensures
        of_session_upto(items, session, n).contains(k as usize) == (items[k].session_view() == session),
        forall|i: int|
            0 <= i < of_session_upto(items, session, n).len() ==> #[trigger] of_session_upto(items, session, n)[i] < n,
        forall|i: int, j: int|
            0 <= i < j < of_session_upto(items, session, n).len() ==> #[trigger] of_session_upto(items, session, n)[i]
                < #[trigger] of_session_upto(items, session, n)[j],
    decreases n,
{
    let before = of_session_upto(items, session, n - 1);
    let after = of_session_upto(items, session, n);
    if n > 1 {
        parts_of_a_session_name_it(items, session, n - 1, if k < n - 1 {
            k
        } else {
            0
        });
    }
    assert(forall|i: int| 0 <= i < before.len() ==> #[trigger] before[i] < n - 1);
    if items[n - 1].session_view() == session {
        assert(after == before.push((n - 1) as usize));
        assert(after[before.len() as int] == (n - 1) as usize);
        if before.contains(k as usize) {
            let x = choose|x: int| 0 <= x < before.len() && before[x] == k as usize;
            assert(after[x] == k as usize);
        }
    }
    if k == n - 1 && before.contains(k as usize) {
        let x = choose|x: int| 0 <= x < before.len() && before[x] == k as usize;
        assert(before[x] < n - 1);
    }
}

proof fn lemma_revoked(grants: Seq<ReadGrant>, names: Seq<(Seq<char>, Seq<char>)>, n: int, now: u64, i: int)
    requires
        crate::table::unique(grants),
        0 <= n <= names.len(),
        0 <= i < grants.len(),
    ensures
        revoke_named(grants, names, n, now).len() == grants.len(),
        crate::table::unique(revoke_named(grants, names, n, now)),
        revoke_named(grants, names, n, now)[i].id == grants[i].id,
        (exists|k: int| 0 <= k < n && (#[trigger] names[k]).0 == grants[i].id@) ==> revoke_named(grants, names, n, now)[i]
            == revoked_grant(grants[i], now),
        !(exists|k: int| 0 <= k < n && (#[trigger] names[k]).0 == grants[i].id@) ==> revoke_named(grants, names, n, now)[i]
            == grants[i],
    decreases n,
{
    if n > 0 {
        lemma_revoked(grants, names, n - 1, now, i);
        let before = revoke_named(grants, names, n - 1, now);
        let after = revoke_named(grants, names, n, now);
        assert forall|j: int| 0 <= j < grants.len() implies (#[trigger] before[j]).id == grants[j].id by {
            lemma_revoked(grants, names, n - 1, now, j);
        }
        crate::table::lemma_position_from(before, names[n - 1].0, 0);
        assert forall|a: int, b: int| 0 <= a < b < after.len() implies (#[trigger] after[a]).key_view() != (
        #[trigger] after[b]).key_view() by {
            assert(after[a].id == before[a].id && after[b].id == before[b].id);
            assert(before[a].key_view() != before[b].key_view());
        }
        if names[n - 1].0 == grants[i].id@ {
            crate::table::lemma_position_unique(before, i);
            assert(position_of(before, names[n - 1].0) == Some(i));
        } else {
            match position_of(before, names[n - 1].0) {
                Some(p) => {
                    assert(before[p].key_view() == names[n - 1].0);
                    assert(p != i);
                },
                None => {},
            }
        }
        if exists|k: int| 0 <= k < n && (#[trigger] names[k]).0 == grants[i].id@ {
            let k = choose|k: int| 0 <= k < n && (#[trigger] names[k]).0 == grants[i].id@;
            if k < n - 1 {
                assert(names[k].0 == grants[i].id@);
            }
        }
    }
}

/// Whether one of the first `n` grants, under a name, is in force for a session.
pub open spec fn name_in_force(grants: Seq<ReadGrant>, session: Seq<char>, n: int, name: Seq<char>) -> bool {
    exists|i: int|
        0 <= i < n && (#[trigger] grants[i]).workspace_session_id@ == session && grants[i].state
            == ReadGrantState::Approved && grants[i].id@ == name
}

proof fn lemma_in_force(grants: Seq<ReadGrant>, session: Seq<char>, n: int)
    requires
        0 <= n <= grants.len(),
    ensures
        forall|i: int|
            0 <= i < n && (#[trigger] grants[i]).workspace_session_id@ == session && grants[i].state
                == ReadGrantState::Approved ==> grants_in_force(grants, session, n).contains(
                (grants[i].id@, grants[i].executor_id@),
            ),
        forall|k: int|
            0 <= k < grants_in_force(grants, session, n).len() ==> name_in_force(
                grants,
                session,
                n,
                (#[trigger] grants_in_force(grants, session, n)[k]).0,
            ),
    decreases n,
{
    if n > 0 {
        lemma_in_force(grants, session, n - 1);
        let before = grants_in_force(grants, session, n - 1);
        let after = grants_in_force(grants, session, n);
        let last = (grants[n - 1].id@, grants[n - 1].executor_id@);
        if in_force(grants[n - 1], session) {
            assert(after == before.push(last));
            assert(after[before.len() as int] == last);
        }
        assert forall|k: int| 0 <= k < after.len() implies name_in_force(grants, session, n, (#[trigger] after[k]).0) by {
            if k < before.len() {
                assert(after[k] == before[k]);
                assert(name_in_force(grants, session, n - 1, before[k].0));
            } else {
                assert(grants[n - 1].id@ == after[k].0);
            }
        }
        assert forall|i: int|
            0 <= i < n && (#[trigger] grants[i]).workspace_session_id@ == session && grants[i].state
                == ReadGrantState::Approved implies after.contains((grants[i].id@, grants[i].executor_id@)) by {
            if i < n - 1 {
                let x = choose|x: int| 0 <= x < before.len() && before[x] == (grants[i].id@, grants[i].executor_id@);
                assert(after[x] == before[x]);
            }
        }
    }
}

/// Once a session is archived no grant to read stands for it, and no other grant changes.
pub proof fn archived_session_has_no_grants(grants: Seq<ReadGrant>, session: Seq<char>, now: u64, i: int)
    requires
        crate::table::unique(grants),
        0 <= i < grants.len(),
    ensures
        ({
            let names = grants_in_force(grants, session, grants.len() as int);
            let after = revoke_named(grants, names, names.len() as int, now);
            &&& after.len() == grants.len()
            &&& after[i].workspace_session_id@ == session ==> after[i].state != ReadGrantState::Approved
            &&& grants[i].workspace_session_id@ != session || grants[i].state != ReadGrantState::Approved ==> after[i]
                == grants[i]
        }),
{
    let names = grants_in_force(grants, session, grants.len() as int);
    lemma_in_force(grants, session, grants.len() as int);
    lemma_revoked(grants, names, names.len() as int, now, i);
    if grants[i].workspace_session_id@ == session && grants[i].state == ReadGrantState::Approved {
        let p = (grants[i].id@, grants[i].executor_id@);
        let k = choose|k: int| 0 <= k < names.len() && names[k] == p;
        assert(names[k].0 == grants[i].id@);
    } else if exists|k: int| 0 <= k < names.len() && (#[trigger] names[k]).0 == grants[i].id@ {
        let k = choose|k: int| 0 <= k < names.len() && (#[trigger] names[k]).0 == grants[i].id@;
        assert(name_in_force(grants, session, grants.len() as int, names[k].0));
        let j = choose|j: int|
            0 <= j < grants.len() && (#[trigger] grants[j]).workspace_session_id@ == session && grants[j].state
                == ReadGrantState::Approved && grants[j].id@ == names[k].0;
        assert(grants[j].key_view() == grants[i].key_view());
        assert(i == j);
    }
}

/// The records of a session are taken over in their order: all of them where all could be read, and
/// none at all where its tasks could not.
pub proof fn unread_records_change_nothing(after: WorkbenchState, before: WorkbenchState, given: SessionRecords)
    requires
        records_merged(after, before, given),
    ensures
        given.trouble() is None == (given.tasks is Ok && given.artifacts is Ok && given.generations is Ok
            && given.transactions is Ok && given.agents is Ok && given.handoffs is Ok),
        given.tasks is Err ==> given.trouble() == Some(given.tasks->Err_0@) && after.tasks@ == before.tasks@
            && after.artifacts@ == before.artifacts@ && after.generations@ == before.generations@ && after.transactions@
            == before.transactions@ && after.agents@ == before.agents@ && after.handoffs@ == before.handoffs@,
        given.artifacts is Err ==> after.artifacts@ == before.artifacts@ && after.generations@ == before.generations@
            && after.transactions@ == before.transactions@ && after.agents@ == before.agents@ && after.handoffs@
            == before.handoffs@,
        given.generations is Err ==> after.transactions@ == before.transactions@ && after.agents@ == before.agents@
            && after.handoffs@ == before.handoffs@,
        given.transactions is Err ==> after.agents@ == before.agents@ && after.handoffs@ == before.handoffs@,
        given.agents is Err ==> after.handoffs@ == before.handoffs@,
        after.sessions == before.sessions,
{
}

/// A request is about the session that it names itself.
pub proof fn named_session_is_the_one_given(action: Seq<char>, params: JsonView)
    ensures
        params.get_str("workspaceSessionId"@) is Some ==> named_session(action, params) == params.get_str(
            "workspaceSessionId"@,
        ),
        params.get("workspaceSessionId"@) is None && params.get_str("sessionId"@) is Some ==> named_session(action, params)
            == params.get_str("sessionId"@),
{
}

/// Requests about what a session holds are served one at a time within it; running a capability,
/// following a task and keeping a lease are not.
pub proof fn changes_of_a_session_take_turns(action: Seq<char>)
    ensures
        "session."@.is_prefix_of(action)
            || "artifact."@.is_prefix_of(action)
            || "generation."@.is_prefix_of(action)
            || "transaction."@.is_prefix_of(action)
            || "agent."@.is_prefix_of(action)
            || "handoff."@.is_prefix_of(action)
            || "approval."@.is_prefix_of(action) ==> gated(action),
        action == "capability.invoke"@
            || action == "status"@
            || action == "doctor"@
            || action == "task.get"@
            || action == "task.list"@
            || action == "task.events"@
            || action == "task.wait"@
            || action == "task.cancel"@
            || action == "task.retry"@
            || action == "driver.status"@
            || action == "driver.renew"@
            || action == "lease.status"@
            || action == "lease.renew"@ ==> !gated(action),
{
    reveal_strlit("capability.invoke");
    reveal_strlit("status");
    reveal_strlit("doctor");
    reveal_strlit("task.get");
    reveal_strlit("task.list");
    reveal_strlit("task.events");
    reveal_strlit("task.wait");
    reveal_strlit("task.cancel");
    reveal_strlit("task.retry");
    reveal_strlit("driver.status");
    reveal_strlit("driver.renew");
    reveal_strlit("lease.status");
    reveal_strlit("lease.renew");
    reveal_strlit("session.");
    reveal_strlit("artifact.");
    reveal_strlit("generation.");
    reveal_strlit("transaction.");
    reveal_strlit("agent.");
    reveal_strlit("handoff.");
    reveal_strlit("approval.");
    if "session."@.is_prefix_of(action) {
        assert(action.subrange(0, 8)[0] == 's' && action.subrange(0, 8)[1] == 'e');
        assert(action[0] == 's' && action[1] == 'e');
    }
    if "artifact."@.is_prefix_of(action) {
        assert(action.subrange(0, 9)[0] == 'a' && action.subrange(0, 9)[1] == 'r');
        assert(action[0] == 'a' && action[1] == 'r');
    }
    if "generation."@.is_prefix_of(action) {
        assert(action.subrange(0, 11)[0] == 'g' && action.subrange(0, 11)[1] == 'e');
        assert(action[0] == 'g' && action[1] == 'e');
    }
    if "transaction."@.is_prefix_of(action) {
        assert(action.subrange(0, 12)[0] == 't' && action.subrange(0, 12)[1] == 'r');
        assert(action[0] == 't' && action[1] == 'r');
    }
    if "agent."@.is_prefix_of(action) {
        assert(action.subrange(0, 6)[0] == 'a' && action.subrange(0, 6)[1] == 'g');
        assert(action[0] == 'a' && action[1] == 'g');
    }
    if "handoff."@.is_prefix_of(action) {
        assert(action.subrange(0, 8)[0] == 'h' && action.subrange(0, 8)[1] == 'a');
        assert(action[0] == 'h' && action[1] == 'a');
    }
    if "approval."@.is_prefix_of(action) {
        assert(action.subrange(0, 9)[0] == 'a' && action.subrange(0, 9)[1] == 'p');
        assert(action[0] == 'a' && action[1] == 'p');
    }
}

} // verus!
