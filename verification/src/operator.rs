//! Actions of operators: a grant for a time, and for a forced action a nonce that is used once.

use crate::codec::{sha256_str, sha256_text};
use crate::json::{Json, JsonView};
use crate::observe::{first_chars, safe_summary, safe_summary_view};
use crate::rpc::{fails, may_have, need, optional_str, required_str, rpc_error, RpcError, RpcErrorView};
use crate::schema::Observation;
use crate::table::{lemma_position_from, position, position_of, unique, upsert_by, upserted, Keyed};
use crate::task::opt_text;
use crate::text::{str_eq, take_chars};
use vstd::prelude::*;

verus! {

/// The grant of an operator. Of the token only the digest is kept.
#[derive(Debug)]
pub struct OperatorGrant {
    pub operator_id: String,
    pub token_digest: String,
    pub expires_at: u64,
}

/// The leave to force one action on one target, once.
#[derive(Debug)]
pub struct OperatorNonce {
    pub id: String,
    pub operator_id: String,
    pub action: String,
    pub target: String,
    pub reason: String,
    pub expires_at: u64,
}

impl Keyed for OperatorGrant {
    open spec fn key_view(&self) -> Seq<char> {
        self.operator_id@
    }

    fn key(&self) -> (r: &str) {
        self.operator_id.as_str()
    }
}

impl Keyed for OperatorNonce {
    open spec fn key_view(&self) -> Seq<char> {
        self.id@
    }

    fn key(&self) -> (r: &str) {
        self.id.as_str()
    }
}

/// How long a grant lasts.
pub open spec fn grant_ttl(params: JsonView) -> u64 {
    let asked = params.u64_or("ttlMs"@, 300_000);
    if asked < 3_600_000 {
        asked
    } else {
        3_600_000
    }
}

/// Gives an operator a grant, in place of the one that it has. The result is when it ends.
pub fn grant_operator(grants: &mut Vec<OperatorGrant>, params: &Json, now: u64, token: &str) -> (r: Result<u64, RpcError>)
    requires
        now <= u64::MAX - 3_600_000,
    ensures
        match need(params@, "operatorId"@) {
            Err(e) => fails(r, e) && final(grants)@ == old(grants)@,
            Ok(id) => {
                &&& r matches Ok(t) && t == now + grant_ttl(params@)
                &&& exists|g: OperatorGrant|
                    #![trigger upserted(old(grants)@, g)]
                    g.operator_id@ == id && g.token_digest@ == sha256_text(token@) && g.expires_at == now + grant_ttl(
                        params@,
                    ) && final(grants)@ == upserted(old(grants)@, g)
            },
        },
{
    let id = match required_str(params, "operatorId") {
        Ok(s) => s,
        Err(e) => return Err(e),
    };
    let asked = params.u64_or("ttlMs", 300_000);
    let ttl = if asked < 3_600_000 {
        asked
    } else {
        3_600_000
    };
    let expires_at = now + ttl;
    let g = OperatorGrant { operator_id: id.to_owned(), token_digest: sha256_str(token), expires_at };
    upsert_by(grants, g);
    Ok(expires_at)
}

/// Whether a grant is that of a token, and in force.
pub open spec fn grants_token(g: OperatorGrant, digest: Seq<char>, now: u64) -> bool {
    g.token_digest@ == digest && g.expires_at > now
}

/// The first grant at or after a position that is that of a token.
pub open spec fn granted_from(grants: Seq<OperatorGrant>, digest: Seq<char>, now: u64, from: int) -> Option<int>
    decreases grants.len() - from,
{
    if from < 0 || from >= grants.len() {
        None
    } else if grants_token(grants[from], digest, now) {
        Some(from)
    } else {
        granted_from(grants, digest, now, from + 1)
    }
}

/// The error that a token gives no grant.
pub open spec fn no_grant() -> RpcErrorView {
    rpc_error("OPERATOR_GRANT_INVALID"@, "operator grant is invalid or expired"@)
}

fn find_grant(grants: &Vec<OperatorGrant>, token: &str, now: u64) -> (r: Option<usize>)
    ensures
        match r {
            Some(i) => i < grants@.len() && granted_from(grants@, sha256_text(token@), now, 0) == Some(i as int),
            None => granted_from(grants@, sha256_text(token@), now, 0) is None,
        },
{
    let digest = sha256_str(token);
    let mut i: usize = 0;
    while i < grants.len()
        invariant
            i <= grants.len(),
            digest@ == sha256_text(token@),
            granted_from(grants@, digest@, now, 0) == granted_from(grants@, digest@, now, i as int),
        decreases grants.len() - i,
    {
        if str_eq(grants[i].token_digest.as_str(), digest.as_str()) && grants[i].expires_at > now {
            return Some(i);
        }
        i += 1;
    }
    None
}

/// Whether operators can ask for an action.
pub open spec fn operator_allowed(action: Seq<char>) -> bool {
    forced(action) || action == "retry-task"@ || action == "restart-process"@ || action == "driver-acquire"@ || action
        == "driver-handoff"@ || action == "driver-release"@ || action == "approval-approve"@ || action
        == "approval-revoke"@
}

/// Whether an action is forced on what it is done to.
pub open spec fn forced(action: Seq<char>) -> bool {
    action == "cancel-task"@ || action == "stop-process"@
}

/// The action that a request of an operator names.
pub open spec fn operator_action_view(params: JsonView) -> Result<Seq<char>, RpcErrorView> {
    match need(params, "action"@) {
        Err(e) => Err(e),
        Ok(action) => if operator_allowed(action) {
            Ok(action)
        } else {
            Err(rpc_error("OPERATOR_ACTION_NOT_ALLOWED"@, "operator action is not in the fixed allowlist"@))
        },
    }
}

/// The action that a request of an operator names, which is one of a fixed list.
pub fn required_operator_action<'a>(params: &'a Json) -> (r: Result<&'a str, RpcError>)
    ensures
        match r {
            Ok(a) => operator_action_view(params@) == Ok::<Seq<char>, RpcErrorView>(a@),
            Err(e) => operator_action_view(params@) == Err::<Seq<char>, RpcErrorView>(e@),
        },
{
    let action = match required_str(params, "action") {
        Ok(s) => s,
        Err(e) => return Err(e),
    };
    if str_eq(action, "cancel-task") || str_eq(action, "stop-process") || str_eq(action, "retry-task") || str_eq(
        action,
        "restart-process",
    ) || str_eq(action, "driver-acquire") || str_eq(action, "driver-handoff") || str_eq(action, "driver-release")
        || str_eq(action, "approval-approve") || str_eq(action, "approval-revoke") {
        Ok(action)
    } else {
        Err(RpcError::new("OPERATOR_ACTION_NOT_ALLOWED", "operator action is not in the fixed allowlist"))
    }
}

/// The forced action that a request of an operator names.
pub open spec fn force_action_view(params: JsonView) -> Result<Seq<char>, RpcErrorView> {
    match operator_action_view(params) {
        Err(e) => Err(e),
        Ok(action) => if forced(action) {
            Ok(action)
        } else {
            Err(
                rpc_error(
                    "OPERATOR_ACTION_NOT_ALLOWED"@,
                    "only cancel-task and stop-process support force actions"@,
                ),
            )
        },
    }
}

/// The forced action that a request of an operator names.
pub fn required_force_action<'a>(params: &'a Json) -> (r: Result<&'a str, RpcError>)
    ensures
        match r {
            Ok(a) => force_action_view(params@) == Ok::<Seq<char>, RpcErrorView>(a@),
            Err(e) => force_action_view(params@) == Err::<Seq<char>, RpcErrorView>(e@),
        },
{
    let action = match required_operator_action(params) {
        Ok(s) => s,
        Err(e) => return Err(e),
    };
    if str_eq(action, "cancel-task") || str_eq(action, "stop-process") {
        Ok(action)
    } else {
        Err(
            RpcError::new(
                "OPERATOR_ACTION_NOT_ALLOWED",
                "only cancel-task and stop-process support force actions",
            ),
        )
    }
}

/// What a nonce holds that a request asked for.
pub open spec fn nonce_of(n: OperatorNonce, id: Seq<char>, operator: Seq<char>, params: JsonView, now: u64) -> bool {
    &&& n.id@ == id
    &&& n.operator_id@ == operator
    &&& Ok::<Seq<char>, RpcErrorView>(n.action@) == force_action_view(params)
    &&& Ok::<Seq<char>, RpcErrorView>(n.target@) == need(params, "target"@)
    &&& need(params, "reason"@) matches Ok(reason) && n.reason@ == first_chars(reason, 500)
    &&& n.expires_at == now + 60_000
}

/// Why a request for a nonce is refused before its grant is looked up, if it is.
pub open spec fn nonce_refusal(params: JsonView) -> Option<RpcErrorView> {
    match need(params, "grantToken"@) {
        Err(e) => Some(e),
        Ok(_) => match force_action_view(params) {
            Err(e) => Some(e),
            Ok(_) => match (need(params, "target"@), need(params, "reason"@)) {
                (Err(e), _) => Some(e),
                (Ok(_), Err(e)) => Some(e),
                (Ok(_), Ok(_)) => if params.get_bool("confirmed"@) != Some(true) {
                    Some(
                        rpc_error("CONFIRMATION_REQUIRED"@, "operator action requires explicit confirmation"@),
                    )
                } else {
                    None
                },
            },
        },
    }
}

/// Gives a nonce for a forced action that the operator confirmed. The result is when it ends.
pub fn issue_nonce(
    grants: &Vec<OperatorGrant>,
    nonces: &mut Vec<OperatorNonce>,
    params: &Json,
    now: u64,
    id: &str,
) -> (r: Result<u64, RpcError>)
    requires
        now <= u64::MAX - 60_000,
    ensures
        match nonce_refusal(params@) {
            Some(e) => fails(r, e) && final(nonces)@ == old(nonces)@,
            None => match granted_from(grants@, sha256_text(need(params@, "grantToken"@)->Ok_0), now, 0) {
                None => fails(r, no_grant()) && final(nonces)@ == old(nonces)@,
                Some(i) => {
                    &&& r == Ok::<u64, RpcError>((now + 60_000) as u64)
                    &&& exists|n: OperatorNonce|
                        #![trigger upserted(old(nonces)@, n)]
                        nonce_of(n, id@, grants@[i].operator_id@, params@, now) && final(nonces)@ == upserted(
                            old(nonces)@,
                            n,
                        )
                },
            },
        },
{
    let token = match required_str(params, "grantToken") {
        Ok(s) => s,
        Err(e) => return Err(e),
    };
    let action = match required_force_action(params) {
        Ok(s) => s,
        Err(e) => return Err(e),
    };
    let target = match required_str(params, "target") {
        Ok(s) => s,
        Err(e) => return Err(e),
    };
    let reason = match required_str(params, "reason") {
        Ok(s) => s,
        Err(e) => return Err(e),
    };
    if params.get_bool("confirmed") != Some(true) {
        return Err(RpcError::new("CONFIRMATION_REQUIRED", "operator action requires explicit confirmation"));
    }
    let i = match find_grant(grants, token, now) {
        Some(i) => i,
        None => return Err(RpcError::new("OPERATOR_GRANT_INVALID", "operator grant is invalid or expired")),
    };
    let n = OperatorNonce {
        id: id.to_owned(),
        operator_id: grants[i].operator_id.clone(),
        action: action.to_owned(),
        target: target.to_owned(),
        reason: take_chars(reason, 500),
        expires_at: now + 60_000,
    };
    assert(nonce_of(n, id@, grants@[i as int].operator_id@, params@, now));
    upsert_by(nonces, n);
    Ok(now + 60_000)
}

/// What an action of an operator comes to.
#[derive(Debug)]
pub enum OperatorPlan {
    /// A request that this controller serves itself.
    Serve { operator_id: String, action: String, params: Json },
    /// A request to an executor.
    Call { operator_id: String, executor_id: String, action: String, params: Json },
    /// A forced action, with the nonce that was used up for it.
    Force(OperatorNonce),
}

/// What a plan holds.
pub enum PlanView {
    Serve(Seq<char>, Seq<char>, JsonView),
    Call(Seq<char>, Seq<char>, Seq<char>, JsonView),
    Force(Seq<char>),
}

impl View for OperatorPlan {
    type V = PlanView;

    open spec fn view(&self) -> PlanView {
        match self {
            OperatorPlan::Serve { operator_id, action, params } => PlanView::Serve(operator_id@, action@, params@),
            OperatorPlan::Call { operator_id, executor_id, action, params } => PlanView::Call(
                operator_id@,
                executor_id@,
                action@,
                params@,
            ),
            OperatorPlan::Force(n) => PlanView::Force(n.id@),
        }
    }
}

/// The time to live that a request names, or the usual one.
pub open spec fn ttl_json(params: JsonView) -> JsonView {
    match params.get("ttlMs"@) {
        Some(v) => v,
        None => JsonView::Unsigned(300_000),
    }
}

/// The plan of an action that is not forced.
pub open spec fn plain_plan(operator: Seq<char>, action: Seq<char>, target: Seq<char>, params: JsonView) -> Result<
    PlanView,
    RpcErrorView,
> {
    if action == "retry-task"@ {
        Ok(
            PlanView::Serve(
                operator,
                "task.retry"@,
                JsonView::obj().plus("_operatorAuthorized"@, JsonView::Bool(true)).plus(
                    "taskId"@,
                    JsonView::Text(target),
                ),
            ),
        )
    } else if action == "restart-process"@ {
        match need(params, "executorId"@) {
            Err(e) => Err(e),
            Ok(executor) => Ok(
                PlanView::Call(
                    operator,
                    executor,
                    "process.restart"@,
                    JsonView::obj().plus("processId"@, JsonView::Text(target)),
                ),
            ),
        }
    } else if action == "driver-acquire"@ {
        Ok(
            PlanView::Serve(
                operator,
                "driver.acquire"@,
                JsonView::obj().plus("owner"@, JsonView::Text(operator)).plus("resource"@, JsonView::Text(target)).plus(
                    "ttlMs"@,
                    ttl_json(params),
                ),
            ),
        )
    } else if action == "driver-handoff"@ {
        match (need(params, "owner"@), need(params, "driverToken"@), need(params, "handoffTarget"@)) {
            (Err(e), _, _) => Err(e),
            (Ok(_), Err(e), _) => Err(e),
            (Ok(_), Ok(_), Err(e)) => Err(e),
            (Ok(owner), Ok(token), Ok(to)) => Ok(
                PlanView::Serve(
                    operator,
                    "driver.handoff"@,
                    JsonView::obj().plus("owner"@, JsonView::Text(owner)).plus(
                        "resource"@,
                        JsonView::Text(target),
                    ).plus("target"@, JsonView::Text(to)).plus("token"@, JsonView::Text(token)),
                ),
            ),
        }
    } else if action == "driver-release"@ {
        match (need(params, "owner"@), need(params, "driverToken"@)) {
            (Err(e), _) => Err(e),
            (Ok(_), Err(e)) => Err(e),
            (Ok(owner), Ok(token)) => Ok(
                PlanView::Serve(
                    operator,
                    "driver.release"@,
                    JsonView::obj().plus("owner"@, JsonView::Text(owner)).plus(
                        "resource"@,
                        JsonView::Text(target),
                    ).plus("token"@, JsonView::Text(token)),
                ),
            ),
        }
    } else if action == "approval-approve"@ {
        Ok(
            PlanView::Serve(
                operator,
                "approval.approve"@,
                JsonView::obj().plus("approvalId"@, JsonView::Text(target)).plus("ttlMs"@, ttl_json(params)),
            ),
        )
    } else {
        Ok(
            PlanView::Serve(
                operator,
                "approval.revoke"@,
                JsonView::obj().plus("approvalId"@, JsonView::Text(target)),
            ),
        )
    }
}

fn ttl_of(params: &Json) -> (r: Json)
    ensures
        r@ == ttl_json(params@),
{
    match params.get("ttlMs") {
        Some(v) => v.copy(),
        None => Json::Unsigned(300_000),
    }
}

fn serve(operator: &str, action: &str, params: Json) -> (r: Result<OperatorPlan, RpcError>)
    ensures
        r matches Ok(p) && p@ == PlanView::Serve(operator@, action@, params@),
{
    Ok(OperatorPlan::Serve { operator_id: operator.to_owned(), action: action.to_owned(), params })
}

fn plan_plain(operator: &str, action: &str, target: &str, params: &Json) -> (r: Result<OperatorPlan, RpcError>)
    ensures
        match plain_plan(operator@, action@, target@, params@) {
            Ok(p) => r matches Ok(x) && x@ == p,
            Err(e) => fails(r, e),
        },
{
    if str_eq(action, "retry-task") {
        return serve(
            operator,
            "task.retry",
            Json::obj().plus("_operatorAuthorized", Json::Bool(true)).plus("taskId", Json::text(target)),
        );
    }
    if str_eq(action, "restart-process") {
        let executor = match required_str(params, "executorId") {
            Ok(s) => s,
            Err(e) => return Err(e),
        };
        return Ok(
            OperatorPlan::Call {
                operator_id: operator.to_owned(),
                executor_id: executor.to_owned(),
                action: "process.restart".to_owned(),
                params: Json::obj().plus("processId", Json::text(target)),
            },
        );
    }
    if str_eq(action, "driver-acquire") {
        return serve(
            operator,
            "driver.acquire",
            Json::obj().plus("owner", Json::text(operator)).plus("resource", Json::text(target)).plus(
                "ttlMs",
                ttl_of(params),
            ),
        );
    }
    if str_eq(action, "driver-handoff") {
        let owner = match required_str(params, "owner") {
            Ok(s) => s,
            Err(e) => return Err(e),
        };
        let token = match required_str(params, "driverToken") {
            Ok(s) => s,
            Err(e) => return Err(e),
        };
        let to = match required_str(params, "handoffTarget") {
            Ok(s) => s,
            Err(e) => return Err(e),
        };
        return serve(
            operator,
            "driver.handoff",
            Json::obj().plus("owner", Json::text(owner)).plus("resource", Json::text(target)).plus(
                "target",
                Json::text(to),
            ).plus("token", Json::text(token)),
        );
    }
    if str_eq(action, "driver-release") {
        let owner = match required_str(params, "owner") {
            Ok(s) => s,
            Err(e) => return Err(e),
        };
        let token = match required_str(params, "driverToken") {
            Ok(s) => s,
            Err(e) => return Err(e),
        };
        return serve(
            operator,
            "driver.release",
            Json::obj().plus("owner", Json::text(owner)).plus("resource", Json::text(target)).plus(
                "token",
                Json::text(token),
            ),
        );
    }
    if str_eq(action, "approval-approve") {
        return serve(
            operator,
            "approval.approve",
            Json::obj().plus("approvalId", Json::text(target)).plus("ttlMs", ttl_of(params)),
        );
    }
    serve(operator, "approval.revoke", Json::obj().plus("approvalId", Json::text(target)))
}

/// Whether a nonce is for an action on a target, and in force.
pub open spec fn nonce_fits(n: OperatorNonce, action: Seq<char>, target: Seq<char>, now: u64) -> bool {
    n.expires_at > now && n.action@ == action && n.target@ == target
}

/// Decides what an action of an operator comes to. One that is not forced needs a grant; a forced
/// one needs a nonce for it, which is used up whether it fits or not.
pub fn plan_operator_action(
    grants: &Vec<OperatorGrant>,
    nonces: &mut Vec<OperatorNonce>,
    params: &Json,
    now: u64,
) -> (r: Result<OperatorPlan, RpcError>)
    ensures
        ({
            let same = final(nonces)@ == old(nonces)@;
            match (operator_action_view(params@), need(params@, "target"@)) {
                (Err(e), _) => fails(r, e) && same,
                (Ok(_), Err(e)) => fails(r, e) && same,
                (Ok(action), Ok(target)) => if !forced(action) {
                    &&& same
                    &&& match need(params@, "grantToken"@) {
                        Err(e) => fails(r, e),
                        Ok(token) => match granted_from(grants@, sha256_text(token), now, 0) {
                            None => fails(r, no_grant()),
                            Some(i) => match plain_plan(grants@[i].operator_id@, action, target, params@) {
                                Ok(p) => r matches Ok(x) && x@ == p,
                                Err(e) => fails(r, e),
                            },
                        },
                    }
                } else {
                    match need(params@, "actionNonce"@) {
                        Err(e) => fails(r, e) && same,
                        Ok(id) => match position_of(old(nonces)@, id) {
                            None => fails(
                                r,
                                rpc_error("ACTION_NONCE_INVALID"@, "action nonce is missing or already consumed"@),
                            ) && same,
                            Some(i) => {
                                &&& final(nonces)@ == old(nonces)@.remove(i)
                                &&& if nonce_fits(old(nonces)@[i], action, target, now) {
                                    r == Ok::<OperatorPlan, RpcError>(OperatorPlan::Force(old(nonces)@[i]))
                                } else {
                                    fails(
                                        r,
                                        rpc_error(
                                            "ACTION_NONCE_INVALID"@,
                                            "action nonce is expired or does not match target"@,
                                        ),
                                    )
                                }
                            },
                        },
                    }
                },
            }
        }),
{
    let action = match required_operator_action(params) {
        Ok(s) => s,
        Err(e) => return Err(e),
    };
    let target = match required_str(params, "target") {
        Ok(s) => s,
        Err(e) => return Err(e),
    };
    if !str_eq(action, "cancel-task") && !str_eq(action, "stop-process") {
        let token = match required_str(params, "grantToken") {
            Ok(s) => s,
            Err(e) => return Err(e),
        };
        return match find_grant(grants, token, now) {
            Some(i) => plan_plain(grants[i].operator_id.as_str(), action, target, params),
            None => Err(RpcError::new("OPERATOR_GRANT_INVALID", "operator grant is invalid or expired")),
        };
    }
    let id = match required_str(params, "actionNonce") {
        Ok(s) => s,
        Err(e) => return Err(e),
    };
    let i = match position(nonces, id) {
        Some(i) => i,
        None => return Err(RpcError::new("ACTION_NONCE_INVALID", "action nonce is missing or already consumed")),
    };
    let n = nonces.remove(i);
    if n.expires_at <= now || !str_eq(n.action.as_str(), action) || !str_eq(n.target.as_str(), target) {
        return Err(
            RpcError::new("ACTION_NONCE_INVALID", "action nonce is expired or does not match target"),
        );
    }
    Ok(OperatorPlan::Force(n))
}

/// What a forced action comes to: the cancelling of a task, or a request to the executor that a
/// request names to stop a process.
pub open spec fn forced_plan(n: OperatorNonce, params: JsonView) -> Result<PlanView, RpcErrorView> {
    if n.action@ == "cancel-task"@ {
        Ok(
            PlanView::Serve(
                n.operator_id@,
                "task.cancel"@,
                JsonView::obj().plus("_operatorAuthorized"@, JsonView::Bool(true)).plus(
                    "taskId"@,
                    JsonView::Text(n.target@),
                ),
            ),
        )
    } else {
        match need(params, "executorId"@) {
            Err(e) => Err(e),
            Ok(executor) => Ok(
                PlanView::Call(
                    n.operator_id@,
                    executor,
                    "process.stop"@,
                    JsonView::obj().plus("processId"@, JsonView::Text(n.target@)),
                ),
            ),
        }
    }
}

/// What is asked of the task that a forced action is about to cancel, so that it can be told what it
/// was before.
pub fn asked_before(n: &OperatorNonce) -> (r: Option<Json>)
    ensures
        match r {
            Some(j) => n.action@ == "cancel-task"@ && j@ == JsonView::obj().plus("taskId"@, JsonView::Text(n.target@)),
            None => n.action@ != "cancel-task"@,
        },
{
    if str_eq(n.action.as_str(), "cancel-task") {
        Some(Json::obj().plus("taskId", Json::text(n.target.as_str())))
    } else {
        None
    }
}

/// What the forced action of a nonce comes to.
pub fn plan_forced(n: &OperatorNonce, params: &Json) -> (r: Result<OperatorPlan, RpcError>)
    ensures
        match forced_plan(*n, params@) {
            Ok(p) => r matches Ok(x) && x@ == p,
            Err(e) => fails(r, e),
        },
{
    if str_eq(n.action.as_str(), "cancel-task") {
        return serve(
            n.operator_id.as_str(),
            "task.cancel",
            Json::obj().plus("_operatorAuthorized", Json::Bool(true)).plus("taskId", Json::text(n.target.as_str())),
        );
    }
    let executor = match required_str(params, "executorId") {
        Ok(s) => s,
        Err(e) => return Err(e),
    };
    Ok(
        OperatorPlan::Call {
            operator_id: n.operator_id.clone(),
            executor_id: executor.to_owned(),
            action: "process.stop".to_owned(),
            params: Json::obj().plus("processId", Json::text(n.target.as_str())),
        },
    )
}

/// Whether an observation is of an action that an operator took.
pub open spec fn observes_operator(
    o: Observation,
    node: Seq<char>,
    run: Option<Seq<char>>,
    action: Seq<char>,
    task: Option<Seq<char>>,
    process: Option<Seq<char>>,
    attributes: JsonView,
    now: u64,
) -> bool {
    &&& o.event_id == 0
    &&& opt_text(o.run_id) == run
    &&& o.timestamp == now
    &&& o.node_id@ == node
    &&& o.role@ == "operator"@
    &&& o.kind@ == "operator-action"@
    &&& o.name@ == action
    &&& o.status@ == "completed"@
    &&& o.duration_ms is None
    &&& o.span_id is None
    &&& o.parent_span_id is None
    &&& o.request_id is None
    &&& opt_text(o.task_id) == task
    &&& opt_text(o.process_id) == process
    &&& o.connection_id is None
    &&& o.attributes@ == attributes
}

fn operator_observation(
    node: &str,
    run_id: Option<String>,
    action: &str,
    task_id: Option<String>,
    process_id: Option<String>,
    attributes: Json,
    now: u64,
) -> (r: Observation)
    ensures
        observes_operator(r, node@, opt_text(run_id), action@, opt_text(task_id), opt_text(process_id), attributes@, now),
{
    Observation {
        event_id: 0,
        run_id,
        timestamp: now,
        node_id: node.to_owned(),
        role: "operator".to_owned(),
        kind: "operator-action".to_owned(),
        name: action.to_owned(),
        status: "completed".to_owned(),
        duration_ms: None,
        span_id: None,
        parent_span_id: None,
        request_id: None,
        task_id,
        process_id,
        connection_id: None,
        attributes,
    }
}

/// What is observed of an action that was not forced.
pub fn plain_observation(node: &str, params: &Json, action: &str, operator: &str, target: &str, now: u64) -> (r: Result<
    Observation,
    RpcError,
>)
    ensures
        match may_have(params@, "runId"@) {
            Err(e) => fails(r, e),
            Ok(run) => r matches Ok(o) && observes_operator(
                o,
                node@,
                run,
                action@,
                None,
                None,
                JsonView::obj().plus("operatorId"@, JsonView::Text(operator@)).plus("target"@, JsonView::Text(target@)),
                now,
            ),
        },
{
    let run_id = match optional_str(params, "runId") {
        Ok(s) => s,
        Err(e) => return Err(e),
    };
    let attributes = Json::obj().plus("operatorId", Json::text(operator)).plus("target", Json::text(target));
    Ok(operator_observation(node, run_id, action, None, None, attributes, now))
}

/// What is observed of a forced action, with the target as it was before and after.
pub fn forced_observation(node: &str, params: &Json, n: &OperatorNonce, before: &Json, after: &Json, now: u64) -> (r: Result<
    Observation,
    RpcError,
>)
    ensures
        match may_have(params@, "runId"@) {
            Err(e) => fails(r, e),
            Ok(run) => r matches Ok(o) && observes_operator(
                o,
                node@,
                run,
                n.action@,
                if n.action@ == "cancel-task"@ {
                    Some(n.target@)
                } else {
                    None
                },
                if n.action@ == "stop-process"@ {
                    Some(n.target@)
                } else {
                    None
                },
                JsonView::obj().plus("action"@, JsonView::Text(n.action@)).plus(
                    "after"@,
                    safe_summary_view(after@),
                ).plus("before"@, safe_summary_view(before@)).plus("operatorId"@, JsonView::Text(n.operator_id@)).plus(
                    "reason"@,
                    JsonView::Text(n.reason@),
                ),
                now,
            ),
        },
{
    let run_id = match optional_str(params, "runId") {
        Ok(s) => s,
        Err(e) => return Err(e),
    };
    let task_id = if str_eq(n.action.as_str(), "cancel-task") {
        Some(n.target.clone())
    } else {
        None
    };
    let process_id = if str_eq(n.action.as_str(), "stop-process") {
        Some(n.target.clone())
    } else {
        None
    };
    let attributes = Json::obj().plus("action", Json::text(n.action.as_str())).plus("after", safe_summary(after)).plus(
        "before",
        safe_summary(before),
    ).plus("operatorId", Json::text(n.operator_id.as_str())).plus("reason", Json::text(n.reason.as_str()));
    Ok(operator_observation(node, run_id, n.action.as_str(), task_id, process_id, attributes, now))
}

/// A nonce that was used is gone, so no second action can use it.
pub proof fn nonce_is_used_once(nonces: Seq<OperatorNonce>, i: int)
    requires
        unique(nonces),
        0 <= i < nonces.len(),
    ensures
        position_of(nonces.remove(i), nonces[i].id@) is None,
        unique(nonces.remove(i)),
{
    let after = nonces.remove(i);
    lemma_position_from(after, nonces[i].id@, 0);
    assert forall|k: int| 0 <= k < after.len() implies (#[trigger] after[k]).key_view() != nonces[i].key_view() by {
        if k < i {
            assert(after[k] == nonces[k]);
        } else {
            assert(after[k] == nonces[k + 1]);
        }
    }
    assert forall|a: int, b: int| 0 <= a < b < after.len() implies (#[trigger] after[a]).key_view() != (#[trigger] after[b]).key_view() by {
        let x = if a < i {
            a
        } else {
            a + 1
        };
        let y = if b < i {
            b
        } else {
            b + 1
        };
        assert(after[a] == nonces[x]);
        assert(after[b] == nonces[y]);
    }
}

/// Exactly a token whose digest a grant holds that is not past its end lets an operator in, as the
/// operator of that grant.
pub proof fn only_a_live_grant_lets_in(grants: Seq<OperatorGrant>, digest: Seq<char>, now: u64, from: int)
    requires
        0 <= from <= grants.len(),
    ensures
        match granted_from(grants, digest, now, from) {
            Some(i) => from <= i < grants.len() && grants[i].token_digest@ == digest && now < grants[i].expires_at,
            None => forall|k: int|
                from <= k < grants.len() && (#[trigger] grants[k]).token_digest@ == digest ==> grants[k].expires_at <= now,
        },
    decreases grants.len() - from,
{
    if from < grants.len() && !grants_token(grants[from], digest, now) {
        only_a_live_grant_lets_in(grants, digest, now, from + 1);
    }
}

/// A nonce is good for the action and the target that it was made for, for a minute, and for
/// nothing else.
pub proof fn nonce_is_for_one_action_on_one_target(
    n: OperatorNonce,
    id: Seq<char>,
    operator: Seq<char>,
    params: JsonView,
    now: u64,
    action: Seq<char>,
    target: Seq<char>,
    at: u64,
)
    requires
        nonce_of(n, id, operator, params, now),
    ensures
        nonce_fits(n, action, target, at) ==> need(params, "action"@) == Ok::<Seq<char>, RpcErrorView>(action) && need(
            params,
            "target"@,
        ) == Ok::<Seq<char>, RpcErrorView>(target) && at < now + 60_000,
        need(params, "action"@) == Ok::<Seq<char>, RpcErrorView>(action) && need(params, "target"@) == Ok::<
            Seq<char>,
            RpcErrorView,
        >(target) && at < now + 60_000 ==> nonce_fits(n, action, target, at),
        n.operator_id@ == operator,
        n.action@ == "cancel-task"@ || n.action@ == "stop-process"@,
{
}

/// A nonce is made only for an action that was confirmed, with a target and a reason.
pub proof fn nonce_needs_a_confirmation(params: JsonView)
    requires
        nonce_refusal(params) is None,
    ensures
        params.get_bool("confirmed"@) == Some(true),
        need(params, "target"@) is Ok,
        need(params, "reason"@) is Ok,
        need(params, "grantToken"@) is Ok,
        need(params, "action"@) == Ok::<Seq<char>, RpcErrorView>("cancel-task"@) || need(params, "action"@) == Ok::<
            Seq<char>,
            RpcErrorView,
        >("stop-process"@),
{
}

/// No grant of an operator lasts longer than an hour, nor longer than was asked for.
pub proof fn grants_are_short(params: JsonView)
    ensures
        grant_ttl(params) <= 3_600_000,
        params.get_u64("ttlMs"@) matches Some(t) ==> grant_ttl(params) <= t && (t <= 3_600_000 ==> grant_ttl(params) == t),
        params.get_u64("ttlMs"@) is None ==> grant_ttl(params) == 300_000,
{
}

/// What a forced action comes to: a task is cancelled, a process is stopped, and in each case it is
/// the one that the nonce was made for.
pub proof fn forced_action_strikes_its_target(n: OperatorNonce, params: JsonView)
    requires
        n.action@ == "cancel-task"@ || n.action@ == "stop-process"@,
        forced_plan(n, params) is Ok,
    ensures
        match forced_plan(n, params)->Ok_0 {
            PlanView::Serve(who, action, ask) => n.action@ == "cancel-task"@ && who == n.operator_id@ && action
                == "task.cancel"@ && ask == JsonView::obj().plus("_operatorAuthorized"@, JsonView::Bool(true)).plus(
                "taskId"@,
                JsonView::Text(n.target@),
            ),
            PlanView::Call(who, executor, action, ask) => n.action@ == "stop-process"@ && who == n.operator_id@
                && need(params, "executorId"@) == Ok::<Seq<char>, RpcErrorView>(executor) && action == "process.stop"@
                && ask == JsonView::obj().plus("processId"@, JsonView::Text(n.target@)),
            _ => false,
        },
{
    reveal_strlit("cancel-task");
    reveal_strlit("stop-process");
    assert("cancel-task"@.len() != "stop-process"@.len());
}

} // verus!
