//! Commands that use the desktop of an executor, as requests to the controller.

use crate::codec::{decode, json_parse};
use crate::json::{json_or_null, Json, JsonView};
use crate::rpc::{Called, CalledView};
use crate::text::{concat2, concat3};
use vstd::prelude::*;

verus! {

/// A command that uses the desktop of an executor.
#[derive(Debug)]
pub enum ComputerUseCommand {
    /// Lists the tools of the executor's plugin.
    Tools { executor: String },
    /// Takes the desktop for oneself, for a time.
    Open { executor: String, owner: String, ttl_ms: u64 },
    /// Keeps it for longer.
    Renew { executor: String, owner: String, token: String, ttl_ms: u64 },
    /// Calls a tool of the plugin.
    Call { executor: String, owner: String, token: String, tool: String, arguments: String },
    /// Ends what the plugin holds, and gives the desktop back.
    Close { executor: String, owner: String, token: String },
}

/// The desktop of an executor, as a resource.
pub open spec fn desktop(executor: Seq<char>) -> JsonView {
    JsonView::Text("computer-use:"@ + executor)
}

/// A call of a tool.
pub open spec fn tool_call(
    executor: Seq<char>,
    owner: Seq<char>,
    token: Seq<char>,
    tool: Seq<char>,
    arguments: JsonView,
) -> JsonView {
    JsonView::obj().plus("action"@, JsonView::Text("computer-use.call"@)).plus(
        "executorId"@,
        JsonView::Text(executor),
    ).plus("leaseResource"@, desktop(executor)).plus("owner"@, JsonView::Text(owner)).plus(
        "params"@,
        JsonView::obj().plus("arguments"@, arguments).plus("sessionId"@, JsonView::Text(owner)).plus(
            "tool"@,
            JsonView::Text(tool),
        ),
    ).plus("token"@, JsonView::Text(token))
}

fn desktop_of(executor: &str) -> (r: Json)
    ensures
        r@ == desktop(executor@),
{
    Json::Text(concat2("computer-use:", executor))
}

fn call_of(executor: &str, owner: &str, token: &str, tool: &str, arguments: Json) -> (r: Json)
    ensures
        r@ == tool_call(executor@, owner@, token@, tool@, arguments@),
{
    let params = Json::obj().plus("arguments", arguments).plus("sessionId", Json::text(owner)).plus(
        "tool",
        Json::text(tool),
    );
    Json::obj().plus("action", Json::text("computer-use.call")).plus("executorId", Json::text(executor)).plus(
        "leaseResource",
        desktop_of(executor),
    ).plus("owner", Json::text(owner)).plus("params", params).plus("token", Json::text(token))
}

/// A request to the controller.
#[derive(Debug)]
pub struct Ask {
    pub action: String,
    pub params: Json,
}

/// A request to the controller.
#[verifier::ext_equal]
pub struct AskView {
    pub action: Seq<char>,
    pub params: JsonView,
}

impl View for Ask {
    type V = AskView;

    open spec fn view(&self) -> AskView {
        AskView { action: self.action@, params: self.params@ }
    }
}

/// The requests that a command makes, in order; `arguments` are those of the tool that it calls.
pub open spec fn asks_view(command: ComputerUseCommand, arguments: JsonView) -> Result<Seq<AskView>, Seq<char>> {
    match command {
        ComputerUseCommand::Tools { executor } => Ok(
            seq![
                AskView {
                    action: "executor.call"@,
                    params: JsonView::obj().plus("action"@, JsonView::Text("computer-use.tools"@)).plus(
                        "executorId"@,
                        JsonView::Text(executor@),
                    ).plus("params"@, JsonView::obj()),
                },
            ],
        ),
        ComputerUseCommand::Open { executor, owner, ttl_ms } => Ok(
            seq![
                AskView {
                    action: "lease.acquire"@,
                    params: JsonView::obj().plus("owner"@, JsonView::Text(owner@)).plus(
                        "resource"@,
                        desktop(executor@),
                    ).plus("ttlMs"@, JsonView::Unsigned(ttl_ms)),
                },
            ],
        ),
        ComputerUseCommand::Renew { executor, owner, token, ttl_ms } => Ok(
            seq![
                AskView {
                    action: "lease.renew"@,
                    params: JsonView::obj().plus("owner"@, JsonView::Text(owner@)).plus(
                        "resource"@,
                        desktop(executor@),
                    ).plus("token"@, JsonView::Text(token@)).plus("ttlMs"@, JsonView::Unsigned(ttl_ms)),
                },
            ],
        ),
        ComputerUseCommand::Call { executor, owner, token, tool, .. } => if arguments is Object {
            Ok(
                seq![
                    AskView {
                        action: "executor.call"@,
                        params: tool_call(executor@, owner@, token@, tool@, arguments),
                    },
                ],
            )
        } else {
            Err("tool arguments must be a JSON object"@)
        },
        ComputerUseCommand::Close { executor, owner, token } => Ok(
            seq![
                AskView {
                    action: "executor.call"@,
                    params: tool_call(executor@, owner@, token@, "close"@, JsonView::obj()),
                },
                AskView {
                    action: "lease.release"@,
                    params: JsonView::obj().plus("owner"@, JsonView::Text(owner@)).plus(
                        "resource"@,
                        desktop(executor@),
                    ).plus("token"@, JsonView::Text(token@)),
                },
            ],
        ),
    }
}

/// What some requests are.
pub open spec fn ask_views(asks: Seq<Ask>) -> Seq<AskView> {
    Seq::new(asks.len(), |i: int| asks[i]@)
}

fn one(action: &str, params: Json) -> (r: Vec<Ask>)
    ensures
        ask_views(r@) == seq![AskView { action: action@, params: params@ }],
{
    let mut out: Vec<Ask> = Vec::new();
    out.push(Ask { action: action.to_owned(), params });
    assert(ask_views(out@) =~= seq![AskView { action: action@, params: params@ }]);
    out
}

/// The requests that a command makes, in order; `arguments` are those of the tool that it calls.
/// Closing ends what the plugin holds before it gives the desktop back.
pub fn requests(command: &ComputerUseCommand, arguments: Json) -> (r: Result<Vec<Ask>, String>)
    ensures
        match asks_view(*command, arguments@) {
            Ok(asks) => r matches Ok(x) && ask_views(x@) == asks,
            Err(e) => r matches Err(x) && x@ == e,
        },
{
    match command {
        ComputerUseCommand::Tools { executor } => Ok(
            one(
                "executor.call",
                Json::obj().plus("action", Json::text("computer-use.tools")).plus(
                    "executorId",
                    Json::text(executor.as_str()),
                ).plus("params", Json::obj()),
            ),
        ),
        ComputerUseCommand::Open { executor, owner, ttl_ms } => Ok(
            one(
                "lease.acquire",
                Json::obj().plus("owner", Json::text(owner.as_str())).plus(
                    "resource",
                    desktop_of(executor.as_str()),
                ).plus("ttlMs", Json::Unsigned(*ttl_ms)),
            ),
        ),
        ComputerUseCommand::Renew { executor, owner, token, ttl_ms } => Ok(
            one(
                "lease.renew",
                Json::obj().plus("owner", Json::text(owner.as_str())).plus(
                    "resource",
                    desktop_of(executor.as_str()),
                ).plus("token", Json::text(token.as_str())).plus("ttlMs", Json::Unsigned(*ttl_ms)),
            ),
        ),
        ComputerUseCommand::Call { executor, owner, token, tool, .. } => {
            let object = match &arguments {
                Json::Object(_) => true,
                _ => false,
            };
            if object {
                Ok(
                    one(
                        "executor.call",
                        call_of(executor.as_str(), owner.as_str(), token.as_str(), tool.as_str(), arguments),
                    ),
                )
            } else {
                Err("tool arguments must be a JSON object".to_owned())
            }
        },
        ComputerUseCommand::Close { executor, owner, token } => {
            let mut out = one(
                "executor.call",
                call_of(executor.as_str(), owner.as_str(), token.as_str(), "close", Json::obj()),
            );
            let release = Json::obj().plus("owner", Json::text(owner.as_str())).plus(
                "resource",
                desktop_of(executor.as_str()),
            ).plus("token", Json::text(token.as_str()));
            let ghost first = ask_views(out@);
            let second = Ask { action: "lease.release".to_owned(), params: release };
            let ghost held = out@;
            out.push(second);
            proof {
                assert(ask_views(out@) =~= first.push(second@));
                assert(ask_views(out@) =~= asks_view(*command, arguments@)->Ok_0);
            }
            Ok(out)
        },
    }
}

/// The requests that a command makes, where the arguments of its tool are still text.
pub fn requests_of_text(command: &ComputerUseCommand, text: &str) -> (r: Result<Vec<Ask>, String>)
    ensures
        match json_parse(vstd::utf8::encode_utf8(text@)) {
            Ok(arguments) => match asks_view(*command, arguments) {
                Ok(asks) => r matches Ok(x) && ask_views(x@) == asks,
                Err(e) => r matches Err(x) && x@ == e,
            },
            Err(m) => r matches Err(x) && x@ == m,
        },
{
    match decode(text.as_bytes()) {
        Ok(arguments) => requests(command, arguments),
        Err(m) => Err(m),
    }
}

/// What a request comes to for the one who made it.
pub open spec fn asked_view(called: CalledView) -> Result<JsonView, Seq<char>> {
    match called {
        CalledView::Unreachable(reason) => Err(reason),
        CalledView::Answered(response) => if response.ok {
            Ok(json_or_null(response.result))
        } else {
            match response.error {
                Some(e) => Err(e.code + ": "@ + e.message),
                None => Err("missing RPC error"@),
            }
        },
    }
}

/// What a request comes to for the one who made it: its result, or why there is none.
pub fn asked(called: Called) -> (r: Result<Json, String>)
    ensures
        match asked_view(called@) {
            Ok(j) => r matches Ok(x) && x@ == j,
            Err(e) => r matches Err(x) && x@ == e,
        },
{
    match called {
        Called::Unreachable(reason) => Err(reason),
        Called::Answered(response) => {
            if response.ok {
                match response.result {
                    Some(j) => Ok(j),
                    None => Ok(Json::Null),
                }
            } else {
                match response.error {
                    Some(e) => Err(concat3(e.code.as_str(), ": ", e.message.as_str())),
                    None => Err("missing RPC error".to_owned()),
                }
            }
        },
    }
}

/// What closing comes to: the desktop is given back in any case, but a failure to end what the
/// plugin holds is what is told.
pub fn closed(ended: Called, released: Called) -> (r: Result<Json, String>)
    ensures
        match asked_view(ended@) {
            Err(e) => r matches Err(x) && x@ == e,
            Ok(_) => match asked_view(released@) {
                Ok(j) => r matches Ok(x) && x@ == j,
                Err(e) => r matches Err(x) && x@ == e,
            },
        },
{
    match asked(ended) {
        Ok(_) => asked(released),
        Err(e) => Err(e),
    }
}

/// The desktop of an executor is used under its lease alone: it is taken, kept, used and given back
/// by the one who holds it, with the token, and closing ends the plugin before the lease.
pub proof fn desktop_is_used_under_its_lease(command: ComputerUseCommand, arguments: JsonView)
    ensures
        match command {
            ComputerUseCommand::Tools { .. } => asks_view(command, arguments) matches Ok(asks) && asks.len() == 1
                && asks[0].action == "executor.call"@,
            ComputerUseCommand::Open { executor, owner, ttl_ms } => asks_view(command, arguments) matches Ok(asks)
                && asks.len() == 1 && asks[0].action == "lease.acquire"@ && asks[0].params == JsonView::obj().plus(
                "owner"@,
                JsonView::Text(owner@),
            ).plus("resource"@, JsonView::Text("computer-use:"@ + executor@)).plus("ttlMs"@, JsonView::Unsigned(ttl_ms)),
            ComputerUseCommand::Renew { .. } => asks_view(command, arguments) matches Ok(asks) && asks.len() == 1
                && asks[0].action == "lease.renew"@,
            ComputerUseCommand::Call { executor, owner, token, tool, .. } => asks_view(command, arguments) is Ok
                == arguments is Object && (asks_view(command, arguments) matches Ok(asks) ==> asks.len() == 1
                && asks[0].action == "executor.call"@ && asks[0].params == tool_call(
                executor@,
                owner@,
                token@,
                tool@,
                arguments,
            )),
            ComputerUseCommand::Close { executor, owner, token } => asks_view(command, arguments) matches Ok(asks)
                && asks.len() == 2 && asks[0].action == "executor.call"@ && asks[0].params == tool_call(
                executor@,
                owner@,
                token@,
                "close"@,
                JsonView::obj(),
            ) && asks[1].action == "lease.release"@ && asks[1].params == JsonView::obj().plus(
                "owner"@,
                JsonView::Text(owner@),
            ).plus("resource"@, JsonView::Text("computer-use:"@ + executor@)).plus("token"@, JsonView::Text(token@)),
        },
{
}

/// What was asked comes to the answer, and succeeds only where the answer says so.
pub proof fn asking_comes_to_its_answer(called: CalledView)
    ensures
        asked_view(called) is Ok == (called matches CalledView::Answered(response) && response.ok),
        (called matches CalledView::Answered(response) && response.ok && response.result is Some) ==> asked_view(called)
            == Ok::<JsonView, Seq<char>>(called->Answered_0.result->0),
        called matches CalledView::Unreachable(reason) ==> asked_view(called) == Err::<JsonView, Seq<char>>(reason),
{
}

} // verus!
