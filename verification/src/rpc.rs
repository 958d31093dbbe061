//! Requests, responses and errors that nodes exchange, and the reading of request parameters.

use crate::json::{Json, JsonView};
use crate::text::{concat2, str_eq};
use vstd::prelude::*;

verus! {

/// An error that a node answers a request with.
#[derive(Debug, Clone, PartialEq, Eq)]
pub struct RpcError {
    pub code: String,
    pub message: String,
    pub retryable: bool,
    pub details: Json,
}

/// What an error holds.
pub struct RpcErrorView {
    pub code: Seq<char>,
    pub message: Seq<char>,
    pub retryable: bool,
    pub details: JsonView,
}

impl View for RpcError {
    type V = RpcErrorView;

    open spec fn view(&self) -> RpcErrorView {
        RpcErrorView {
            code: self.code@,
            message: self.message@,
            retryable: self.retryable,
            details: self.details@,
        }
    }
}

/// The error with a code and a message, not retryable and without details.
pub open spec fn rpc_error(code: Seq<char>, message: Seq<char>) -> RpcErrorView {
    RpcErrorView { code, message, retryable: false, details: JsonView::Null }
}

/// The error with a code and a message that a later attempt may not meet.
pub open spec fn retryable_error(code: Seq<char>, message: Seq<char>) -> RpcErrorView {
    RpcErrorView { code, message, retryable: true, details: JsonView::Null }
}

impl RpcError {
    /// The error with a code and a message, not retryable and without details.
    pub fn new(code: &str, message: &str) -> (r: RpcError)
        ensures
            r@ == rpc_error(code@, message@),
    {
        RpcError { code: code.to_owned(), message: message.to_owned(), retryable: false, details: Json::Null }
    }

    /// The error with a code and a message that a later attempt may not meet.
    pub fn transient(code: &str, message: &str) -> (r: RpcError)
        ensures
            r@ == retryable_error(code@, message@),
    {
        RpcError { code: code.to_owned(), message: message.to_owned(), retryable: true, details: Json::Null }
    }

    /// An error that holds the same.
    pub fn copy(&self) -> (r: RpcError)
        ensures
            r@ == self@,
    {
        RpcError {
            code: self.code.clone(),
            message: self.message.clone(),
            retryable: self.retryable,
            details: self.details.copy(),
        }
    }
}

/// A request to a node.
#[derive(Debug, Clone, PartialEq, Eq)]
pub struct Request {
    pub request_id: String,
    pub action: String,
    pub params: Json,
    pub correlation_id: Option<String>,
    pub parent_request_id: Option<String>,
    pub run_id: Option<String>,
    pub span_id: Option<String>,
    pub parent_span_id: Option<String>,
    pub agent_session_id: Option<String>,
}

/// A node's answer to a request.
#[derive(Debug, Clone, PartialEq, Eq)]
pub struct Response {
    pub request_id: String,
    pub ok: bool,
    pub result: Option<Json>,
    pub error: Option<RpcError>,
}

/// What holds of a response besides the identity of its request.
pub struct ResponseView {
    pub ok: bool,
    pub result: Option<JsonView>,
    pub error: Option<RpcErrorView>,
}

impl View for Response {
    type V = ResponseView;

    open spec fn view(&self) -> ResponseView {
        ResponseView {
            ok: self.ok,
            result: match self.result {
                Some(j) => Some(j@),
                None => None,
            },
            error: match self.error {
                Some(e) => Some(e@),
                None => None,
            },
        }
    }
}

impl Response {
    /// The answer to a request that succeeded.
    pub fn success(request_id: &str, result: Json) -> (r: Response)
        ensures
            r.request_id@ == request_id@,
            r@ == (ResponseView { ok: true, result: Some(result@), error: None }),
    {
        Response { request_id: request_id.to_owned(), ok: true, result: Some(result), error: None }
    }

    /// The answer to a request that failed.
    pub fn failure(request_id: &str, error: RpcError) -> (r: Response)
        ensures
            r.request_id@ == request_id@,
            r@ == (ResponseView { ok: false, result: None, error: Some(error@) }),
    {
        Response { request_id: request_id.to_owned(), ok: false, result: None, error: Some(error) }
    }
}

/// What came back from a call to another node: its answer, or why there is none.
#[derive(Debug)]
pub enum Called {
    Answered(Response),
    Unreachable(String),
}

/// What came back from a call.
pub enum CalledView {
    Answered(ResponseView),
    Unreachable(Seq<char>),
}

impl View for Called {
    type V = CalledView;

    open spec fn view(&self) -> CalledView {
        match self {
            Called::Answered(response) => CalledView::Answered(response@),
            Called::Unreachable(reason) => CalledView::Unreachable(reason@),
        }
    }
}

/// What a call gives its caller: the result (null where the answer has none), the error that
/// the answer carries, or an error of the caller's own.
pub open spec fn call_result_view(
    called: CalledView,
    unreachable: RpcErrorView,
    failed: RpcErrorView,
) -> Result<JsonView, RpcErrorView> {
    match called {
        CalledView::Unreachable(reason) => Err(RpcErrorView { message: reason, ..unreachable }),
        CalledView::Answered(response) => if response.ok {
            Ok(match response.result {
                Some(j) => j,
                None => JsonView::Null,
            })
        } else {
            Err(match response.error {
                Some(e) => e,
                None => failed,
            })
        },
    }
}

/// Reads what a call to another node gave. Where the node could not be reached the error has
/// the given code and the reason as its message; where the answer is a failure without an
/// error, the error has the given code and message.
pub fn call_result(
    called: Called,
    unreachable: &str,
    retryable: bool,
    failed: &str,
    failed_message: &str,
) -> (r: Result<Json, RpcError>)
    ensures
        match r {
            Ok(j) => call_result_view(
                called@,
                (RpcErrorView { retryable, ..rpc_error(unreachable@, Seq::empty()) }),
                rpc_error(failed@, failed_message@),
            ) == Ok::<JsonView, RpcErrorView>(j@),
            Err(e) => call_result_view(
                called@,
                (RpcErrorView { retryable, ..rpc_error(unreachable@, Seq::empty()) }),
                rpc_error(failed@, failed_message@),
            ) == Err::<JsonView, RpcErrorView>(e@),
        },
{
    match called {
        Called::Unreachable(reason) => {
            let mut e = RpcError::new(unreachable, reason.as_str());
            e.retryable = retryable;
            Err(e)
        },
        Called::Answered(response) => {
            if response.ok {
                match response.result {
                    Some(j) => Ok(j),
                    None => Ok(Json::Null),
                }
            } else {
                match response.error {
                    Some(e) => Err(e),
                    None => Err(RpcError::new(failed, failed_message)),
                }
            }
        },
    }
}

/// What a call to a registered executor gives.
pub open spec fn executor_result_view(called: CalledView) -> Result<JsonView, RpcErrorView> {
    call_result_view(
        called,
        retryable_error("EXECUTOR_UNAVAILABLE"@, Seq::empty()),
        rpc_error("EXECUTOR_FAILED"@, "executor failed"@),
    )
}

/// Reads what a call to a registered executor gave.
pub fn executor_result(called: Called) -> (r: Result<Json, RpcError>)
    ensures
        match r {
            Ok(j) => executor_result_view(called@) == Ok::<JsonView, RpcErrorView>(j@),
            Err(e) => executor_result_view(called@) == Err::<JsonView, RpcErrorView>(e@),
        },
{
    call_result(called, "EXECUTOR_UNAVAILABLE", true, "EXECUTOR_FAILED", "executor failed")
}

/// What a call to a registered controller gives.
pub open spec fn controller_result_view(called: CalledView) -> Result<JsonView, RpcErrorView> {
    call_result_view(
        called,
        retryable_error("CONTROLLER_UNAVAILABLE"@, Seq::empty()),
        rpc_error("CONTROLLER_FAILED"@, "controller failed"@),
    )
}

/// Reads what a call to a registered controller gave.
pub fn controller_result(called: Called) -> (r: Result<Json, RpcError>)
    ensures
        match r {
            Ok(j) => controller_result_view(called@) == Ok::<JsonView, RpcErrorView>(j@),
            Err(e) => controller_result_view(called@) == Err::<JsonView, RpcErrorView>(e@),
        },
{
    call_result(called, "CONTROLLER_UNAVAILABLE", true, "CONTROLLER_FAILED", "controller failed")
}

/// Whether a result is a given error.
pub open spec fn fails<T>(r: Result<T, RpcError>, e: RpcErrorView) -> bool {
    r matches Err(x) && x@ == e
}

/// The error for a parameter that is not there or empty.
pub open spec fn missing(key: Seq<char>) -> RpcErrorView {
    rpc_error("INVALID_PARAMS"@, key + " is required"@)
}

/// The text of a parameter that has to be there and not empty.
pub open spec fn need(params: JsonView, key: Seq<char>) -> Result<Seq<char>, RpcErrorView> {
    match params.get_str(key) {
        Some(s) => if s.len() > 0 {
            Ok(s)
        } else {
            Err(missing(key))
        },
        None => Err(missing(key)),
    }
}

/// The text of the parameter `key`, which has to be there and not empty.
pub fn required_str<'a>(params: &'a Json, key: &str) -> (r: Result<&'a str, RpcError>)
    ensures
        match r {
            Ok(s) => need(params@, key@) == Ok::<Seq<char>, RpcErrorView>(s@),
            Err(e) => need(params@, key@) == Err::<Seq<char>, RpcErrorView>(e@),
        },
{
    if let Some(s) = params.get_str(key) {
        if !s.is_empty() {
            return Ok(s);
        }
    }
    let message = concat2(key, " is required");
    Err(RpcError::new("INVALID_PARAMS", message.as_str()))
}

/// The text of a parameter that may be absent or null.
pub open spec fn may_have(params: JsonView, key: Seq<char>) -> Result<Option<Seq<char>>, RpcErrorView> {
    match params.get(key) {
        None => Ok(None),
        Some(JsonView::Null) => Ok(None),
        Some(JsonView::Text(s)) => Ok(Some(s)),
        Some(_) => Err(rpc_error("INVALID_PARAMS"@, key + " must be a string"@)),
    }
}

/// The text of the parameter `key`, where it is there and not null.
pub fn optional_str(params: &Json, key: &str) -> (r: Result<Option<String>, RpcError>)
    ensures
        match r {
            Ok(Some(s)) => may_have(params@, key@) == Ok::<Option<Seq<char>>, RpcErrorView>(Some(s@)),
            Ok(None) => may_have(params@, key@) == Ok::<Option<Seq<char>>, RpcErrorView>(None),
            Err(e) => may_have(params@, key@) == Err::<Option<Seq<char>>, RpcErrorView>(e@),
        },
{
    match params.get(key) {
        None => Ok(None),
        Some(Json::Null) => Ok(None),
        Some(Json::Text(s)) => Ok(Some(s.clone())),
        Some(_) => {
            let message = concat2(key, " must be a string");
            Err(RpcError::new("INVALID_PARAMS", message.as_str()))
        },
    }
}

/// The error that says that a record is not known.
pub open spec fn unknown(code: Seq<char>, what: Seq<char>, id: Seq<char>) -> RpcErrorView {
    rpc_error(code, what + id)
}

/// The error with `code` and the message `what` followed by `id`.
pub fn unknown_error(code: &str, what: &str, id: &str) -> (r: RpcError)
    ensures
        r@ == unknown(code@, what@, id@),
{
    let message = concat2(what, id);
    RpcError::new(code, message.as_str())
}

/// Whether an action is one of the actions of a family, such as `driver.`.
pub fn action_in(action: &str, family: &str) -> (r: bool)
    ensures
        r == family@.is_prefix_of(action@),
{
    crate::text::starts_with(action, family)
}

/// Whether two optional texts are equal.
pub fn same_option(a: &Option<String>, b: &Option<String>) -> (r: bool)
    ensures
        r == (match (*a, *b) {
            (Some(x), Some(y)) => x@ == y@,
            (None, None) => true,
            _ => false,
        }),
{
    match (a, b) {
        (Some(x), Some(y)) => str_eq(x.as_str(), y.as_str()),
        (None, None) => true,
        _ => false,
    }
}

/// A call comes to what was answered: its result where it succeeded, the error that it names where
/// it failed, and the reason where it was not reached.
pub proof fn call_comes_to_its_answer(called: CalledView, unreachable: RpcErrorView, failed: RpcErrorView)
    ensures
        call_result_view(called, unreachable, failed) is Ok == (called matches CalledView::Answered(response)
            && response.ok),
        match called {
            CalledView::Answered(response) => {
                &&& response.ok && response.result is Some ==> call_result_view(called, unreachable, failed) == Ok::<
                    JsonView,
                    RpcErrorView,
                >(response.result->0)
                &&& !response.ok && response.error is Some ==> call_result_view(called, unreachable, failed) == Err::<
                    JsonView,
                    RpcErrorView,
                >(response.error->0)
                &&& !response.ok && response.error is None ==> call_result_view(called, unreachable, failed) == Err::<
                    JsonView,
                    RpcErrorView,
                >(failed)
            },
            CalledView::Unreachable(reason) => call_result_view(called, unreachable, failed) matches Err(e) && e.code
                == unreachable.code && e.message == reason && e.retryable == unreachable.retryable,
        },
{
}

/// A parameter that has to be there is taken as it is given, and refused where it is missing, empty
/// or no text.
pub proof fn needed_parameter_is_given(params: JsonView, key: Seq<char>)
    ensures
        need(params, key) is Ok == (params.get(key) matches Some(JsonView::Text(s)) && s.len() > 0),
        need(params, key) matches Ok(s) ==> params.get(key) == Some(JsonView::Text(s)),
        need(params, key) matches Err(e) ==> e.code == "INVALID_PARAMS"@ && e.message == key + " is required"@,
        may_have(params, key) matches Ok(Some(s)) ==> params.get(key) == Some(JsonView::Text(s)),
        params.get(key) is None || params.get(key) == Some(JsonView::Null) ==> may_have(params, key) == Ok::<
            Option<Seq<char>>,
            RpcErrorView,
        >(None),
        params.get(key) matches Some(JsonView::Text(s)) ==> may_have(params, key) == Ok::<Option<Seq<char>>, RpcErrorView>(
            Some(s),
        ),
{
}

} // verus!
