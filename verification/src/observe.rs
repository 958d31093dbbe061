//! What a controller notes of the requests that it serves: traces, log records and observations
//! that hold nothing secret.

use crate::codec::{encode, json_text};
use crate::json::{text_or_null, Json, JsonView};
use crate::rpc::{Request, Response, RpcError, RpcErrorView};
use crate::schema::{Observation, Task};
use crate::task::opt_text;
use crate::text::{chars_of, concat3, is_alnum, is_alphanumeric, starts_with, str_eq, take_chars};
use vstd::prelude::*;

verus! {

/// The trace of the request that is being served.
#[derive(Debug)]
pub struct TraceContext {
    pub correlation_id: String,
    pub request_id: String,
    pub run_id: Option<String>,
    pub span_id: Option<String>,
    pub agent_session_id: Option<String>,
}

/// The correlation of a request: its own, or its name where it has none.
pub open spec fn correlation(request: Request) -> Seq<char> {
    match request.correlation_id {
        Some(c) => c@,
        None => request.request_id@,
    }
}

/// The trace under which a request is served.
pub fn trace_of(request: &Request) -> (r: TraceContext)
    ensures
        r.correlation_id@ == correlation(*request),
        r.request_id@ == request.request_id@,
        opt_text(r.run_id) == opt_text(request.run_id),
        opt_text(r.span_id) == opt_text(request.span_id),
        opt_text(r.agent_session_id) == opt_text(request.agent_session_id),
{
    TraceContext {
        correlation_id: match &request.correlation_id {
            Some(c) => c.clone(),
            None => request.request_id.clone(),
        },
        request_id: request.request_id.clone(),
        run_id: request.run_id.clone(),
        span_id: request.span_id.clone(),
        agent_session_id: request.agent_session_id.clone(),
    }
}

/// A request to another node, which carries on the trace of the request that is being served.
pub fn traced_request(trace: &Option<TraceContext>, request_id: &str, action: &str, params: Json) -> (r: Request)
    ensures
        r.request_id@ == request_id@,
        r.action@ == action@,
        r.params == params,
        r.span_id is None,
        match *trace {
            Some(t) => opt_text(r.correlation_id) == Some(t.correlation_id@) && opt_text(r.parent_request_id) == Some(
                t.request_id@,
            ) && opt_text(r.run_id) == opt_text(t.run_id) && opt_text(r.parent_span_id) == opt_text(t.span_id)
                && opt_text(r.agent_session_id) == opt_text(t.agent_session_id),
            None => r.correlation_id is None && r.parent_request_id is None && r.run_id is None && r.parent_span_id
                is None && r.agent_session_id is None,
        },
{
    let mut request = Request {
        request_id: request_id.to_owned(),
        action: action.to_owned(),
        params,
        correlation_id: None,
        parent_request_id: None,
        run_id: None,
        span_id: None,
        parent_span_id: None,
        agent_session_id: None,
    };
    if let Some(t) = trace {
        request.correlation_id = Some(t.correlation_id.clone());
        request.parent_request_id = Some(t.request_id.clone());
        request.run_id = t.run_id.clone();
        request.parent_span_id = t.span_id.clone();
        request.agent_session_id = t.agent_session_id.clone();
    }
    request
}

/// The correlation and the name of the request that is being served.
pub fn current_trace(trace: &Option<TraceContext>) -> (r: (Option<String>, Option<String>))
    ensures
        match *trace {
            Some(t) => opt_text(r.0) == Some(t.correlation_id@) && opt_text(r.1) == Some(t.request_id@),
            None => r.0 is None && r.1 is None,
        },
{
    match trace {
        Some(t) => (Some(t.correlation_id.clone()), Some(t.request_id.clone())),
        None => (None, None),
    }
}

/// The run of the request that is being served.
pub fn current_run_id(trace: &Option<TraceContext>) -> (r: Option<String>)
    ensures
        match *trace {
            Some(t) => opt_text(r) == opt_text(t.run_id),
            None => r is None,
        },
{
    match trace {
        Some(t) => t.run_id.clone(),
        None => None,
    }
}

/// Where log records go, and for which component.
#[derive(Debug)]
pub struct LogSink {
    pub component: String,
    pub path: String,
}

/// Sets where log records go, the first time that it is called.
pub fn init_logging(sink: &mut Option<LogSink>, component: &str, path: &str)
    ensures
        *old(sink) is Some ==> *final(sink) == *old(sink),
        *old(sink) is None ==> (*final(sink) matches Some(s) && s.component@ == component@ && s.path@ == path@),
{
    if sink.is_none() {
        *sink = Some(LogSink { component: component.to_owned(), path: path.to_owned() });
    }
}

/// A record of the log.
pub open spec fn record_view(component: Seq<char>, level: Seq<char>, event: Seq<char>, now: u64, data: JsonView) -> JsonView {
    JsonView::obj().plus("component"@, JsonView::Text(component)).plus("data"@, data).plus(
        "event"@,
        JsonView::Text(event),
    ).plus("level"@, JsonView::Text(level)).plus("timestamp"@, JsonView::Unsigned(now))
}

/// A record of the log.
pub fn log_record(component: &str, level: &str, event: &str, now: u64, data: Json) -> (r: Json)
    ensures
        r@ == record_view(component@, level@, event@, now, data@),
{
    Json::obj().plus("component", Json::text(component)).plus("data", data).plus("event", Json::text(event)).plus(
        "level",
        Json::text(level),
    ).plus("timestamp", Json::Unsigned(now))
}

/// What a log record says of a request.
pub open spec fn request_view(request: Request, fields: JsonView) -> JsonView {
    JsonView::obj().plus("action"@, JsonView::Text(request.action@)).plus(
        "correlationId"@,
        JsonView::Text(correlation(request)),
    ).plus("fields"@, fields).plus("parentRequestId"@, text_or_null(opt_text(request.parent_request_id))).plus(
        "requestId"@,
        JsonView::Text(request.request_id@),
    )
}

/// What a log record says of a request.
pub fn request_event(request: &Request, fields: Json) -> (r: Json)
    ensures
        r@ == request_view(*request, fields@),
{
    let c = match &request.correlation_id {
        Some(c) => Json::text(c.as_str()),
        None => Json::text(request.request_id.as_str()),
    };
    Json::obj().plus("action", Json::text(request.action.as_str())).plus("correlationId", c).plus("fields", fields).plus(
        "parentRequestId",
        Json::opt_text(&request.parent_request_id),
    ).plus("requestId", Json::text(request.request_id.as_str()))
}

/// Whether a name can be that of a task in a path.
pub open spec fn task_name_safe(id: Seq<char>) -> bool {
    "task_"@.is_prefix_of(id) && id.len() <= 64 && forall|i: int|
        0 <= i < id.len() ==> is_alnum(#[trigger] id[i]) || id[i] == '_'
}

/// The place of the events of a task below the log directory, where its name can be part of a
/// path.
pub fn task_event_path(task_id: &str) -> (r: Option<String>)
    ensures
        opt_text(r) == (if task_name_safe(task_id@) {
            Some("tasks/"@ + task_id@ + "/events.jsonl"@)
        } else {
            None
        }),
{
    if !starts_with(task_id, "task_") {
        return None;
    }
    let v = chars_of(task_id);
    if v.len() > 64 {
        return None;
    }
    let mut i: usize = 0;
    while i < v.len()
        invariant
            i <= v.len(),
            v@ == task_id@,
            forall|k: int| 0 <= k < i ==> is_alnum(#[trigger] task_id@[k]) || task_id@[k] == '_',
        decreases v.len() - i,
    {
        if !is_alphanumeric(v[i]) && v[i] != '_' {
            assert(!(is_alnum(task_id@[i as int]) || task_id@[i as int] == '_'));
            return None;
        }
        i += 1;
    }
    Some(concat3("tasks/", task_id, "/events.jsonl"))
}

/// Whether an attribute of an observation may be stored.
pub open spec fn attribute_allowed(key: Seq<char>) -> bool {
    key == "capability"@ || key == "component"@ || key == "stage"@ || key == "targetNode"@ || key == "targetRepo"@ || key
        == "errorCode"@ || key == "artifactDigest"@ || key == "approvalId"@ || key == "action"@ || key
        == "workspaceSessionId"@ || key == "agentId"@ || key == "blockerId"@ || key == "blockerKind"@ || key
        == "blockerReason"@ || key == "waitingOn"@
}

fn allows_attribute(key: &str) -> (r: bool)
    ensures
        r == attribute_allowed(key@),
{
    str_eq(key, "capability") || str_eq(key, "component") || str_eq(key, "stage") || str_eq(key, "targetNode") || str_eq(
        key,
        "targetRepo",
    ) || str_eq(key, "errorCode") || str_eq(key, "artifactDigest") || str_eq(key, "approvalId") || str_eq(key, "action")
        || str_eq(key, "workspaceSessionId") || str_eq(key, "agentId") || str_eq(key, "blockerId") || str_eq(
        key,
        "blockerKind",
    ) || str_eq(key, "blockerReason") || str_eq(key, "waitingOn")
}

/// The first characters of a text, up to a number of them.
pub open spec fn first_chars(s: Seq<char>, n: int) -> Seq<char> {
    s.take(if n < s.len() {
        n
    } else {
        s.len() as int
    })
}

/// A value as it may be stored: a text is cut, and a document in a document left out.
pub open spec fn safe_value(v: JsonView) -> JsonView {
    match v {
        JsonView::Text(s) => JsonView::Text(first_chars(s, 500)),
        JsonView::Array(_) => JsonView::Null,
        JsonView::Object(_) => JsonView::Null,
        other => other,
    }
}

/// The fields, of the first `n`, that may be stored.
pub open spec fn safe_fields(fields: Seq<(Seq<char>, JsonView)>, n: int) -> Seq<(Seq<char>, JsonView)>
    decreases n,
{
    if n <= 0 {
        Seq::empty()
    } else {
        let before = safe_fields(fields, n - 1);
        if attribute_allowed(fields[n - 1].0) {
            before.push((fields[n - 1].0, safe_value(fields[n - 1].1)))
        } else {
            before
        }
    }
}

/// The attributes of an observation that may be stored.
pub open spec fn safe_attributes(attributes: JsonView) -> JsonView {
    match attributes {
        JsonView::Object(fields) => JsonView::Object(safe_fields(fields, fields.len() as int)),
        _ => JsonView::obj(),
    }
}

/// The attributes of an observation that may be stored: those of a fixed list, their texts cut to
/// five hundred characters, without anything nested.
pub fn safe_observation_attributes(attributes: &Json) -> (r: Json)
    ensures
        r@ == safe_attributes(attributes@),
{
    match attributes {
        Json::Object(fields) => {
            let ghost all = attributes@->Object_0;
            let mut out: Vec<(String, Json)> = Vec::new();
            assert(crate::evidence::object_fields(out@) =~= Seq::empty());
            let mut i: usize = 0;
            while i < fields.len()
                invariant
                    i <= fields.len(),
                    attributes@ == JsonView::Object(all),
                    *attributes == Json::Object(*fields),
                    all.len() == fields@.len(),
                    forall|k: int|
                        0 <= k < all.len() ==> (#[trigger] all[k]).0 == fields@[k].0@ && all[k].1 == fields@[k].1@,
                    crate::evidence::object_fields(out@) == safe_fields(all, i as int),
                decreases fields.len() - i,
            {
                assert(all[i as int].0 == fields@[i as int].0@);
                if allows_attribute(fields[i].0.as_str()) {
                    let v = match &fields[i].1 {
                        Json::Text(s) => Json::Text(take_chars(s.as_str(), 500)),
                        Json::Array(_) => Json::Null,
                        Json::Object(_) => Json::Null,
                        other => other.copy(),
                    };
                    let ghost before = out@;
                    out.push((fields[i].0.clone(), v));
                    assert(crate::evidence::object_fields(out@) =~= crate::evidence::object_fields(before).push(
                        (all[i as int].0, safe_value(all[i as int].1)),
                    ));
                }
                i += 1;
            }
            let r = Json::Object(out);
            assert(r@->Object_0 =~= crate::evidence::object_fields(out@));
            r
        },
        _ => Json::obj(),
    }
}

/// Whether a value is a text or a number.
pub open spec fn scalar(v: JsonView) -> bool {
    v is Text || v is Unsigned || v is Negative || v is Decimal
}

fn is_scalar(v: &Json) -> (r: bool)
    ensures
        r == scalar(v@),
{
    match v {
        Json::Text(_) | Json::Unsigned(_) | Json::Negative(_) | Json::Decimal(_) => true,
        _ => false,
    }
}

/// An object with one more field of another, where that is a text or a number, or a truth value
/// where those are taken too.
pub open spec fn pick(out: JsonView, params: JsonView, key: Seq<char>, truths: bool) -> JsonView {
    match params.get(key) {
        Some(v) => if scalar(v) || (truths && v is Bool) {
            out.plus(key, v)
        } else {
            out
        },
        None => out,
    }
}

fn picked(out: Json, params: &Json, key: &str, truths: bool) -> (r: Json)
    ensures
        r@ == pick(out@, params@, key@, truths),
{
    match params.get(key) {
        Some(v) => {
            let truth = match v {
                Json::Bool(_) => true,
                _ => false,
            };
            if is_scalar(v) || (truths && truth) {
                out.plus(key, v.copy())
            } else {
                out
            }
        },
        None => out,
    }
}

/// What an observation says of the parameters of a request.
pub open spec fn lifecycle_view(params: JsonView) -> JsonView {
    let a = pick(JsonView::obj(), params, "agentId"@, false);
    let b = pick(a, params, "approvalId"@, false);
    let c = pick(b, params, "digest"@, false);
    let d = pick(c, params, "executorId"@, false);
    let e = pick(d, params, "generationId"@, false);
    let f = pick(e, params, "processId"@, false);
    let g = pick(f, params, "targetControllerId"@, false);
    let h = pick(g, params, "taskId"@, false);
    pick(h, params, "workspaceSessionId"@, false)
}

/// What an observation says of the parameters of a request: the names of the records that it is
/// about.
pub fn safe_lifecycle_attributes(params: &Json) -> (r: Json)
    ensures
        r@ == lifecycle_view(params@),
{
    let a = picked(Json::obj(), params, "agentId", false);
    let b = picked(a, params, "approvalId", false);
    let c = picked(b, params, "digest", false);
    let d = picked(c, params, "executorId", false);
    let e = picked(d, params, "generationId", false);
    let f = picked(e, params, "processId", false);
    let g = picked(f, params, "targetControllerId", false);
    let h = picked(g, params, "taskId", false);
    picked(h, params, "workspaceSessionId", false)
}

/// The names of the first fields of an object, at most 32.
pub open spec fn first_keys(input: JsonView) -> Seq<JsonView> {
    match input {
        JsonView::Object(fields) => Seq::new(
            if fields.len() < 32 {
                fields.len()
            } else {
                32
            },
            |i: int| JsonView::Text(fields[i].0),
        ),
        _ => Seq::empty(),
    }
}

/// What is said of the input of a capability: its fields and its size.
pub open spec fn summary_view(input: JsonView) -> JsonView {
    JsonView::obj().plus(
        "encodedBytes"@,
        JsonView::Unsigned(vstd::utf8::encode_utf8(json_text(input)).len() as u64),
    ).plus("keys"@, JsonView::Array(first_keys(input)))
}

fn input_summary(input: &Json) -> (r: Json)
    ensures
        r@ == summary_view(input@),
{
    let mut keys: Vec<Json> = Vec::new();
    match input {
        Json::Object(fields) => {
            let mut i: usize = 0;
            while i < fields.len() && i < 32
                invariant
                    i <= fields.len(),
                    i <= 32,
                    keys@.len() == i,
                    *input == Json::Object(*fields),
                    forall|k: int| 0 <= k < i ==> (#[trigger] keys@[k])@ == JsonView::Text(fields@[k].0@),
                decreases fields.len() - i,
            {
                keys.push(Json::text(fields[i].0.as_str()));
                i += 1;
            }
        },
        _ => {},
    }
    let text = encode(input);
    let size = text.as_str().as_bytes().len() as u64;
    let listed = Json::array(keys);
    assert(listed@->Array_0 =~= first_keys(input@));
    Json::obj().plus("encodedBytes", Json::Unsigned(size)).plus("keys", listed)
}

/// What the log says of the parameters of a request.
pub open spec fn request_fields(action: Seq<char>, params: JsonView) -> JsonView {
    let a = pick(JsonView::obj(), params, "capability"@, true);
    let b = pick(a, params, "executionMode"@, true);
    let c = pick(b, params, "executorId"@, true);
    let d = if action == "capability.invoke"@ {
        c.plus("inputSummary"@, summary_view(params.get_or_null("input"@)))
    } else {
        c
    };
    let e = pick(d, params, "processId"@, true);
    let f = pick(e, params, "sessionId"@, true);
    let g = pick(f, params, "taskId"@, true);
    pick(g, params, "workspaceSessionId"@, true)
}

/// What the log says of the parameters of a request: the names of the records that it is about,
/// and of an input only its fields and its size.
pub fn safe_request_fields(action: &str, params: &Json) -> (r: Json)
    ensures
        r@ == request_fields(action@, params@),
{
    let a = picked(Json::obj(), params, "capability", true);
    let b = picked(a, params, "executionMode", true);
    let c = picked(b, params, "executorId", true);
    let d = if str_eq(action, "capability.invoke") {
        let input = params.copy_or_null("input");
        c.plus("inputSummary", input_summary(&input))
    } else {
        c
    };
    let e = picked(d, params, "processId", true);
    let f = picked(e, params, "sessionId", true);
    let g = picked(f, params, "taskId", true);
    picked(g, params, "workspaceSessionId", true)
}

/// The kind of record that an action is about.
pub open spec fn kind_view(action: Seq<char>) -> Option<Seq<char>> {
    if "driver."@.is_prefix_of(action) || "lease."@.is_prefix_of(action) {
        Some("lease"@)
    } else if "approval."@.is_prefix_of(action) {
        Some("approval"@)
    } else if "artifact."@.is_prefix_of(action) {
        Some("artifact"@)
    } else if "generation."@.is_prefix_of(action) {
        Some("generation"@)
    } else if "handoff."@.is_prefix_of(action) || "session.handoff"@.is_prefix_of(action) {
        Some("handoff"@)
    } else if "agent."@.is_prefix_of(action) {
        Some("agent"@)
    } else {
        None
    }
}

/// The kind of record that an action is about, where its requests are observed.
pub fn lifecycle_observation_kind(action: &str) -> (r: Option<&'static str>)
    ensures
        match r {
            Some(k) => kind_view(action@) == Some(k@),
            None => kind_view(action@) is None,
        },
{
    if starts_with(action, "driver.") || starts_with(action, "lease.") {
        Some("lease")
    } else if starts_with(action, "approval.") {
        Some("approval")
    } else if starts_with(action, "artifact.") {
        Some("artifact")
    } else if starts_with(action, "generation.") {
        Some("generation")
    } else if starts_with(action, "handoff.") || starts_with(action, "session.handoff") {
        Some("handoff")
    } else if starts_with(action, "agent.") {
        Some("agent")
    } else {
        None
    }
}

/// The summary of a record: its name, its state and its status.
pub open spec fn safe_summary_view(v: JsonView) -> JsonView {
    JsonView::obj().plus(
        "id"@,
        match v.get("id"@) {
            Some(x) => x,
            None => v.get_or_null("taskId"@),
        },
    ).plus("state"@, v.get_or_null("state"@)).plus("status"@, v.get_or_null("status"@))
}

/// The summary of a record: its name, its state and its status.
pub fn safe_summary(v: &Json) -> (r: Json)
    ensures
        r@ == safe_summary_view(v@),
{
    let id = match v.get("id") {
        Some(x) => x.copy(),
        None => v.copy_or_null("taskId"),
    };
    Json::obj().plus("id", id).plus("state", v.copy_or_null("state")).plus("status", v.copy_or_null("status"))
}

/// Whether an observation is of a request that a controller served.
pub open spec fn observes(
    o: Observation,
    request: Request,
    node: Seq<char>,
    kind: Seq<char>,
    ok: bool,
    now: u64,
    duration: u64,
    task: Option<Seq<char>>,
    process: Option<Seq<char>>,
    attributes: JsonView,
) -> bool {
    &&& o.event_id == 0
    &&& opt_text(o.run_id) == opt_text(request.run_id)
    &&& o.timestamp == now
    &&& o.node_id@ == node
    &&& o.role@ == "controller"@
    &&& o.kind@ == kind
    &&& o.name@ == request.action@
    &&& o.status@ == (if ok {
        "completed"@
    } else {
        "failed"@
    })
    &&& o.duration_ms == Some(duration)
    &&& opt_text(o.span_id) == opt_text(request.span_id)
    &&& opt_text(o.parent_span_id) == opt_text(request.parent_span_id)
    &&& opt_text(o.request_id) == Some(request.request_id@)
    &&& opt_text(o.task_id) == task
    &&& opt_text(o.process_id) == process
    &&& o.connection_id is None
    &&& o.attributes@ == attributes
}

/// The error of a response as an attribute.
pub open spec fn error_attribute(response: Response) -> JsonView {
    match response.error {
        Some(e) => JsonView::obj().plus("errorCode"@, JsonView::Text(e.code@)),
        None => JsonView::obj(),
    }
}

fn observation(
    request: &Request,
    node: &str,
    kind: &str,
    ok: bool,
    now: u64,
    duration: u64,
    task_id: Option<String>,
    process_id: Option<String>,
    attributes: Json,
) -> (r: Observation)
    ensures
        observes(
            r,
            *request,
            node@,
            kind@,
            ok,
            now,
            duration,
            opt_text(task_id),
            opt_text(process_id),
            attributes@,
        ),
{
    let status = if ok {
        "completed"
    } else {
        "failed"
    };
    Observation {
        event_id: 0,
        run_id: request.run_id.clone(),
        timestamp: now,
        node_id: node.to_owned(),
        role: "controller".to_owned(),
        kind: kind.to_owned(),
        name: request.action.clone(),
        status: status.to_owned(),
        duration_ms: Some(duration),
        span_id: request.span_id.clone(),
        parent_span_id: request.parent_span_id.clone(),
        request_id: Some(request.request_id.clone()),
        task_id,
        process_id,
        connection_id: None,
        attributes,
    }
}

/// What is observed of a request that was answered: the call, and for an action about a record
/// of the controller the change of that record.
pub fn request_observations(node: &str, request: &Request, response: &Response, now: u64, duration: u64) -> (r: Vec<Observation>)
    ensures
        r@.len() == (if kind_view(request.action@) is Some {
            2int
        } else {
            1
        }),
        observes(
            r@[0],
            *request,
            node@,
            "rpc"@,
            response.ok,
            now,
            duration,
            None,
            None,
            error_attribute(*response),
        ),
        kind_view(request.action@) matches Some(kind) ==> observes(
            r@[1],
            *request,
            node@,
            kind,
            response.ok,
            now,
            duration,
            lifecycle_view(request.params@).get_str("taskId"@),
            lifecycle_view(request.params@).get_str("processId"@),
            lifecycle_view(request.params@),
        ),
{
    let attributes = match &response.error {
        Some(e) => Json::obj().plus("errorCode", Json::text(e.code.as_str())),
        None => Json::obj(),
    };
    let mut r: Vec<Observation> = Vec::new();
    r.push(observation(request, node, "rpc", response.ok, now, duration, None, None, attributes));
    if let Some(kind) = lifecycle_observation_kind(request.action.as_str()) {
        let attributes = safe_lifecycle_attributes(&request.params);
        let task_id = attributes.get_text("taskId");
        let process_id = attributes.get_text("processId");
        r.push(observation(request, node, kind, response.ok, now, duration, task_id, process_id, attributes));
    }
    r
}

/// The answer to a request, from what came of it.
pub fn answer(request_id: &str, result: Result<Json, RpcError>) -> (r: Response)
    ensures
        r.request_id@ == request_id@,
        match result {
            Ok(j) => r.ok && r.error is None && (r.result matches Some(x) && x@ == j@),
            Err(e) => !r.ok && r.result is None && (r.error matches Some(x) && x@ == e@),
        },
{
    match result {
        Ok(j) => Response::success(request_id, j),
        Err(e) => Response::failure(request_id, e),
    }
}

/// What is observed of a task that changed its state.
pub fn task_observation(node: &str, run_id: Option<String>, task: &Task, now: u64) -> (r: Observation)
    ensures
        r.event_id == 0,
        r.run_id == run_id,
        r.timestamp == now,
        r.node_id@ == node@,
        r.role@ == "controller"@,
        r.kind@ == "task-state"@,
        r.name@ == task.capability@,
        r.status@ == task.state.name_view(),
        r.duration_ms is None,
        r.span_id is None,
        r.parent_span_id is None,
        opt_text(r.request_id) == opt_text(task.request_id),
        opt_text(r.task_id) == Some(task.id@),
        opt_text(r.process_id) == task.input@.get_str("processId"@),
        r.connection_id is None,
        r.attributes@ == JsonView::obj().plus("capability"@, JsonView::Text(task.capability@)).plus(
            "targetNode"@,
            JsonView::Text(task.executor_id@),
        ),
{
    Observation {
        event_id: 0,
        run_id,
        timestamp: now,
        node_id: node.to_owned(),
        role: "controller".to_owned(),
        kind: "task-state".to_owned(),
        name: task.capability.clone(),
        status: task.state.name().to_owned(),
        duration_ms: None,
        span_id: None,
        parent_span_id: None,
        request_id: task.request_id.clone(),
        task_id: Some(task.id.clone()),
        process_id: task.input.get_text("processId"),
        connection_id: None,
        attributes: Json::obj().plus("capability", Json::text(task.capability.as_str())).plus(
            "targetNode",
            Json::text(task.executor_id.as_str()),
        ),
    }
}

/// What was attempted when a transfer failed, as the details of its error.
pub open spec fn transfer_details(stage: Seq<char>, offset: u64, chunks: u64, cause: JsonView) -> JsonView {
    JsonView::obj().plus("cause"@, cause).plus("chunks"@, JsonView::Unsigned(chunks)).plus(
        "failureOffset"@,
        JsonView::Unsigned(offset),
    ).plus("retryCount"@, JsonView::Unsigned(0)).plus("stage"@, JsonView::Text(stage)).plus(
        "transferredBytes"@,
        JsonView::Unsigned(offset),
    )
}

/// The error of a transfer that failed: the error itself, with where it failed in its details.
pub fn transfer_error(error: RpcError, stage: &str, offset: u64, chunks: u64) -> (r: RpcError)
    ensures
        r@ == (RpcErrorView { details: transfer_details(stage@, offset, chunks, error@.details), ..error@ }),
{
    let details = Json::obj().plus("cause", error.details).plus("chunks", Json::Unsigned(chunks)).plus(
        "failureOffset",
        Json::Unsigned(offset),
    ).plus("retryCount", Json::Unsigned(0)).plus("stage", Json::text(stage)).plus(
        "transferredBytes",
        Json::Unsigned(offset),
    );
    RpcError { code: error.code, message: error.message, retryable: error.retryable, details }
}

/// Nothing but the attributes of the fixed list is stored of an observation.
pub proof fn stored_attributes_are_allowed(attributes: JsonView, key: Seq<char>)
    requires
        safe_attributes(attributes).get(key) is Some,
    ensures
        attribute_allowed(key),
{
    let fields = attributes->Object_0;
    let out = safe_fields(fields, fields.len() as int);
    let i = crate::evidence::lemma_lookup_at(out, key);
    lemma_safe_fields(fields, fields.len() as int, i);
}

proof fn lemma_safe_fields(fields: Seq<(Seq<char>, JsonView)>, n: int, i: int)
    requires
        0 <= i < safe_fields(fields, n).len(),
    ensures
        attribute_allowed(safe_fields(fields, n)[i].0),
    decreases n,
{
    if n > 0 && i < safe_fields(fields, n - 1).len() {
        lemma_safe_fields(fields, n - 1, i);
    }
}

/// What is kept of an attribute is short and flat.
pub proof fn kept_attributes_are_small(v: JsonView)
    ensures
        safe_value(v) matches JsonView::Text(s) ==> s.len() <= 500,
        !(safe_value(v) is Object) && !(safe_value(v) is Array),
        v matches JsonView::Text(s) ==> (safe_value(v) matches JsonView::Text(t) && t.is_prefix_of(s) && (s.len() <= 500
            ==> t == s)),
        v is Null || v is Bool || v is Unsigned || v is Negative || v is Decimal ==> safe_value(v) == v,
{
    if let JsonView::Text(s) = v {
        if s.len() <= 500 {
            assert(first_chars(s, 500) =~= s);
        }
    }
}

/// An attribute that may be kept is kept, under its name and in its safe form.
pub proof fn allowed_attributes_are_kept(fields: Seq<(Seq<char>, JsonView)>, n: int, i: int)
    requires
        0 <= i < n <= fields.len(),
    ensures
        attribute_allowed(fields[i].0) ==> safe_fields(fields, n).contains((fields[i].0, safe_value(fields[i].1))),
        safe_fields(fields, n).len() <= n,
    decreases n,
{
    let before = safe_fields(fields, n - 1);
    let after = safe_fields(fields, n);
    if n > 1 {
        allowed_attributes_are_kept(fields, n - 1, if i < n - 1 {
            i
        } else {
            0
        });
    }
    if attribute_allowed(fields[n - 1].0) {
        let last = (fields[n - 1].0, safe_value(fields[n - 1].1));
        assert(after == before.push(last));
        assert(after[before.len() as int] == last);
    }
    if i < n - 1 && attribute_allowed(fields[i].0) {
        let item = (fields[i].0, safe_value(fields[i].1));
        let x = choose|x: int| 0 <= x < before.len() && before[x] == item;
        assert(after[x] == item);
    }
}

/// What is observed of a request is told by the beginning of its name.
pub proof fn kind_is_told_by_the_name(action: Seq<char>)
    ensures
        "lease."@.is_prefix_of(action) ==> kind_view(action) == Some("lease"@),
        "driver."@.is_prefix_of(action) ==> kind_view(action) == Some("lease"@),
        kind_view(action) == Some("approval"@) ==> "approval."@.is_prefix_of(action),
        kind_view(action) == Some("artifact"@) ==> "artifact."@.is_prefix_of(action),
        kind_view(action) == Some("generation"@) ==> "generation."@.is_prefix_of(action),
        kind_view(action) == Some("agent"@) ==> "agent."@.is_prefix_of(action),
        kind_view(action) is None ==> !"lease."@.is_prefix_of(action) && !"driver."@.is_prefix_of(action)
            && !"approval."@.is_prefix_of(action) && !"artifact."@.is_prefix_of(action) && !"generation."@.is_prefix_of(action)
            && !"handoff."@.is_prefix_of(action) && !"session.handoff"@.is_prefix_of(action) && !"agent."@.is_prefix_of(action),
{
    reveal_strlit("lease");
    reveal_strlit("approval");
    reveal_strlit("artifact");
    reveal_strlit("generation");
    reveal_strlit("handoff");
    reveal_strlit("agent");
    assert("lease"@.len() == 5 && "approval"@.len() == 8 && "artifact"@.len() == 8 && "generation"@.len() == 10
        && "handoff"@.len() == 7 && "agent"@.len() == 5);
    assert("lease"@[0] == 'l' && "agent"@[0] == 'a');
    assert("approval"@[1] == 'p' && "artifact"@[1] == 'r');
}

} // verus!
