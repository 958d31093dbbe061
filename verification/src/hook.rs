//! What an agent's hook tells the controller, and what it remembers between two calls.

use crate::json::{json_or_null, json_views, lemma_with, text_or_null, u64_or_null, Json, JsonView};
use crate::paths::{file_name, file_name_view};
use crate::task::opt_text;
use crate::text::{
    concat2, contains, find_char, find_from, has_text, lemma_find_char, lemma_find_from, parse_u64, parse_u64_view, replace, replace_view, split, split_view, str_eq,
    views,
};
use vstd::prelude::*;

verus! {

/// A step of a pointer into a document, without its escapes.
pub open spec fn unescaped(token: Seq<char>) -> Seq<char> {
    replace_view(replace_view(token, "~1"@, "/"@), "~0"@, "~"@)
}

/// The position in a list that a step of a pointer names.
pub open spec fn index_of_token(token: Seq<char>) -> Option<u64> {
    if token.len() > 0 && (token[0] == '+' || (token[0] == '0' && token.len() != 1)) {
        None
    } else {
        parse_u64_view(token)
    }
}

/// What a step leads to from a document.
pub open spec fn step(j: JsonView, token: Seq<char>) -> Option<JsonView> {
    match j {
        JsonView::Object(_) => j.get(token),
        JsonView::Array(items) => match index_of_token(token) {
            Some(i) => if i < items.len() {
                Some(items[i as int])
            } else {
                None
            },
            None => None,
        },
        _ => None,
    }
}

/// What the steps from a position on lead to from a document.
pub open spec fn follow(j: JsonView, tokens: Seq<Seq<char>>, from: int) -> Option<JsonView>
    decreases tokens.len() - from,
{
    if from < 0 || from >= tokens.len() {
        Some(j)
    } else {
        match step(j, unescaped(tokens[from])) {
            Some(v) => follow(v, tokens, from + 1),
            None => None,
        }
    }
}

/// What a pointer that is written behind a slash leads to from a document.
pub open spec fn pointed(j: JsonView, path: Seq<char>) -> Option<JsonView> {
    follow(j, split_view(path, '/'), 0)
}

fn unescape(token: &str) -> (r: String)
    ensures
        r@ == unescaped(token@),
{
    proof {
        reveal_strlit("~1");
        reveal_strlit("~0");
    }
    let a = replace(token, "~1", "/");
    replace(a.as_str(), "~0", "~")
}

fn take_step<'a>(j: &'a Json, token: &str) -> (r: Option<&'a Json>)
    ensures
        (match r {
            Some(v) => Some(v@),
            None => None,
        }) == step(j@, token@),
{
    if let Some(items) = j.as_array() {
        proof {
            assert(json_views(items@).len() == items@.len());
        }
        let n = token.unicode_len();
        if n > 0 && (token.get_char(0) == '+' || (token.get_char(0) == '0' && n != 1)) {
            return None;
        }
        return match parse_u64(token) {
            Some(i) => {
                if i < items.len() as u64 {
                    assert(json_views(items@)[i as int] == items@[i as int]@);
                    Some(&items[i as usize])
                } else {
                    None
                }
            },
            None => None,
        };
    }
    j.get(token)
}

/// What a pointer that is written behind a slash leads to from a document: each part of it is the
/// name of a field or a position in a list.
pub fn pointer<'a>(j: &'a Json, path: &str) -> (r: Option<&'a Json>)
    ensures
        (match r {
            Some(v) => Some(v@),
            None => None,
        }) == pointed(j@, path@),
{
    let tokens = split(path, '/');
    let ghost all = views(tokens@);
    let mut at = j;
    let mut i: usize = 0;
    while i < tokens.len()
        invariant
            i <= tokens@.len(),
            all == views(tokens@),
            all == split_view(path@, '/'),
            pointed(j@, path@) == follow(at@, all, i as int),
        decreases tokens@.len() - i,
    {
        assert(all[i as int] == tokens@[i as int]@);
        let token = unescape(tokens[i].as_str());
        match take_step(at, token.as_str()) {
            Some(v) => {
                at = v;
            },
            None => return None,
        }
        i += 1;
    }
    Some(at)
}

/// The field of a name, or else that of another.
pub open spec fn either(j: JsonView, a: Seq<char>, b: Seq<char>) -> Option<Seq<char>> {
    match j.get(a) {
        Some(v) => v.as_str(),
        None => j.get_str(b),
    }
}

fn either_text<'a>(j: &'a Json, a: &str, b: &str) -> (r: Option<&'a str>)
    ensures
        (match r {
            Some(s) => Some(s@),
            None => None,
        }) == either(j@, a@, b@),
{
    match j.get(a) {
        Some(v) => v.as_str(),
        None => j.get_str(b),
    }
}

/// What a hook was called for.
pub open spec fn event_view(input: JsonView) -> Seq<char> {
    match either(input, "hook_event_name"@, "event"@) {
        Some(e) => e,
        None => "ToolEvent"@,
    }
}

/// What a hook was called for.
pub fn event_of(input: &Json) -> (r: String)
    ensures
        r@ == event_view(input@),
{
    match either_text(input, "hook_event_name", "event") {
        Some(e) => e.to_owned(),
        None => "ToolEvent".to_owned(),
    }
}

/// The run that a hook's input names.
pub open spec fn explicit_run(input: JsonView) -> Option<Seq<char>> {
    either(input, "runId"@, "run_id"@)
}

/// The agent's session that a hook's input names.
pub open spec fn session_view(input: JsonView) -> Option<Seq<char>> {
    either(input, "session_id"@, "agentSessionId"@)
}

/// The agent's session that a hook's input names.
pub fn session_of(input: &Json) -> (r: Option<String>)
    ensures
        opt_text(r) == session_view(input@),
{
    match either_text(input, "session_id", "agentSessionId") {
        Some(s) => Some(s.to_owned()),
        None => None,
    }
}

/// The run that a hook tells of: the one its input names, or else the one that it remembers.
pub open spec fn run_view(input: JsonView, stored: JsonView) -> Option<Seq<char>> {
    match explicit_run(input) {
        Some(r) => Some(r),
        None => stored.get_str("runId"@),
    }
}

fn run_of<'a>(input: &'a Json, stored: &'a Json) -> (r: Option<&'a str>)
    ensures
        (match r {
            Some(s) => Some(s@),
            None => None,
        }) == run_view(input@, stored@),
{
    match either_text(input, "runId", "run_id") {
        Some(r) => Some(r),
        None => stored.get_str("runId"),
    }
}

/// How long the use of a tool took, where the hook remembers when it began.
pub open spec fn duration_view(input: JsonView, stored: JsonView, event: Seq<char>, now: u64) -> Option<u64> {
    if event != "PostToolUse"@ {
        None
    } else {
        match input.get_str("tool_use_id"@) {
            Some(id) => match pointed(stored, "tools/"@ + id) {
                Some(JsonView::Unsigned(started)) => Some(
                    if now >= started {
                        (now - started) as u64
                    } else {
                        0
                    },
                ),
                _ => None,
            },
            None => None,
        }
    }
}

/// How long the use of a tool took, where the hook remembers when it began.
pub fn hook_duration_ms(input: &Json, stored: &Json, event: &str, now: u64) -> (r: Option<u64>)
    ensures
        r == duration_view(input@, stored@, event@, now),
{
    if !str_eq(event, "PostToolUse") {
        return None;
    }
    let id = match input.get_str("tool_use_id") {
        Some(s) => s,
        None => return None,
    };
    match pointer(stored, concat2("tools/", id).as_str()) {
        Some(v) => match v.as_u64() {
            Some(started) => Some(now.saturating_sub(started)),
            None => None,
        },
        None => None,
    }
}

/// A text field, or a default.
pub open spec fn text_field_or(j: JsonView, key: Seq<char>, default: Seq<char>) -> Seq<char> {
    match j.get_str(key) {
        Some(s) => s,
        None => default,
    }
}

/// The repository that a hook was called in: the last name of the directory.
pub open spec fn repo_view(input: JsonView) -> Option<Seq<char>> {
    match input.get_str("cwd"@) {
        Some(cwd) => file_name_view(cwd),
        None => None,
    }
}

/// What a hook tells the controller, where `stored` is what it remembers (null where it remembers
/// nothing).
pub open spec fn hook_view(input: JsonView, stored: JsonView, node: Seq<char>, now: u64) -> (Seq<char>, JsonView) {
    let event = event_view(input);
    let run = run_view(input, stored);
    if event == "UserPromptSubmit"@ {
        (
            "run.start"@,
            JsonView::obj().plus("agentSessionId"@, text_or_null(session_view(input))).plus(
                "createdBy"@,
                JsonView::Text("codex-hook"@),
            ).plus("runId"@, text_or_null(explicit_run(input))).plus(
                "targetSummary"@,
                JsonView::Text("Codex agent task"@),
            ),
        )
    } else if (event == "Stop"@ || event == "SessionEnd"@) && run is Some {
        (
            "run.finish"@,
            JsonView::obj().plus("runId"@, JsonView::Text(run->0)).plus(
                "status"@,
                JsonView::Text(
                    if event == "Stop"@ {
                        "completed"@
                    } else {
                        "interrupted"@
                    },
                ),
            ),
        )
    } else {
        (
            "observation.append"@,
            JsonView::obj().plus(
                "attributes"@,
                JsonView::obj().plus(
                    "action"@,
                    JsonView::Text(text_field_or(input, "tool_name"@, "lifecycle"@)),
                ).plus("targetRepo"@, text_or_null(repo_view(input))),
            ).plus("durationMs"@, u64_or_null(duration_view(input, stored, event, now))).plus(
                "eventId"@,
                JsonView::Unsigned(0),
            ).plus(
                "kind"@,
                JsonView::Text(
                    if has_text(event, "ToolUse"@) {
                        "agent-tool"@
                    } else {
                        "agent-hook"@
                    },
                ),
            ).plus("name"@, JsonView::Text(event)).plus("nodeId"@, JsonView::Text(node)).plus(
                "parentSpanId"@,
                input.get_or_null("turn_id"@),
            ).plus("role"@, JsonView::Text("agent"@)).plus("runId"@, text_or_null(run)).plus(
                "spanId"@,
                input.get_or_null("tool_use_id"@),
            ).plus(
                "status"@,
                JsonView::Text(
                    if event == "PreToolUse"@ {
                        "running"@
                    } else {
                        "completed"@
                    },
                ),
            ).plus("timestamp"@, JsonView::Unsigned(now)),
        )
    }
}

fn text_json(s: Option<&str>) -> (r: Json)
    ensures
        r@ == text_or_null(
            match s {
                Some(t) => Some(t@),
                None => None,
            },
        ),
{
    match s {
        Some(t) => Json::text(t),
        None => Json::Null,
    }
}

/// What a hook tells the controller: that a run begins, that it ends, or what the agent does in it.
/// `stored` is what it remembers, null where it remembers nothing.
pub fn hook_request(input: &Json, stored: &Json, node: &str, now: u64) -> (r: (String, Json))
    ensures
        (r.0@, r.1@) == hook_view(input@, stored@, node@, now),
{
    let event = event_of(input);
    let e = event.as_str();
    let run = run_of(input, stored);
    if str_eq(e, "UserPromptSubmit") {
        let session = session_of(input);
        return (
            "run.start".to_owned(),
            Json::obj().plus("agentSessionId", Json::opt_text(&session)).plus(
                "createdBy",
                Json::text("codex-hook"),
            ).plus("runId", text_json(either_text(input, "runId", "run_id"))).plus(
                "targetSummary",
                Json::text("Codex agent task"),
            ),
        );
    }
    if str_eq(e, "Stop") || str_eq(e, "SessionEnd") {
        if let Some(id) = run {
            let status = if str_eq(e, "Stop") {
                "completed"
            } else {
                "interrupted"
            };
            return (
                "run.finish".to_owned(),
                Json::obj().plus("runId", Json::text(id)).plus("status", Json::text(status)),
            );
        }
    }
    let action = match input.get_str("tool_name") {
        Some(s) => s,
        None => "lifecycle",
    };
    let repo = match input.get_str("cwd") {
        Some(cwd) => file_name(cwd),
        None => None,
    };
    let kind = if contains(e, "ToolUse") {
        "agent-tool"
    } else {
        "agent-hook"
    };
    let status = if str_eq(e, "PreToolUse") {
        "running"
    } else {
        "completed"
    };
    let attributes = Json::obj().plus("action", Json::text(action)).plus("targetRepo", Json::opt_text(&repo));
    (
        "observation.append".to_owned(),
        Json::obj().plus("attributes", attributes).plus(
            "durationMs",
            Json::opt_u64(hook_duration_ms(input, stored, e, now)),
        ).plus("eventId", Json::Unsigned(0)).plus("kind", Json::text(kind)).plus("name", Json::text(e)).plus(
            "nodeId",
            Json::text(node),
        ).plus("parentSpanId", input.copy_or_null("turn_id")).plus("role", Json::text("agent")).plus(
            "runId",
            text_json(run),
        ).plus("spanId", input.copy_or_null("tool_use_id")).plus("status", Json::text(status)).plus(
            "timestamp",
            Json::Unsigned(now),
        ),
    )
}

/// What becomes of what a hook remembers.
#[derive(Debug)]
pub enum Memory {
    Keep,
    Write(Json),
    Forget,
}

/// What becomes of what a hook remembers.
pub enum MemoryView {
    Keep,
    Write(JsonView),
    Forget,
}

impl View for Memory {
    type V = MemoryView;

    open spec fn view(&self) -> MemoryView {
        match self {
            Memory::Keep => MemoryView::Keep,
            Memory::Write(j) => MemoryView::Write(j@),
            Memory::Forget => MemoryView::Forget,
        }
    }
}

/// What a hook remembers before it notes a tool: what it stored, or else the run.
pub open spec fn remembered(input: JsonView, stored: Option<JsonView>) -> JsonView {
    match stored {
        Some(s) => s,
        None => JsonView::obj().plus("runId"@, text_or_null(run_view(input, JsonView::Null))),
    }
}

/// Whether the start of a tool can be noted in what a hook remembers.
pub open spec fn notable(j: JsonView) -> bool {
    j.settable() && j.get_or_null("tools"@).settable()
}

/// What becomes of what a hook remembers once the controller has answered that all is well with
/// `result`.
pub open spec fn memory_view(input: JsonView, stored: Option<JsonView>, result: Option<JsonView>, now: u64) -> MemoryView {
    let event = event_view(input);
    if event == "UserPromptSubmit"@ {
        match json_or_null(result).get_str("runId"@) {
            Some(id) => MemoryView::Write(
                JsonView::obj().plus("runId"@, JsonView::Text(id)).plus("startedAt"@, JsonView::Unsigned(now)),
            ),
            None => MemoryView::Keep,
        }
    } else if event == "PreToolUse"@ {
        let value = remembered(input, stored);
        match input.get_str("tool_use_id"@) {
            Some(id) => MemoryView::Write(
                value.with("tools"@, value.get_or_null("tools"@).with(id, JsonView::Unsigned(now))),
            ),
            None => MemoryView::Write(value),
        }
    } else if event == "Stop"@ || event == "SessionEnd"@ {
        MemoryView::Forget
    } else {
        MemoryView::Keep
    }
}

fn remember(input: &Json, stored: &Option<Json>) -> (r: Json)
    ensures
        r@ == remembered(input@, crate::json::opt_json(*stored)),
{
    match stored {
        Some(s) => s.copy(),
        None => {
            let none = Json::Null;
            Json::obj().plus("runId", text_json(run_of(input, &none)))
        },
    }
}

fn settable(j: &Json) -> (r: bool)
    ensures
        r == j@.settable(),
{
    match j {
        Json::Object(_) => true,
        Json::Null => true,
        _ => false,
    }
}

/// Whether the start of a tool can be noted in what a hook remembers.
pub fn can_note_tool(input: &Json, stored: &Option<Json>) -> (r: bool)
    ensures
        r == notable(remembered(input@, crate::json::opt_json(*stored))),
{
    let value = remember(input, stored);
    settable(&value) && settable(&value.copy_or_null("tools"))
}

/// Decides what becomes of what a hook remembers once the controller has answered that all is well:
/// the run that began, when each tool began, and nothing once the run is over.
pub fn hook_memory(input: &Json, stored: &Option<Json>, result: &Option<Json>, now: u64) -> (r: Memory)
    requires
        event_view(input@) == "PreToolUse"@ && input@.get_str("tool_use_id"@) is Some ==> notable(
            remembered(input@, crate::json::opt_json(*stored)),
        ),
    ensures
        r@ == memory_view(input@, crate::json::opt_json(*stored), crate::json::opt_json(*result), now),
{
    let event = event_of(input);
    let e = event.as_str();
    if str_eq(e, "UserPromptSubmit") {
        if let Some(j) = result {
            if let Some(id) = j.get_str("runId") {
                return Memory::Write(
                    Json::obj().plus("runId", Json::text(id)).plus("startedAt", Json::Unsigned(now)),
                );
            }
        }
        return Memory::Keep;
    }
    if str_eq(e, "PreToolUse") {
        let mut value = remember(input, stored);
        if let Some(id) = input.get_str("tool_use_id") {
            let mut tools = value.copy_or_null("tools");
            tools.set(id, Json::Unsigned(now));
            value.set("tools", tools);
        }
        return Memory::Write(value);
    }
    if str_eq(e, "Stop") || str_eq(e, "SessionEnd") {
        return Memory::Forget;
    }
    Memory::Keep
}

/// Whether a name is one step of a pointer as it stands: it holds neither a slash nor a tilde.
pub open spec fn plain_step(id: Seq<char>) -> bool {
    forall|i: int| 0 <= i < id.len() ==> #[trigger] id[i] != '/' && id[i] != '~'
}

proof fn lemma_split_plain(s: Seq<char>)
    requires
        plain_step(s),
    ensures
        split_view(s, '/') == seq![s],
{
    lemma_find_char(s, '/', 0);
}

proof fn lemma_unescape_plain(s: Seq<char>)
    requires
        plain_step(s),
    ensures
        unescaped(s) == s,
{
    reveal_strlit("~1");
    reveal_strlit("~0");
    lemma_find_from(s, "~1"@, 0);
    if let Some(i) = find_from(s, "~1"@, 0) {
        assert(s.subrange(i, i + 2)[0] == s[i]);
    }
    lemma_find_from(s, "~0"@, 0);
    if let Some(i) = find_from(s, "~0"@, 0) {
        assert(s.subrange(i, i + 2)[0] == s[i]);
    }
}

/// What a hook noted of the start of a tool it finds again when the tool has ended: the time that
/// the tool took is that between the two calls.
pub proof fn tool_use_is_timed(
    before: JsonView,
    stored: Option<JsonView>,
    result: Option<JsonView>,
    began: u64,
    after: JsonView,
    now: u64,
    id: Seq<char>,
)
    requires
        event_view(before) == "PreToolUse"@,
        before.get_str("tool_use_id"@) == Some(id),
        after.get_str("tool_use_id"@) == Some(id),
        notable(remembered(before, stored)),
        plain_step(id),
        began <= now,
    ensures
        memory_view(before, stored, result, began) is Write,
        duration_view(
            after,
            memory_view(before, stored, result, began)->Write_0,
            "PostToolUse"@,
            now,
        ) == Some((now - began) as u64),
{
    reveal_strlit("UserPromptSubmit");
    reveal_strlit("PreToolUse");
    reveal_strlit("tools/");
    reveal_strlit("tools");
    assert("UserPromptSubmit"@.len() != "PreToolUse"@.len());
    let value = remembered(before, stored);
    let tools = value.get_or_null("tools"@);
    let noted = tools.with(id, JsonView::Unsigned(began));
    let kept = value.with("tools"@, noted);
    lemma_with(tools, id, JsonView::Unsigned(began), id);
    lemma_with(value, "tools"@, noted, "tools"@);
    let path = "tools/"@ + id;
    lemma_find_char(path, '/', 0);
    assert(path[5] == '/');
    assert(find_char(path, '/', 0) == Some(5int));
    assert(path.take(5) =~= "tools"@);
    assert(path.skip(6) =~= id);
    lemma_split_plain(id);
    let tokens = split_view(path, '/');
    assert(tokens =~= seq!["tools"@, id]);
    assert(plain_step("tools"@));
    lemma_unescape_plain("tools"@);
    lemma_unescape_plain(id);
    reveal_with_fuel(follow, 3);
    assert(pointed(kept, path) == Some(JsonView::Unsigned(began)));
}

/// What a hook of an agent comes to: a prompt begins a run, the end of the agent ends the run that
/// is known, as completed or as interrupted, and anything else is noted as it happened.
pub proof fn hook_follows_the_agent(input: JsonView, stored: JsonView, node: Seq<char>, now: u64)
    ensures
        event_view(input) == "UserPromptSubmit"@ ==> hook_view(input, stored, node, now).0 == "run.start"@,
        event_view(input) == "Stop"@ && run_view(input, stored) is Some ==> hook_view(input, stored, node, now) == (
            "run.finish"@,
            JsonView::obj().plus("runId"@, JsonView::Text(run_view(input, stored)->0)).plus(
                "status"@,
                JsonView::Text("completed"@),
            ),
        ),
        event_view(input) == "SessionEnd"@ && run_view(input, stored) is Some ==> hook_view(input, stored, node, now) == (
            "run.finish"@,
            JsonView::obj().plus("runId"@, JsonView::Text(run_view(input, stored)->0)).plus(
                "status"@,
                JsonView::Text("interrupted"@),
            ),
        ),
        event_view(input) != "UserPromptSubmit"@ && (run_view(input, stored) is None || (event_view(input) != "Stop"@
            && event_view(input) != "SessionEnd"@)) ==> hook_view(input, stored, node, now).0 == "observation.append"@,
{
    reveal_strlit("UserPromptSubmit");
    reveal_strlit("Stop");
    reveal_strlit("SessionEnd");
    assert("UserPromptSubmit"@.len() == 16 && "Stop"@.len() == 4 && "SessionEnd"@.len() == 10);
}

/// A run that a request names goes before one that is remembered, and what is remembered goes with
/// the end of the agent.
pub proof fn memory_ends_with_the_agent(input: JsonView, stored: Option<JsonView>, result: Option<JsonView>, now: u64)
    ensures
        event_view(input) == "Stop"@ || event_view(input) == "SessionEnd"@ ==> memory_view(input, stored, result, now)
            is Forget,
        event_view(input) == "UserPromptSubmit"@ && (result matches Some(j) && j.get_str("runId"@) is Some) ==> (
        memory_view(input, stored, result, now) matches MemoryView::Write(kept) && kept == JsonView::obj().plus(
            "runId"@,
            JsonView::Text(result->0.get_str("runId"@)->0),
        ).plus("startedAt"@, JsonView::Unsigned(now))),
        event_view(input) == "PostToolUse"@ ==> memory_view(input, stored, result, now) is Keep,
        explicit_run(input) matches Some(r) ==> run_view(input, stored_or_null(stored)) == Some(r),
        explicit_run(input) is None ==> run_view(input, stored_or_null(stored)) == stored_or_null(stored).get_str("runId"@),
{
    reveal_strlit("UserPromptSubmit");
    reveal_strlit("PreToolUse");
    reveal_strlit("PostToolUse");
    reveal_strlit("Stop");
    reveal_strlit("SessionEnd");
    assert("UserPromptSubmit"@.len() == 16 && "Stop"@.len() == 4 && "SessionEnd"@.len() == 10);
    assert("PreToolUse"@.len() == 10 && "PostToolUse"@.len() == 11);
    assert("PreToolUse"@[0] != "SessionEnd"@[0]);
}

/// What is remembered of a session, or nothing.
pub open spec fn stored_or_null(stored: Option<JsonView>) -> JsonView {
    match stored {
        Some(j) => j,
        None => JsonView::Null,
    }
}

} // verus!
