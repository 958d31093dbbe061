//! Talking to a browser through its debugging port: which page is meant, what may be asked of it,
//! and what its answers say.

use crate::codec::{base64_decode, base64_parse, decode, encode, json_parse, json_text};
use crate::dashboard::{find_header_end, header_end};
use crate::json::{json_views, Json, JsonView};
use crate::rpc::{fails, rpc_error, RpcError, RpcErrorView};
use crate::text::{
    concat2, concat3, concat5, decimal, find, find_from, lemma_find_from, parse_u64, parse_u64_view, split, split_once, split_once_view, split_view,
    starts_with, str_eq, u64_text, views,
};
use vstd::prelude::*;

verus! {

/// The number of a field in the first of some parts that gives one, from a position.
pub open spec fn number_from(parts: Seq<Seq<char>>, name: Seq<char>, from: int) -> Option<u64>
    decreases parts.len() - from,
{
    if from < 0 || from >= parts.len() {
        None
    } else {
        match split_once_view(parts[from], '=') {
            Some(p) => if p.0 == name && parse_u64_view(p.1) is Some {
                parse_u64_view(p.1)
            } else {
                number_from(parts, name, from + 1)
            },
            None => number_from(parts, name, from + 1),
        }
    }
}

/// When a page was opened, where its address says so.
pub open spec fn opened_at(url: Seq<char>) -> Option<u64> {
    match split_once_view(url, '?') {
        Some(p) => number_from(split_view(p.1, '&'), "openReceivedAt"@, 0),
        None => None,
    }
}

/// When a page was opened, where its address says so.
pub fn open_received_at(url: &str) -> (r: Option<u64>)
    ensures
        r == opened_at(url@),
{
    let query = match split_once(url, '?') {
        Some(p) => p.1,
        None => return None,
    };
    let parts = split(query.as_str(), '&');
    let ghost all = views(parts@);
    let name = "openReceivedAt";
    let mut i: usize = 0;
    while i < parts.len()
        invariant
            i <= parts@.len(),
            all == views(parts@),
            name@ == "openReceivedAt"@,
            number_from(all, name@, 0) == number_from(all, name@, i as int),
            opened_at(url@) == number_from(all, name@, 0),
        decreases parts@.len() - i,
    {
        assert(all[i as int] == parts@[i as int]@);
        if let Some(p) = split_once(parts[i].as_str(), '=') {
            if str_eq(p.0.as_str(), name) {
                if let Some(n) = parse_u64(p.1.as_str()) {
                    return Some(n);
                }
            }
        }
        i += 1;
    }
    None
}

/// Whether a target is a page whose address begins with a text, where one is asked for.
pub open spec fn is_page(item: JsonView, prefix: Option<Seq<char>>) -> bool {
    item.get_str("type"@) == Some("page"@) && (prefix matches Some(p) ==> (item.get_str("url"@) matches Some(u)
        && p.is_prefix_of(u)))
}

/// When a page was opened, or zero.
pub open spec fn page_time(item: JsonView) -> u64 {
    match item.get_str("url"@) {
        Some(u) => match opened_at(u) {
            Some(n) => n,
            None => 0,
        },
        None => 0,
    }
}

/// The last of the pages among the first `n` targets that were opened latest.
pub open spec fn best_page(items: Seq<JsonView>, prefix: Option<Seq<char>>, n: int) -> Option<int>
    decreases n,
{
    if n <= 0 {
        None
    } else {
        let before = best_page(items, prefix, n - 1);
        if is_page(items[n - 1], prefix) && (before matches Some(k) ==> page_time(items[k]) <= page_time(items[n - 1])) {
            Some(n - 1)
        } else {
            before
        }
    }
}

/// The page that is meant: of the pages whose address begins with a text the one that was opened
/// last, by its address; of several the last.
pub proof fn best_page_is_the_latest(items: Seq<JsonView>, prefix: Option<Seq<char>>, n: int)
    requires
        0 <= n <= items.len(),
    ensures
        best_page(items, prefix, n) matches Some(k) ==> 0 <= k < n && is_page(items[k], prefix),
        forall|i: int|
            0 <= i < n && is_page(#[trigger] items[i], prefix) ==> best_page(items, prefix, n) is Some && page_time(
                items[i],
            ) <= page_time(items[best_page(items, prefix, n)->0]),
    decreases n,
{
    if n > 0 {
        best_page_is_the_latest(items, prefix, n - 1);
    }
}

fn page_matches(item: &Json, prefix: Option<&str>) -> (r: bool)
    ensures
        r == is_page(
            item@,
            match prefix {
                Some(p) => Some(p@),
                None => None,
            },
        ),
{
    let page = match item.get_str("type") {
        Some(t) => str_eq(t, "page"),
        None => false,
    };
    if !page {
        return false;
    }
    match prefix {
        Some(p) => match item.get_str("url") {
            Some(u) => starts_with(u, p),
            None => false,
        },
        None => true,
    }
}

fn time_of(item: &Json) -> (r: u64)
    ensures
        r == page_time(item@),
{
    match item.get_str("url") {
        Some(u) => match open_received_at(u) {
            Some(n) => n,
            None => 0,
        },
        None => 0,
    }
}

/// The page that a document of targets has for a request, and where its debugger is.
pub open spec fn page_of(pages: JsonView, prefix: Option<Seq<char>>) -> Result<(int, Seq<char>), RpcErrorView> {
    let items = match pages.as_array() {
        Some(a) => a,
        None => Seq::empty(),
    };
    match best_page(items, prefix, items.len() as int) {
        Some(k) => match items[k].get_str("webSocketDebuggerUrl"@) {
            Some(u) => Ok((k, u)),
            None => Err(rpc_error("CDP_TARGET_INVALID"@, "target has no debugger URL"@)),
        },
        None => Err(rpc_error("CDP_TARGET_NOT_FOUND"@, "matching page target not found"@)),
    }
}

/// The page that is meant by a request, and where its debugger is: of the pages whose address begins
/// with a text, the one that was opened last.
pub fn select_page(pages: &Json, prefix: Option<&str>) -> (r: Result<(Json, String), RpcError>)
    ensures
        match page_of(
            pages@,
            match prefix {
                Some(p) => Some(p@),
                None => None,
            },
        ) {
            Ok((k, url)) => r matches Ok(p) && p.0@ == pages@->Array_0[k] && p.1@ == url,
            Err(e) => fails(r, e),
        },
{
    let items = match pages.as_array() {
        Some(a) => a,
        None => return Err(RpcError::new("CDP_TARGET_NOT_FOUND", "matching page target not found")),
    };
    let ghost all = json_views(items@);
    let ghost wanted = match prefix {
        Some(p) => Some(p@),
        None => None,
    };
    let mut best: Option<usize> = None;
    let mut i: usize = 0;
    while i < items.len()
        invariant
            i <= items@.len(),
            all == json_views(items@),
            pages@.as_array() == Some(all),
            wanted == (match prefix {
                Some(p) => Some(p@),
                None => None,
            }),
            match best {
                Some(k) => k < i && best_page(all, wanted, i as int) == Some(k as int),
                None => best_page(all, wanted, i as int) is None,
            },
        decreases items@.len() - i,
    {
        assert(all[i as int] == items@[i as int]@);
        if page_matches(&items[i], prefix) {
            let later = match best {
                Some(k) => {
                    assert(all[k as int] == items@[k as int]@);
                    time_of(&items[k]) <= time_of(&items[i])
                },
                None => true,
            };
            if later {
                best = Some(i);
            }
        }
        i += 1;
    }
    match best {
        Some(k) => {
            assert(all[k as int] == items@[k as int]@);
            match items[k].get_text("webSocketDebuggerUrl") {
                Some(u) => Ok((items[k].copy(), u)),
                None => Err(RpcError::new("CDP_TARGET_INVALID", "target has no debugger URL")),
            }
        },
        None => Err(RpcError::new("CDP_TARGET_NOT_FOUND", "matching page target not found")),
    }
}

/// The first of some targets that is a page whose address begins with a text, from a position.
pub open spec fn first_page(items: Seq<JsonView>, prefix: Option<Seq<char>>, from: int) -> Option<int>
    decreases items.len() - from,
{
    if from < 0 || from >= items.len() {
        None
    } else if is_page(items[from], prefix) {
        Some(from)
    } else {
        first_page(items, prefix, from + 1)
    }
}

/// A text with the first occurrence of another replaced.
pub open spec fn replace_first_view(s: Seq<char>, from: Seq<char>, to: Seq<char>) -> Seq<char> {
    match find_from(s, from, 0) {
        Some(i) => s.take(i) + to + s.skip(i + from.len() as int),
        None => s,
    }
}

/// A text with the first occurrence of another replaced.
pub fn replace_first(s: &str, from: &str, to: &str) -> (r: String)
    ensures
        r@ == replace_first_view(s@, from@, to@),
{
    proof {
        lemma_find_from(s@, from@, 0);
    }
    match find(s, from) {
        Some(i) => {
            let n = s.unicode_len();
            let m = from.unicode_len();
            let head = s.substring_char(0, i);
            let tail = s.substring_char(i + m, n);
            proof {
                assert(head@ =~= s@.take(i as int));
                assert(tail@ =~= s@.skip(i + m));
            }
            concat3(head, to, tail)
        },
        None => s.to_owned(),
    }
}

/// Where a debugger is reached: over the loopback address of IPv4, by whatever name it calls it.
pub open spec fn loopback_url(url: Seq<char>) -> Seq<char> {
    replace_first_view(
        replace_first_view(url, "ws://localhost:"@, "ws://127.0.0.1:"@),
        "ws://[::1]:"@,
        "ws://127.0.0.1:"@,
    )
}

/// The first page that is meant by a request, and where its debugger is reached. A debugger that
/// listens on the loopback address of IPv4 alone may call it by another name.
pub fn select_first_page(pages: &Json, prefix: Option<&str>) -> (r: Result<(Json, String), RpcError>)
    ensures
        ({
            let wanted = match prefix {
                Some(p) => Some(p@),
                None => None,
            };
            let items = match pages@.as_array() {
                Some(a) => a,
                None => Seq::empty(),
            };
            match first_page(items, wanted, 0) {
                Some(k) => match items[k].get_str("webSocketDebuggerUrl"@) {
                    Some(u) => r matches Ok(p) && p.0@ == items[k] && p.1@ == loopback_url(u),
                    None => fails(r, rpc_error("CDP_TARGET_INVALID"@, "target has no debugger URL"@)),
                },
                None => fails(r, rpc_error("CDP_TARGET_NOT_FOUND"@, "matching page target not found"@)),
            }
        }),
{
    let items = match pages.as_array() {
        Some(a) => a,
        None => return Err(RpcError::new("CDP_TARGET_NOT_FOUND", "matching page target not found")),
    };
    let ghost all = json_views(items@);
    let ghost wanted = match prefix {
        Some(p) => Some(p@),
        None => None,
    };
    let mut i: usize = 0;
    while i < items.len()
        invariant
            i <= items@.len(),
            all == json_views(items@),
            pages@.as_array() == Some(all),
            wanted == (match prefix {
                Some(p) => Some(p@),
                None => None,
            }),
            first_page(all, wanted, 0) == first_page(all, wanted, i as int),
        decreases items@.len() - i,
    {
        assert(all[i as int] == items@[i as int]@);
        if page_matches(&items[i], prefix) {
            return match items[i].get_str("webSocketDebuggerUrl") {
                Some(u) => {
                    let first = replace_first(u, "ws://localhost:", "ws://127.0.0.1:");
                    let url = replace_first(first.as_str(), "ws://[::1]:", "ws://127.0.0.1:");
                    Ok((items[i].copy(), url))
                },
                None => Err(RpcError::new("CDP_TARGET_INVALID", "target has no debugger URL")),
            };
        }
        i += 1;
    }
    Err(RpcError::new("CDP_TARGET_NOT_FOUND", "matching page target not found"))
}

/// A request to a page's debugger.
pub open spec fn request_json(method: Seq<char>, params: JsonView) -> JsonView {
    JsonView::obj().plus("id"@, JsonView::Unsigned(1)).plus("method"@, JsonView::Text(method)).plus("params"@, params)
}

/// The text of a request to a page's debugger.
pub fn request_text(method: &str, params: &Json) -> (r: String)
    ensures
        r@ == json_text(request_json(method@, params@)),
{
    encode(
        &Json::obj().plus("id", Json::Unsigned(1)).plus("method", Json::text(method)).plus("params", params.copy()),
    )
}

/// What a message from a page's debugger is.
#[derive(Debug)]
pub enum Message {
    /// It answers no request.
    Other,
    /// What is told of the request that it answers.
    Answer(Json),
    Failed(RpcError),
}

/// What a message from a page's debugger is.
pub enum MessageView {
    Other,
    Answer(JsonView),
    Failed(RpcErrorView),
}

impl View for Message {
    type V = MessageView;

    open spec fn view(&self) -> MessageView {
        match self {
            Message::Other => MessageView::Other,
            Message::Answer(j) => MessageView::Answer(j@),
            Message::Failed(e) => MessageView::Failed(e@),
        }
    }
}

/// A field of a field of a document.
pub open spec fn inner(j: JsonView, outer: Seq<char>, key: Seq<char>) -> Option<JsonView> {
    match j.get(outer) {
        Some(o) => o.get(key),
        None => None,
    }
}

/// What a message says: nothing of the request, that it failed, or its result.
pub open spec fn message_view(response: JsonView, page: JsonView, now: u64) -> MessageView {
    if response.get_u64("id"@) != Some(1u64) {
        MessageView::Other
    } else {
        match response.get("error"@) {
            Some(e) => MessageView::Failed(rpc_error("CDP_EVALUATION_FAILED"@, json_text(e))),
            None => match inner(response, "result"@, "exceptionDetails"@) {
                Some(e) => MessageView::Failed(rpc_error("CDP_EVALUATION_FAILED"@, json_text(e))),
                None => MessageView::Answer(
                    JsonView::obj().plus("completedAt"@, JsonView::Unsigned(now)).plus(
                        "result"@,
                        response.get_or_null("result"@),
                    ).plus("target"@, page),
                ),
            },
        }
    }
}

/// Reads a message from a page's debugger.
pub fn read_message(response: &Json, page: &Json, now: u64) -> (r: Message)
    ensures
        r@ == message_view(response@, page@, now),
{
    match response.get_u64("id") {
        Some(n) => {
            if n != 1 {
                return Message::Other;
            }
        },
        None => return Message::Other,
    }
    if let Some(e) = response.get("error") {
        return Message::Failed(RpcError::new("CDP_EVALUATION_FAILED", encode(e).as_str()));
    }
    if let Some(o) = response.get("result") {
        if let Some(e) = o.get("exceptionDetails") {
            return Message::Failed(RpcError::new("CDP_EVALUATION_FAILED", encode(e).as_str()));
        }
    }
    Message::Answer(
        Json::obj().plus("completedAt", Json::Unsigned(now)).plus("result", response.copy_or_null("result")).plus(
            "target",
            page.copy(),
        ),
    )
}

/// Reads the text of a message from a page's debugger.
pub fn read_message_text(text: &str, page: &Json, now: u64) -> (r: Message)
    ensures
        r@ == (match json_parse(vstd::utf8::encode_utf8(text@)) {
            Ok(response) => message_view(response, page@, now),
            Err(m) => MessageView::Failed(rpc_error("CDP_INVALID_RESPONSE"@, m)),
        }),
{
    match decode(text.as_bytes()) {
        Ok(response) => read_message(&response, page, now),
        Err(m) => Message::Failed(RpcError::new("CDP_INVALID_RESPONSE", m.as_str())),
    }
}

/// What is asked of a page to evaluate an expression.
pub fn evaluate_params(expression: &str) -> (r: Json)
    ensures
        r@ == JsonView::obj().plus("awaitPromise"@, JsonView::Bool(true)).plus(
            "expression"@,
            JsonView::Text(expression@),
        ).plus("returnByValue"@, JsonView::Bool(true)),
{
    Json::obj().plus("awaitPromise", Json::Bool(true)).plus("expression", Json::text(expression)).plus(
        "returnByValue",
        Json::Bool(true),
    )
}

/// The value that an expression was evaluated to.
pub open spec fn evaluated_value(result: JsonView) -> JsonView {
    match inner(result, "result"@, "result"@) {
        Some(v) => v.get_or_null("value"@),
        None => JsonView::Null,
    }
}

/// What is told of an expression that was evaluated.
pub fn evaluated(result: &Json, now: u64) -> (r: Json)
    ensures
        r@ == JsonView::obj().plus("evaluatedAt"@, JsonView::Unsigned(now)).plus(
            "target"@,
            result@.get_or_null("target"@),
        ).plus("value"@, evaluated_value(result@)),
{
    let value = match result.get("result") {
        Some(o) => match o.get("result") {
            Some(v) => v.copy_or_null("value"),
            None => Json::Null,
        },
        None => Json::Null,
    };
    Json::obj().plus("evaluatedAt", Json::Unsigned(now)).plus("target", result.copy_or_null("target")).plus(
        "value",
        value,
    )
}

/// Whether a method may be asked of a page: mouse, keyboard, text and pictures.
pub open spec fn is_allowed(method: Seq<char>) -> bool {
    method == "Input.dispatchMouseEvent"@ || method == "Input.dispatchKeyEvent"@ || method == "Input.insertText"@
        || method == "Page.captureScreenshot"@
}

/// Decides whether a method may be asked of a page.
pub fn check_method(method: &str) -> (r: Result<(), RpcError>)
    ensures
        if is_allowed(method@) {
            r is Ok
        } else {
            fails(r, rpc_error("CDP_METHOD_NOT_ALLOWED"@, "CDP method is not allowed: "@ + method@))
        },
{
    if str_eq(method, "Input.dispatchMouseEvent") || str_eq(method, "Input.dispatchKeyEvent") || str_eq(
        method,
        "Input.insertText",
    ) || str_eq(method, "Page.captureScreenshot") {
        Ok(())
    } else {
        Err(RpcError::new("CDP_METHOD_NOT_ALLOWED", concat2("CDP method is not allowed: ", method).as_str()))
    }
}

/// What is asked of a page for a picture of it.
pub fn capture_params() -> (r: Json)
    ensures
        r@ == JsonView::obj().plus("captureBeyondViewport"@, JsonView::Bool(false)).plus(
            "format"@,
            JsonView::Text("png"@),
        ),
{
    Json::obj().plus("captureBeyondViewport", Json::Bool(false)).plus("format", Json::text("png"))
}

/// The text that a picture came as.
pub open spec fn picture_text(response: JsonView) -> Result<Seq<char>, RpcErrorView> {
    match inner(response, "result"@, "data"@) {
        Some(JsonView::Text(s)) => Ok(s),
        _ => Err(rpc_error("CDP_INVALID_RESPONSE"@, "screenshot data is missing"@)),
    }
}

/// The text that a picture came as.
pub fn capture_text(response: &Json) -> (r: Result<String, RpcError>)
    ensures
        match picture_text(response@) {
            Ok(s) => r matches Ok(x) && x@ == s,
            Err(e) => fails(r, e),
        },
{
    if let Some(o) = response.get("result") {
        if let Some(s) = o.get_text("data") {
            return Ok(s);
        }
    }
    Err(RpcError::new("CDP_INVALID_RESPONSE", "screenshot data is missing"))
}

/// The bytes of a picture.
pub fn captured_bytes(response: &Json) -> (r: Result<Vec<u8>, RpcError>)
    ensures
        match picture_text(response@) {
            Err(e) => fails(r, e),
            Ok(s) => match base64_parse(s) {
                Ok(b) => r matches Ok(x) && x@ == b,
                Err(m) => fails(r, rpc_error("CDP_INVALID_RESPONSE"@, m)),
            },
        },
{
    let text = match capture_text(response) {
        Ok(t) => t,
        Err(e) => return Err(e),
    };
    match base64_decode(text.as_str()) {
        Ok(b) => Ok(b),
        Err(m) => Err(RpcError::new("CDP_INVALID_RESPONSE", m.as_str())),
    }
}

/// What is told of a picture that was stored.
pub fn captured(response: &Json, path: &str, bytes: usize, now: u64) -> (r: Json)
    ensures
        r@ == JsonView::obj().plus("bytes"@, JsonView::Unsigned(bytes as u64)).plus(
            "capturedAt"@,
            JsonView::Unsigned(now),
        ).plus("path"@, JsonView::Text(path@)).plus("target"@, response@.get_or_null("target"@)),
{
    Json::obj().plus("bytes", Json::Unsigned(bytes as u64)).plus("capturedAt", Json::Unsigned(now)).plus(
        "path",
        Json::text(path),
    ).plus("target", response.copy_or_null("target"))
}

/// The request for a document of a debugging port.
pub fn document_request(port: u16, path: &str) -> (r: String)
    ensures
        r@ == "GET "@ + path@ + " HTTP/1.1\r\nHost: 127.0.0.1:"@ + decimal(port as nat)
            + "\r\nConnection: close\r\n\r\n"@,
{
    concat5(
        "GET ",
        path,
        " HTTP/1.1\r\nHost: 127.0.0.1:",
        u64_text(port as u64).as_str(),
        "\r\nConnection: close\r\n\r\n",
    )
}

/// The document in an answer of a debugging port: what follows its headers.
pub fn read_document(response: &Vec<u8>) -> (r: Result<Json, RpcError>)
    ensures
        match header_end(response@, 0) {
            None => fails(r, rpc_error("CDP_INVALID_RESPONSE"@, "missing HTTP response body"@)),
            Some(i) => match json_parse(response@.skip(i + 4)) {
                Ok(j) => r matches Ok(x) && x@ == j,
                Err(m) => fails(r, rpc_error("CDP_INVALID_RESPONSE"@, m)),
            },
        },
{
    let len = response.len();
    match find_header_end(response) {
        Some(i) => {
            let body = vstd::slice::slice_subrange(response.as_slice(), i + 4, len);
            proof {
                assert(body@ =~= response@.skip(i + 4));
            }
            match decode(body) {
                Ok(j) => Ok(j),
                Err(m) => Err(RpcError::new("CDP_INVALID_RESPONSE", m.as_str())),
            }
        },
        None => Err(RpcError::new("CDP_INVALID_RESPONSE", "missing HTTP response body")),
    }
}

/// The first page is the first one of the list that is a page and, where a beginning is asked for,
/// whose address begins so.
pub proof fn first_page_is_the_first(items: Seq<JsonView>, prefix: Option<Seq<char>>, from: int)
    requires
        0 <= from <= items.len(),
    ensures
        match first_page(items, prefix, from) {
            Some(k) => {
                &&& from <= k < items.len()
                &&& items[k].get_str("type"@) == Some("page"@)
                &&& prefix matches Some(p) ==> (items[k].get_str("url"@) matches Some(u) && p.is_prefix_of(u))
                &&& forall|i: int| from <= i < k ==> !is_page(#[trigger] items[i], prefix)
            },
            None => forall|i: int|
                from <= i < items.len() && (#[trigger] items[i]).get_str("type"@) == Some("page"@) ==> (prefix matches Some(
                    p,
                ) && !(items[i].get_str("url"@) matches Some(u) && p.is_prefix_of(u))),
        },
    decreases items.len() - from,
{
    if from < items.len() && !is_page(items[from], prefix) {
        first_page_is_the_first(items, prefix, from + 1);
    }
}

/// Only the reply to the request is an answer, and one that carries an error is none.
pub proof fn only_the_reply_answers(response: JsonView, page: JsonView, now: u64)
    ensures
        message_view(response, page, now) is Answer ==> response.get_u64("id"@) == Some(1u64) && response.get("error"@) is None,
        response.get_u64("id"@) != Some(1u64) ==> message_view(response, page, now) is Other,
        response.get_u64("id"@) == Some(1u64) && response.get("error"@) is Some ==> message_view(response, page, now) is Failed,
{
}

} // verus!
