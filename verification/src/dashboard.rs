//! The dashboard's side of HTTP: how requests are read, who may ask what, and what is answered.

use crate::codec::{encode, json_parse, json_text, lossy_text, read_json, utf8_lossy};
use crate::json::{json_or_null, json_views, text_or_null, Json, JsonView};
use crate::lines::{lines, lines_view, words, words_view};
use crate::query::{
    name_required, parse_query, query_map, query_u64, safe_name, safe_query_id, target_query, QueryField,
};
use crate::rpc::{Called, CalledView};
use crate::table::{find_in, lookup};
use crate::task::opt_text;
use crate::text::{
    chars_of, concat2, concat3, concat4, concat5, eq_ignore_case, find_chars, find_from, lemma_find_from, lower_chars,
    lower_view, parse_u64, parse_u64_view, split, split_once, split_once_view, split_view, starts_with, str_eq,
    strip_prefix, take_chars, trim, trim_view, u64_text, views,
};
use vstd::prelude::*;

verus! {

/// The most bytes that a request may have.
pub const MAX_REQUEST_BYTES: usize = 65_536;

/// The most event frames that are kept for clients that come back.
pub const MAX_REPLAY: usize = 1000;

/// The position of the first empty line from a position: carriage return and line feed, twice.
pub open spec fn header_end(b: Seq<u8>, from: int) -> Option<int>
    decreases b.len() - from,
{
    if from < 0 || from + 4 > b.len() {
        None
    } else if b[from] == 13 && b[from + 1] == 10 && b[from + 2] == 13 && b[from + 3] == 10 {
        Some(from)
    } else {
        header_end(b, from + 1)
    }
}

/// The position of the first empty line.
pub fn find_header_end(b: &Vec<u8>) -> (r: Option<usize>)
    ensures
        match r {
            Some(i) => header_end(b@, 0) == Some(i as int) && i + 4 <= b@.len(),
            None => header_end(b@, 0) is None,
        },
{
    let mut i: usize = 0;
    while b.len() >= 4 && i <= b.len() - 4
        invariant
            i <= b.len(),
            header_end(b@, 0) == header_end(b@, i as int),
        decreases b.len() - i,
    {
        if b[i] == 13 && b[i + 1] == 10 && b[i + 2] == 13 && b[i + 3] == 10 {
            return Some(i);
        }
        i += 1;
    }
    None
}

/// The first line from a position that begins with a text, in letters of either case.
pub open spec fn line_beginning(lines: Seq<Seq<char>>, start: Seq<char>, from: int) -> Option<Seq<char>>
    decreases lines.len() - from,
{
    if from < 0 || from >= lines.len() {
        None
    } else if start.is_prefix_of(lower_view(lines[from])) {
        Some(lines[from])
    } else {
        line_beginning(lines, start, from + 1)
    }
}

/// The length of the body that the headers of a request announce.
pub open spec fn content_length_view(headers: Seq<char>) -> int {
    match line_beginning(lines_view(headers), "content-length:"@, 0) {
        Some(line) => match split_once_view(line, ':') {
            Some(p) => match parse_u64_view(trim_view(p.1)) {
                Some(n) => if n <= usize::MAX {
                    n as int
                } else {
                    0
                },
                None => 0,
            },
            None => 0,
        },
        None => 0,
    }
}

/// The length of the body that the headers of a request announce, or zero.
pub fn content_length(headers: &str) -> (r: usize)
    ensures
        r == content_length_view(headers@),
{
    let all = lines(headers);
    let start = "content-length:";
    let mut i: usize = 0;
    while i < all.len()
        invariant
            i <= all.len(),
            start@ == "content-length:"@,
            views(all@) == lines_view(headers@),
            line_beginning(views(all@), start@, 0) == line_beginning(views(all@), start@, i as int),
        decreases all.len() - i,
    {
        assert(views(all@)[i as int] == all@[i as int]@);
        let low = lower_chars(all[i].as_str());
        let head = chars_of(start);
        if begins(&low, &head) {
            return match split_once(all[i].as_str(), ':') {
                Some(p) => match parse_u64(trim(p.1.as_str()).as_str()) {
                    Some(n) => if n <= usize::MAX as u64 {
                        n as usize
                    } else {
                        0
                    },
                    None => 0,
                },
                None => 0,
            };
        }
        i += 1;
    }
    0
}

fn begins(s: &Vec<char>, p: &Vec<char>) -> (r: bool)
    ensures
        r == p@.is_prefix_of(s@),
{
    if p.len() > s.len() {
        return false;
    }
    let mut i: usize = 0;
    while i < p.len()
        invariant
            i <= p.len() <= s.len(),
            forall|k: int| 0 <= k < i ==> #[trigger] p@[k] == s@[k],
        decreases p.len() - i,
    {
        if p[i] != s[i] {
            assert(p@ =~= s@.subrange(0, p@.len() as int) ==> p@[i as int] == s@[i as int]);
            return false;
        }
        i += 1;
    }
    assert(p@ =~= s@.subrange(0, p@.len() as int));
    true
}

/// Whether a request has been read.
#[derive(Debug, Clone, Copy, PartialEq, Eq, Structural)]
pub enum Reading {
    TooLarge,
    More,
    Complete,
}

/// Whether bytes hold a request: its headers and as much of a body as they announce.
pub open spec fn reading_view(bytes: Seq<u8>) -> Reading {
    if bytes.len() > MAX_REQUEST_BYTES {
        Reading::TooLarge
    } else {
        match header_end(bytes, 0) {
            Some(end) => if bytes.len() >= end + 4 + content_length_view(lossy_text(bytes.take(end))) {
                Reading::Complete
            } else {
                Reading::More
            },
            None => Reading::More,
        }
    }
}

/// Whether the bytes that have come are a whole request, need more, or are too many.
pub fn reading(bytes: &Vec<u8>) -> (r: Reading)
    ensures
        r == reading_view(bytes@),
{
    if bytes.len() > MAX_REQUEST_BYTES {
        return Reading::TooLarge;
    }
    match find_header_end(bytes) {
        Some(end) => {
            let headers = utf8_lossy(vstd::slice::slice_subrange(bytes.as_slice(), 0, end));
            proof {
                assert(bytes@.subrange(0, end as int) =~= bytes@.take(end as int));
            }
            let rest: usize = bytes.len() - end - 4;
            if rest >= content_length(headers.as_str()) {
                Reading::Complete
            } else {
                Reading::More
            }
        },
        None => Reading::More,
    }
}

/// A request as it was read.
#[derive(Debug)]
pub struct HttpRequest {
    pub method: String,
    pub target: String,
    pub path: String,
    pub lines: Vec<String>,
    pub body: String,
}

/// What a request holds.
#[verifier::ext_equal]
pub struct HttpRequestView {
    pub method: Seq<char>,
    pub target: Seq<char>,
    pub path: Seq<char>,
    pub lines: Seq<Seq<char>>,
    pub body: Seq<char>,
}

impl View for HttpRequest {
    type V = HttpRequestView;

    open spec fn view(&self) -> HttpRequestView {
        HttpRequestView {
            method: self.method@,
            target: self.target@,
            path: self.path@,
            lines: views(self.lines@),
            body: self.body@,
        }
    }
}

/// The part of a text between its first and its second empty line.
pub open spec fn body_view(text: Seq<char>) -> Seq<char> {
    match find_from(text, "\r\n\r\n"@, 0) {
        Some(i) => match find_from(text, "\r\n\r\n"@, i + 4) {
            Some(j) => text.subrange(i + 4, j),
            None => text.skip(i + 4),
        },
        None => Seq::empty(),
    }
}

/// The element at a position, or a default.
pub open spec fn nth_or(items: Seq<Seq<char>>, n: int, default: Seq<char>) -> Seq<char> {
    if n < items.len() {
        items[n]
    } else {
        default
    }
}

/// The request that a text writes.
pub open spec fn request_view(text: Seq<char>) -> HttpRequestView {
    let lines = lines_view(text);
    let first = words_view(nth_or(lines, 0, Seq::empty()));
    let target = nth_or(first, 1, "/"@);
    HttpRequestView {
        method: nth_or(first, 0, Seq::empty()),
        target,
        path: nth_or(split_view(target, '?'), 0, "/"@),
        lines,
        body: body_view(text),
    }
}

fn nth(items: &Vec<String>, n: usize, default: &str) -> (r: String)
    ensures
        r@ == nth_or(views(items@), n as int, default@),
{
    if n < items.len() {
        assert(views(items@)[n as int] == items@[n as int]@);
        items[n].clone()
    } else {
        default.to_owned()
    }
}

fn body_of(text: &str) -> (r: String)
    ensures
        r@ == body_view(text@),
{
    let all = chars_of(text);
    let len: usize = all.len();
    let gap = chars_of("\r\n\r\n");
    proof {
        reveal_strlit("\r\n\r\n");
        lemma_find_from(text@, "\r\n\r\n"@, 0);
    }
    match find_chars(&all, &gap, 0) {
        Some(i) => {
            let from: usize = i + 4;
            proof {
                lemma_find_from(text@, "\r\n\r\n"@, from as int);
            }
            let to: usize = match find_chars(&all, &gap, from) {
                Some(j) => j,
                None => len,
            };
            assert(text@.skip(from as int) =~= text@.subrange(from as int, text@.len() as int));
            text.substring_char(from, to).to_owned()
        },
        None => String::new(),
    }
}

/// The request that a text writes: the words of its first line, its lines, and what follows the
/// first empty line.
pub fn parse_request(text: &str) -> (r: HttpRequest)
    ensures
        r@ == request_view(text@),
{
    let all = lines(text);
    let first_line = nth(&all, 0, "");
    proof {
        reveal_strlit("");
        assert(""@ =~= Seq::<char>::empty());
    }
    let first = words(first_line.as_str());
    let method = nth(&first, 0, "");
    let target = nth(&first, 1, "/");
    let parts = split(target.as_str(), '?');
    let path = nth(&parts, 0, "/");
    HttpRequest { method, target, path, lines: all, body: body_of(text) }
}

/// The request in bytes that were read.
pub fn read_request(bytes: &Vec<u8>) -> (r: HttpRequest)
    ensures
        r@ == request_view(lossy_text(bytes@)),
{
    parse_request(utf8_lossy(bytes.as_slice()).as_str())
}

/// The value of the first header of a name, from a position.
pub open spec fn header_from(lines: Seq<Seq<char>>, name: Seq<char>, from: int) -> Option<Seq<char>>
    decreases lines.len() - from,
{
    if from < 0 || from >= lines.len() {
        None
    } else {
        match split_once_view(lines[from], ':') {
            Some(p) => if lower_view(p.0) == lower_view(name) {
                Some(trim_view(p.1))
            } else {
                header_from(lines, name, from + 1)
            },
            None => header_from(lines, name, from + 1),
        }
    }
}

impl HttpRequestView {
    /// The value of a header.
    pub open spec fn header(self, name: Seq<char>) -> Option<Seq<char>> {
        header_from(self.lines, name, 0)
    }
}

impl HttpRequest {
    /// The value of the first header of a name, without the white space around it. Letters of
    /// either case are the same in a name.
    pub fn header(&self, name: &str) -> (r: Option<String>)
        ensures
            opt_text(r) == self@.header(name@),
    {
        let mut i: usize = 0;
        while i < self.lines.len()
            invariant
                i <= self.lines.len(),
                self@.header(name@) == header_from(views(self.lines@), name@, i as int),
            decreases self.lines.len() - i,
        {
            assert(views(self.lines@)[i as int] == self.lines@[i as int]@);
            if let Some(p) = split_once(self.lines[i].as_str(), ':') {
                if eq_ignore_case(p.0.as_str(), name) {
                    return Some(trim(p.1.as_str()));
                }
            }
            i += 1;
        }
        None
    }
}

/// Who may use a dashboard.
#[derive(Debug)]
pub struct DashboardAuth {
    pub session: String,
    pub csrf: String,
    pub bootstrap_expires_at: u64,
    pub bootstrap_consumed: bool,
}

impl DashboardAuth {
    /// The access to a dashboard that has just been started: a browser can open it for a minute.
    pub fn new(session: &str, csrf: &str, now: u64) -> (r: DashboardAuth)
        ensures
            r.session@ == "op_"@ + session@,
            r.csrf@ == "csrf_"@ + csrf@,
            r.bootstrap_expires_at == (if now + 60_000 <= u64::MAX {
                (now + 60_000) as u64
            } else {
                u64::MAX
            }),
            !r.bootstrap_consumed,
    {
        DashboardAuth {
            session: concat2("op_", session),
            csrf: concat2("csrf_", csrf),
            bootstrap_expires_at: now.saturating_add(60_000),
            bootstrap_consumed: false,
        }
    }
}

/// Whether a host is this machine.
pub open spec fn loopback(host: Option<Seq<char>>) -> bool {
    host matches Some(h) && ("127.0.0.1"@.is_prefix_of(h) || "localhost"@.is_prefix_of(h) || "[::1]"@.is_prefix_of(h))
}

/// Whether a text stands among some parts, white space around them aside.
pub open spec fn among(parts: Seq<Seq<char>>, want: Seq<char>) -> bool {
    exists|i: int| 0 <= i < parts.len() && trim_view(#[trigger] parts[i]) == want
}

/// Whether a cookie header carries a session.
pub open spec fn carries(cookie: Option<Seq<char>>, session: Seq<char>) -> bool {
    match cookie {
        Some(c) => among(split_view(c, ';'), "workbench_operator="@ + session),
        None => false,
    }
}

fn is_loopback(host: &Option<String>) -> (r: bool)
    ensures
        r == loopback(opt_text(*host)),
{
    match host {
        Some(h) => starts_with(h.as_str(), "127.0.0.1") || starts_with(h.as_str(), "localhost") || starts_with(
            h.as_str(),
            "[::1]",
        ),
        None => false,
    }
}

fn is_carried(cookie: &Option<String>, session: &str) -> (r: bool)
    ensures
        r == carries(opt_text(*cookie), session@),
{
    match cookie {
        Some(c) => {
            let want = concat2("workbench_operator=", session);
            let items = split(c.as_str(), ';');
            let mut i: usize = 0;
            while i < items.len()
                invariant
                    i <= items.len(),
                    opt_text(*cookie) == Some(c@),
                    want@ == "workbench_operator="@ + session@,
                    views(items@) == split_view(c@, ';'),
                    forall|k: int| 0 <= k < i ==> trim_view(#[trigger] views(items@)[k]) != want@,
                decreases items.len() - i,
            {
                assert(views(items@)[i as int] == items@[i as int]@);
                if str_eq(trim(items[i].as_str()).as_str(), want.as_str()) {
                    return true;
                }
                i += 1;
            }
            false
        },
        None => false,
    }
}

/// A file that the dashboard consists of.
#[derive(Debug, Clone, Copy, PartialEq, Eq, Structural)]
pub enum Asset {
    Page,
    Script,
    Style,
}

/// What a request is answered with.
#[derive(Debug)]
pub enum Answer {
    /// A reply with a status, a content type and a body.
    Reply { status: String, content_type: String, body: String },
    /// A file, and headers that come with it.
    File { asset: Asset, content_type: String, headers: Option<String> },
    /// What the controller answers once an operator's grant has been put into the parameters.
    Grant { action: String, params: Json },
    /// What the controller answers: all of it, or its result alone.
    Call { action: String, params: Json, whole: bool },
    /// The lines of a process's log.
    Logs { process_id: String, params: Json },
    /// The events behind a cursor, as they come.
    Events { cursor: u64 },
}

/// What a request is answered with.
#[verifier::ext_equal]
pub enum AnswerView {
    Reply { status: Seq<char>, content_type: Seq<char>, body: Seq<char> },
    File { asset: Asset, content_type: Seq<char>, headers: Option<Seq<char>> },
    Grant { action: Seq<char>, params: JsonView },
    Call { action: Seq<char>, params: JsonView, whole: bool },
    Logs { process_id: Seq<char>, params: JsonView },
    Events { cursor: u64 },
}

impl View for Answer {
    type V = AnswerView;

    open spec fn view(&self) -> AnswerView {
        match self {
            Answer::Reply { status, content_type, body } => AnswerView::Reply {
                status: status@,
                content_type: content_type@,
                body: body@,
            },
            Answer::File { asset, content_type, headers } => AnswerView::File {
                asset: *asset,
                content_type: content_type@,
                headers: opt_text(*headers),
            },
            Answer::Grant { action, params } => AnswerView::Grant { action: action@, params: params@ },
            Answer::Call { action, params, whole } => AnswerView::Call {
                action: action@,
                params: params@,
                whole: *whole,
            },
            Answer::Logs { process_id, params } => AnswerView::Logs { process_id: process_id@, params: params@ },
            Answer::Events { cursor } => AnswerView::Events { cursor: *cursor },
        }
    }
}

/// A reply in JSON.
pub open spec fn json_reply(status: Seq<char>, body: Seq<char>) -> AnswerView {
    AnswerView::Reply { status, content_type: "application/json"@, body }
}

/// Replies with JSON text.
pub fn reply(status: &str, body: &str) -> (r: Answer)
    ensures
        r@ == json_reply(status@, body@),
{
    Answer::Reply { status: status.to_owned(), content_type: "application/json".to_owned(), body: body.to_owned() }
}

/// The reply to a request that is too large.
pub fn too_large() -> (r: Answer)
    ensures
        r@ == json_reply("413 Payload Too Large"@, "{\"error\":\"request too large\"}"@),
{
    reply("413 Payload Too Large", "{\"error\":\"request too large\"}")
}

/// The cookies that open a session.
pub open spec fn cookies_view(session: Seq<char>, csrf: Seq<char>) -> Seq<char> {
    "Set-Cookie: workbench_operator="@ + session
        + "; HttpOnly; SameSite=Strict; Path=/\r\nSet-Cookie: workbench_csrf="@ + csrf
        + "; SameSite=Strict; Path=/\r\n"@
}

/// Whether a request is a browser's, on its way to the page without a session.
pub open spec fn boots(auth: DashboardAuth, rq: HttpRequestView) -> bool {
    &&& loopback(rq.header("Host"@))
    &&& rq.path == "/"@
    &&& rq.method == "GET"@
    &&& !carries(rq.header("Cookie"@), auth.session@)
    &&& rq.header("Sec-Fetch-Dest"@) == Some("document"@)
}

/// The answer to a request that needs no session, or may not be made.
pub open spec fn gate_view(auth: DashboardAuth, rq: HttpRequestView, now: u64) -> Option<AnswerView> {
    let known = carries(rq.header("Cookie"@), auth.session@);
    if !loopback(rq.header("Host"@)) {
        Some(json_reply("403 Forbidden"@, "{\"error\":\"loopback Host required\"}"@))
    } else if rq.path == "/"@ && rq.method == "GET"@ {
        if boots(auth, rq) && (now > auth.bootstrap_expires_at || auth.bootstrap_consumed) {
            Some(
                json_reply("401 Unauthorized"@, "{\"error\":\"dashboard bootstrap expired or already consumed\"}"@),
            )
        } else {
            Some(
                AnswerView::File {
                    asset: Asset::Page,
                    content_type: "text/html; charset=utf-8"@,
                    headers: if boots(auth, rq) {
                        Some(cookies_view(auth.session@, auth.csrf@))
                    } else {
                        None
                    },
                },
            )
        }
    } else if rq.path == "/assets/app.js"@ && rq.method == "GET"@ {
        Some(AnswerView::File { asset: Asset::Script, content_type: "text/javascript; charset=utf-8"@, headers: None })
    } else if rq.path == "/assets/app.css"@ && rq.method == "GET"@ {
        Some(AnswerView::File { asset: Asset::Style, content_type: "text/css; charset=utf-8"@, headers: None })
    } else if !known {
        Some(json_reply("401 Unauthorized"@, "{\"error\":\"operator session required\"}"@))
    } else if rq.method == "POST"@ && !vouched(auth, rq) {
        Some(json_reply("403 Forbidden"@, "{\"error\":\"Origin or CSRF validation failed\"}"@))
    } else {
        None
    }
}

/// Whether a request comes from a page of the dashboard: its origin is the host, and it carries
/// the token that the page was given.
pub open spec fn vouched(auth: DashboardAuth, rq: HttpRequestView) -> bool {
    &&& rq.header("X-CSRF-Token"@) == Some(auth.csrf@)
    &&& rq.header("Origin"@) == Some(
        "http://"@ + (match rq.header("Host"@) {
            Some(h) => h,
            None => Seq::empty(),
        }),
    )
}

/// Answers a request that needs no session, or may not be made: one from elsewhere, one without
/// the session's cookie, and one that changes something but was not sent by the dashboard's own
/// page. The first browser that opens the page within a minute gets the session.
pub fn gate(auth: &mut DashboardAuth, rq: &HttpRequest, now: u64) -> (r: Option<Answer>)
    ensures
        (match r {
            Some(a) => Some(a@),
            None => None,
        }) == gate_view(*old(auth), rq@, now),
        *final(auth) == (DashboardAuth {
            bootstrap_consumed: old(auth).bootstrap_consumed || (boots(*old(auth), rq@) && now
                <= old(auth).bootstrap_expires_at),
            ..*old(auth)
        }),
{
    let host = rq.header("Host");
    if !is_loopback(&host) {
        return Some(reply("403 Forbidden", "{\"error\":\"loopback Host required\"}"));
    }
    let known = is_carried(&rq.header("Cookie"), auth.session.as_str());
    let get = str_eq(rq.method.as_str(), "GET");
    if str_eq(rq.path.as_str(), "/") && get {
        let document = match rq.header("Sec-Fetch-Dest") {
            Some(d) => str_eq(d.as_str(), "document"),
            None => false,
        };
        let mut headers: Option<String> = None;
        if !known && document {
            let late = now > auth.bootstrap_expires_at;
            let taken = auth.bootstrap_consumed;
            if !late {
                auth.bootstrap_consumed = true;
            }
            if late || taken {
                return Some(
                    reply("401 Unauthorized", "{\"error\":\"dashboard bootstrap expired or already consumed\"}"),
                );
            }
            headers = Some(
                concat5(
                    "Set-Cookie: workbench_operator=",
                    auth.session.as_str(),
                    "; HttpOnly; SameSite=Strict; Path=/\r\nSet-Cookie: workbench_csrf=",
                    auth.csrf.as_str(),
                    "; SameSite=Strict; Path=/\r\n",
                ),
            );
        }
        return Some(
            Answer::File { asset: Asset::Page, content_type: "text/html; charset=utf-8".to_owned(), headers },
        );
    }
    if str_eq(rq.path.as_str(), "/assets/app.js") && get {
        return Some(
            Answer::File {
                asset: Asset::Script,
                content_type: "text/javascript; charset=utf-8".to_owned(),
                headers: None,
            },
        );
    }
    if str_eq(rq.path.as_str(), "/assets/app.css") && get {
        return Some(
            Answer::File { asset: Asset::Style, content_type: "text/css; charset=utf-8".to_owned(), headers: None },
        );
    }
    if !known {
        return Some(reply("401 Unauthorized", "{\"error\":\"operator session required\"}"));
    }
    if str_eq(rq.method.as_str(), "POST") {
        let own = concat2(
            "http://",
            match &host {
                Some(h) => h.as_str(),
                None => "",
            },
        );
        let origin = match rq.header("Origin") {
            Some(o) => str_eq(o.as_str(), own.as_str()),
            None => false,
        };
        let token = match rq.header("X-CSRF-Token") {
            Some(t) => str_eq(t.as_str(), auth.csrf.as_str()),
            None => false,
        };
        if !origin || !token {
            return Some(reply("403 Forbidden", "{\"error\":\"Origin or CSRF validation failed\"}"));
        }
    }
    None
}

/// The session of a dashboard is given out once: whoever comes after the browser that got it, at
/// whatever time, is refused or gets the page without it.
pub proof fn session_is_given_out_once(
    auth: DashboardAuth,
    rq: HttpRequestView,
    now: u64,
    later: HttpRequestView,
    then: u64,
)
    requires
        gate_view(auth, rq, now) matches Some(AnswerView::File { headers: Some(_), .. }),
    ensures
        !(gate_view(
            DashboardAuth {
                bootstrap_consumed: auth.bootstrap_consumed || (boots(auth, rq) && now <= auth.bootstrap_expires_at),
                ..auth
            },
            later,
            then,
        ) matches Some(AnswerView::File { headers: Some(_), .. })),
{
}

/// Nothing but the dashboard's files is handed out without the session's cookie, and nothing at
/// all to another machine.
pub proof fn strangers_get_nothing(auth: DashboardAuth, rq: HttpRequestView, now: u64)
    requires
        !carries(rq.header("Cookie"@), auth.session@) || !loopback(rq.header("Host"@)),
    ensures
        gate_view(auth, rq, now) is Some,
        match gate_view(auth, rq, now)->0 {
            AnswerView::File { .. } => loopback(rq.header("Host"@)),
            AnswerView::Reply { status, .. } => status == "401 Unauthorized"@ || status == "403 Forbidden"@,
            _ => false,
        },
{
}

/// What a request that changes something asks of the controller.
pub open spec fn post_view(path: Seq<char>, params: JsonView) -> AnswerView {
    if path == "/api/operator/nonce"@ {
        AnswerView::Grant { action: "operator.nonce"@, params }
    } else if path == "/api/operator/action"@ {
        if params.get("actionNonce"@) is None {
            AnswerView::Grant { action: "operator.action"@, params }
        } else {
            AnswerView::Call { action: "operator.action"@, params, whole: true }
        }
    } else {
        json_reply("404 Not Found"@, "{\"error\":\"not found\"}"@)
    }
}

/// Plans what a request that changes something asks of the controller. It needs an operator's
/// grant, but for an action that comes with its nonce.
pub fn plan_post(path: &str, params: Json) -> (r: Answer)
    ensures
        r@ == post_view(path@, params@),
{
    if str_eq(path, "/api/operator/nonce") {
        Answer::Grant { action: "operator.nonce".to_owned(), params }
    } else if str_eq(path, "/api/operator/action") {
        if params.has("actionNonce") {
            Answer::Call { action: "operator.action".to_owned(), params, whole: true }
        } else {
            Answer::Grant { action: "operator.action".to_owned(), params }
        }
    } else {
        reply("404 Not Found", "{\"error\":\"not found\"}")
    }
}

/// What is asked of the controller for an operator's grant.
pub fn grant_params() -> (r: Json)
    ensures
        r@ == JsonView::obj().plus("operatorId"@, JsonView::Text("dashboard"@)).plus(
            "ttlMs"@,
            JsonView::Unsigned(60_000),
        ),
{
    Json::obj().plus("operatorId", Json::text("dashboard")).plus("ttlMs", Json::Unsigned(60_000))
}

/// The token in the controller's answer to a request for a grant.
pub open spec fn granted_token(called: CalledView) -> Result<Seq<char>, Seq<char>> {
    match called {
        CalledView::Unreachable(reason) => Err(reason),
        CalledView::Answered(response) => match response.result {
            Some(result) => match result.get_str("grantToken"@) {
                Some(token) => Ok(token),
                None => Err("controller rejected operator grant"@),
            },
            None => Err("controller rejected operator grant"@),
        },
    }
}

/// Puts the token of an operator's grant into parameters, or says why there is none.
pub fn with_grant(params: Json, called: &Called) -> (r: Result<Json, String>)
    requires
        params@.settable(),
    ensures
        match granted_token(called@) {
            Ok(token) => r matches Ok(p) && p@ == params@.with("grantToken"@, JsonView::Text(token)),
            Err(reason) => r matches Err(e) && e@ == reason,
        },
{
    match called {
        Called::Unreachable(reason) => Err(reason.clone()),
        Called::Answered(response) => {
            if let Some(result) = &response.result {
                if let Some(token) = result.get_str("grantToken") {
                    let mut p = params;
                    p.set("grantToken", Json::text(token));
                    return Ok(p);
                }
            }
            Err("controller rejected operator grant".to_owned())
        },
    }
}

/// A number within bounds.
pub open spec fn clamped(n: u64, low: u64, high: u64) -> u64 {
    if n < low {
        low
    } else if n > high {
        high
    } else {
        n
    }
}

fn clamp(n: u64, low: u64, high: u64) -> (r: u64)
    ensures
        r == clamped(n, low, high),
{
    if n < low {
        low
    } else if n > high {
        high
    } else {
        n
    }
}

/// The number of a name in a query, or a default.
pub open spec fn number_in(query: Map<Seq<char>, Seq<char>>, key: Seq<char>, default: u64) -> u64 {
    if query.contains_key(key) {
        match parse_u64_view(query[key]) {
            Some(n) => n,
            None => default,
        }
    } else {
        default
    }
}

/// The value of a name in a query.
pub open spec fn value_in(query: Map<Seq<char>, Seq<char>>, key: Seq<char>) -> Option<Seq<char>> {
    if query.contains_key(key) {
        Some(query[key])
    } else {
        None
    }
}

/// The value of a name in a query, where it is safe to pass on.
pub open spec fn name_in(query: Map<Seq<char>, Seq<char>>, key: Seq<char>) -> Option<Seq<char>> {
    match value_in(query, key) {
        Some(v) => if safe_name(v) {
            Some(v)
        } else {
            None
        },
        None => None,
    }
}

/// What follows a text in the first of some parts that begins with it, from a position.
pub open spec fn stripped_from(parts: Seq<Seq<char>>, start: Seq<char>, from: int) -> Option<Seq<char>>
    decreases parts.len() - from,
{
    if from < 0 || from >= parts.len() {
        None
    } else if start.is_prefix_of(parts[from]) {
        Some(parts[from].skip(start.len() as int))
    } else {
        stripped_from(parts, start, from + 1)
    }
}

/// The cursor in the target of a request for events.
pub open spec fn target_cursor(target: Seq<char>) -> u64 {
    let parts = split_view(target, '?');
    if parts.len() < 2 {
        0
    } else {
        match stripped_from(split_view(parts[1], '&'), "cursor="@, 0) {
            Some(s) => match parse_u64_view(s) {
                Some(n) => n,
                None => 0,
            },
            None => 0,
        }
    }
}

/// The last event that a client has seen.
pub open spec fn cursor_view(rq: HttpRequestView) -> u64 {
    match rq.header("Last-Event-ID"@) {
        Some(h) => match parse_u64_view(h) {
            Some(n) => n,
            None => target_cursor(rq.target),
        },
        None => target_cursor(rq.target),
    }
}

/// The last event that a client has seen, by its header or else by the target of its request.
pub fn event_cursor(rq: &HttpRequest) -> (r: u64)
    ensures
        r == cursor_view(rq@),
{
    if let Some(h) = rq.header("Last-Event-ID") {
        if let Some(n) = parse_u64(h.as_str()) {
            return n;
        }
    }
    let parts = split(rq.target.as_str(), '?');
    if parts.len() < 2 {
        return 0;
    }
    assert(views(parts@)[1] == parts@[1]@);
    let items = split(parts[1].as_str(), '&');
    let ghost all = views(items@);
    let start = "cursor=";
    let mut i: usize = 0;
    while i < items.len()
        invariant
            i <= items.len(),
            all == views(items@),
            start@ == "cursor="@,
            cursor_view(rq@) == target_cursor(rq@.target),
            views(parts@) == split_view(rq@.target, '?'),
            parts@.len() >= 2,
            all == split_view(views(parts@)[1], '&'),
            stripped_from(all, start@, 0) == stripped_from(all, start@, i as int),
        decreases items.len() - i,
    {
        assert(all[i as int] == items@[i as int]@);
        if let Some(s) = strip_prefix(items[i].as_str(), start) {
            return match parse_u64(s.as_str()) {
                Some(n) => n,
                None => 0,
            };
        }
        i += 1;
    }
    0
}

/// What a request that only looks is answered with, where `cursors` is the document that its query
/// gives for the cursors.
pub open spec fn get_view(rq: HttpRequestView, cursors: JsonView) -> AnswerView {
    let query = target_query(rq.target);
    let get = rq.method == "GET"@;
    if rq.path == "/api/events"@ && get {
        AnswerView::Events { cursor: cursor_view(rq) }
    } else if rq.path == "/api/snapshot"@ && get {
        AnswerView::Call { action: "dashboard.snapshot"@, params: JsonView::Null, whole: false }
    } else if rq.path == "/api/runs"@ && get {
        AnswerView::Call {
            action: "run.list"@,
            params: JsonView::obj().plus(
                "limit"@,
                JsonView::Unsigned(clamped(number_in(query, "limit"@, 50), 1, 200)),
            ).plus("offset"@, JsonView::Unsigned(clamped(number_in(query, "offset"@, 0), 0, 10_000))).plus(
                "status"@,
                text_or_null(value_in(query, "status"@)),
            ),
            whole: true,
        }
    } else if rq.path == "/api/run"@ && get {
        match name_in(query, "runId"@) {
            Some(id) => AnswerView::Call {
                action: "run.get"@,
                params: JsonView::obj().plus("runId"@, JsonView::Text(id)),
                whole: true,
            },
            None => json_reply("400 Bad Request"@, name_required("runId"@)),
        }
    } else if rq.path == "/api/observations"@ && get {
        match name_in(query, "runId"@) {
            Some(id) => AnswerView::Call {
                action: "observability.query"@,
                params: JsonView::obj().plus("cursors"@, cursors).plus(
                    "limit"@,
                    JsonView::Unsigned(clamped(number_in(query, "limit"@, 500), 1, 1000)),
                ).plus("runId"@, JsonView::Text(id)),
                whole: true,
            },
            None => json_reply("400 Bad Request"@, name_required("runId"@)),
        }
    } else if rq.path == "/api/logs"@ && get {
        match (name_in(query, "executorId"@), name_in(query, "processId"@)) {
            (Some(executor), Some(process)) => AnswerView::Logs {
                process_id: process,
                params: JsonView::obj().plus("action"@, JsonView::Text("logs.read"@)).plus(
                    "executorId"@,
                    JsonView::Text(executor),
                ).plus(
                    "params"@,
                    JsonView::obj().plus("processId"@, JsonView::Text(process)).plus(
                        "tail"@,
                        JsonView::Unsigned(clamped(number_in(query, "tail"@, 200), 1, 2000)),
                    ),
                ),
            },
            _ => json_reply("400 Bad Request"@, "{\"error\":\"valid executorId and processId are required\"}"@),
        }
    } else {
        json_reply("404 Not Found"@, "{\"error\":\"not found\"}"@)
    }
}

fn query_value(query: &Vec<QueryField>, key: &str) -> (r: Option<String>)
    ensures
        opt_text(r) == value_in(query_map(query@), key@),
{
    match lookup(query, key) {
        Some(f) => Some(f.value.clone()),
        None => None,
    }
}

fn query_number(query: &Vec<QueryField>, key: &str, default: u64) -> (r: u64)
    ensures
        r == number_in(query_map(query@), key@, default),
{
    assert(query_map(query@).contains_key(key@) == (find_in(query@, key@) is Some));
    query_u64(query, key, default)
}

fn query_id(query: &Vec<QueryField>, key: &str) -> (r: Result<String, String>)
    ensures
        match name_in(query_map(query@), key@) {
            Some(s) => r matches Ok(x) && x@ == s,
            None => r matches Err(e) && e@ == name_required(key@),
        },
{
    assert(query_map(query@).contains_key(key@) == (find_in(query@, key@) is Some));
    safe_query_id(query, key)
}

/// Plans what a request that only looks is answered with, where `cursors` is the document that its
/// query gives for the cursors.
pub fn plan_get(rq: &HttpRequest, cursors: Json) -> (r: Answer)
    ensures
        r@ == get_view(rq@, cursors@),
{
    let query = parse_query(rq.target.as_str());
    if !str_eq(rq.method.as_str(), "GET") {
        return reply("404 Not Found", "{\"error\":\"not found\"}");
    }
    let path = rq.path.as_str();
    if str_eq(path, "/api/events") {
        Answer::Events { cursor: event_cursor(rq) }
    } else if str_eq(path, "/api/snapshot") {
        Answer::Call { action: "dashboard.snapshot".to_owned(), params: Json::Null, whole: false }
    } else if str_eq(path, "/api/runs") {
        let limit = clamp(query_number(&query, "limit", 50), 1, 200);
        let offset = clamp(query_number(&query, "offset", 0), 0, 10_000);
        let status = query_value(&query, "status");
        Answer::Call {
            action: "run.list".to_owned(),
            params: Json::obj().plus("limit", Json::Unsigned(limit)).plus("offset", Json::Unsigned(offset)).plus(
                "status",
                Json::opt_text(&status),
            ),
            whole: true,
        }
    } else if str_eq(path, "/api/run") {
        match query_id(&query, "runId") {
            Ok(id) => Answer::Call {
                action: "run.get".to_owned(),
                params: Json::obj().plus("runId", Json::Text(id)),
                whole: true,
            },
            Err(body) => reply("400 Bad Request", body.as_str()),
        }
    } else if str_eq(path, "/api/observations") {
        match query_id(&query, "runId") {
            Ok(id) => {
                let limit = clamp(query_number(&query, "limit", 500), 1, 1000);
                Answer::Call {
                    action: "observability.query".to_owned(),
                    params: Json::obj().plus("cursors", cursors).plus("limit", Json::Unsigned(limit)).plus(
                        "runId",
                        Json::Text(id),
                    ),
                    whole: true,
                }
            },
            Err(body) => reply("400 Bad Request", body.as_str()),
        }
    } else if str_eq(path, "/api/logs") {
        match (query_id(&query, "executorId"), query_id(&query, "processId")) {
            (Ok(executor), Ok(process)) => {
                let tail = clamp(query_number(&query, "tail", 200), 1, 2000);
                let inner = Json::obj().plus("processId", Json::text(process.as_str())).plus(
                    "tail",
                    Json::Unsigned(tail),
                );
                Answer::Logs {
                    process_id: process,
                    params: Json::obj().plus("action", Json::text("logs.read")).plus(
                        "executorId",
                        Json::Text(executor),
                    ).plus("params", inner),
                }
            },
            _ => reply("400 Bad Request", "{\"error\":\"valid executorId and processId are required\"}"),
        }
    } else {
        reply("404 Not Found", "{\"error\":\"not found\"}")
    }
}

/// The document in a text, or the empty object where it holds none.
pub open spec fn document_or_empty(text: Seq<char>) -> JsonView {
    match json_parse(vstd::utf8::encode_utf8(text)) {
        Ok(j) => j,
        Err(_) => JsonView::obj(),
    }
}

fn document(text: &str) -> (r: Json)
    ensures
        r@ == document_or_empty(text@),
{
    match read_json(text.as_bytes()) {
        Ok(j) => j,
        Err(_) => Json::obj(),
    }
}

/// The document that a query gives for the cursors.
pub open spec fn cursors_view(target: Seq<char>) -> JsonView {
    match value_in(target_query(target), "cursors"@) {
        Some(text) => document_or_empty(text),
        None => JsonView::obj(),
    }
}

/// What a request is answered with.
pub open spec fn answer_view(auth: DashboardAuth, rq: HttpRequestView, now: u64) -> AnswerView {
    match gate_view(auth, rq, now) {
        Some(a) => a,
        None => if rq.method == "POST"@ {
            post_view(rq.path, document_or_empty(rq.body))
        } else {
            get_view(rq, cursors_view(rq.target))
        },
    }
}

/// Decides what a request is answered with.
pub fn answer(auth: &mut DashboardAuth, rq: &HttpRequest, now: u64) -> (r: Answer)
    ensures
        r@ == answer_view(*old(auth), rq@, now),
        *final(auth) == (DashboardAuth {
            bootstrap_consumed: old(auth).bootstrap_consumed || (boots(*old(auth), rq@) && now
                <= old(auth).bootstrap_expires_at),
            ..*old(auth)
        }),
{
    if let Some(a) = gate(auth, rq, now) {
        return a;
    }
    if str_eq(rq.method.as_str(), "POST") {
        plan_post(rq.path.as_str(), document(rq.body.as_str()))
    } else {
        let query = parse_query(rq.target.as_str());
        let cursors = match query_value(&query, "cursors") {
            Some(text) => document(text.as_str()),
            None => Json::obj(),
        };
        plan_get(rq, cursors)
    }
}

/// The reply that carries why a call failed.
pub open spec fn failed_reply(reason: Seq<char>) -> AnswerView {
    json_reply("503 Service Unavailable"@, json_text(JsonView::obj().plus("error"@, JsonView::Text(reason))))
}

/// What a client is told of a call, where `text` is the answer as it came.
pub open spec fn called_view(called: CalledView, text: Seq<char>, whole: bool) -> AnswerView {
    match called {
        CalledView::Unreachable(reason) => failed_reply(reason),
        CalledView::Answered(response) => if whole {
            json_reply("200 OK"@, text)
        } else if response.ok {
            json_reply("200 OK"@, json_text(json_or_null(response.result)))
        } else {
            json_reply("503 Service Unavailable"@, text)
        },
    }
}

/// Tells a client what a call gave: the whole answer as it came, in `text`, or the result alone.
pub fn called_reply(called: &Called, text: &str, whole: bool) -> (r: Answer)
    ensures
        r@ == called_view(called@, text@, whole),
{
    match called {
        Called::Unreachable(reason) => {
            let body = encode(&Json::obj().plus("error", Json::text(reason.as_str())));
            reply("503 Service Unavailable", body.as_str())
        },
        Called::Answered(response) => {
            if whole {
                reply("200 OK", text)
            } else if response.ok {
                let body = match &response.result {
                    Some(j) => encode(j),
                    None => encode(&Json::Null),
                };
                reply("200 OK", body.as_str())
            } else {
                reply("503 Service Unavailable", text)
            }
        },
    }
}

/// The lines among the first `n` documents, each cut to four thousand characters.
pub open spec fn log_lines(items: Seq<JsonView>, n: int) -> Seq<JsonView>
    decreases n,
{
    if n <= 0 {
        Seq::empty()
    } else {
        match items[n - 1].as_str() {
            Some(s) => log_lines(items, n - 1).push(
                JsonView::Text(
                    s.take(
                        if 4000 < s.len() {
                            4000
                        } else {
                            s.len() as int
                        },
                    ),
                ),
            ),
            None => log_lines(items, n - 1),
        }
    }
}

/// What a client is told of a process's log.
pub open spec fn logs_view(process_id: Seq<char>, called: CalledView, text: Seq<char>) -> AnswerView {
    match called {
        CalledView::Unreachable(reason) => failed_reply(reason),
        CalledView::Answered(response) => if response.ok {
            let items = match json_or_null(response.result).get_array("lines"@) {
                Some(a) => a,
                None => Seq::empty(),
            };
            json_reply(
                "200 OK"@,
                json_text(
                    JsonView::obj().plus("lines"@, JsonView::Array(log_lines(items, items.len() as int))).plus(
                        "processId"@,
                        JsonView::Text(process_id),
                    ),
                ),
            )
        } else {
            json_reply("503 Service Unavailable"@, text)
        },
    }
}

fn cut_lines(items: &Vec<Json>) -> (r: Vec<Json>)
    ensures
        json_views(r@) == log_lines(json_views(items@), items@.len() as int),
{
    let ghost all = json_views(items@);
    let mut out: Vec<Json> = Vec::new();
    let mut i: usize = 0;
    proof {
        assert(json_views(out@) =~= Seq::empty());
    }
    while i < items.len()
        invariant
            i <= items.len(),
            all == json_views(items@),
            json_views(out@) == log_lines(all, i as int),
        decreases items.len() - i,
    {
        assert(all[i as int] == items@[i as int]@);
        if let Some(s) = items[i].as_str() {
            let ghost before = out@;
            let t = Json::Text(take_chars(s, 4000));
            out.push(t);
            proof {
                assert(json_views(out@) =~= json_views(before).push(t@));
            }
        }
        i += 1;
    }
    out
}

/// Tells a client the lines of a process's log that an executor gave.
pub fn logs_reply(process_id: &str, called: &Called, text: &str) -> (r: Answer)
    ensures
        r@ == logs_view(process_id@, called@, text@),
{
    match called {
        Called::Unreachable(reason) => {
            let body = encode(&Json::obj().plus("error", Json::text(reason.as_str())));
            reply("503 Service Unavailable", body.as_str())
        },
        Called::Answered(response) => {
            if response.ok {
                let none: Vec<Json> = Vec::new();
                let found = match &response.result {
                    Some(result) => result.get_array("lines"),
                    None => None,
                };
                let cut = match found {
                    Some(items) => cut_lines(items),
                    None => cut_lines(&none),
                };
                proof {
                    assert(json_views(none@) =~= Seq::empty());
                }
                let body = Json::obj().plus("lines", Json::array(cut)).plus("processId", Json::text(process_id));
                reply("200 OK", encode(&body).as_str())
            } else {
                reply("503 Service Unavailable", text)
            }
        },
    }
}

/// The text of a response.
pub open spec fn http_view(status: Seq<char>, content_type: Seq<char>, body: Seq<char>, extra: Seq<char>) -> Seq<char> {
    "HTTP/1.1 "@ + status + "\r\nContent-Type: "@ + content_type
        + "\r\nCache-Control: no-store\r\nX-Content-Type-Options: nosniff\r\nContent-Security-Policy: default-src 'none'; script-src 'self'; style-src 'self'; connect-src 'self'\r\n"@
        + extra + "Content-Length: "@ + crate::text::decimal(vstd::utf8::encode_utf8(body).len() as nat)
        + "\r\nConnection: close\r\n\r\n"@ + body
}

/// The text of a response: its length is that of the body's bytes.
pub fn http_response(status: &str, content_type: &str, body: &str, extra: &Option<String>) -> (r: String)
    ensures
        r@ == http_view(
            status@,
            content_type@,
            body@,
            match *extra {
                Some(s) => s@,
                None => Seq::empty(),
            },
        ),
{
    let extra = match extra {
        Some(s) => s.as_str(),
        None => "",
    };
    proof {
        reveal_strlit("");
        assert(""@ =~= Seq::<char>::empty());
    }
    let length = u64_text(body.as_bytes().len() as u64);
    let head = concat5(
        "HTTP/1.1 ",
        status,
        "\r\nContent-Type: ",
        content_type,
        "\r\nCache-Control: no-store\r\nX-Content-Type-Options: nosniff\r\nContent-Security-Policy: default-src 'none'; script-src 'self'; style-src 'self'; connect-src 'self'\r\n",
    );
    let middle = concat4(head.as_str(), extra, "Content-Length: ", length.as_str());
    concat3(middle.as_str(), "\r\nConnection: close\r\n\r\n", body)
}

/// The head of a stream of events.
pub fn event_stream_head() -> (r: String)
    ensures
        r@
            == "HTTP/1.1 200 OK\r\nContent-Type: text/event-stream\r\nCache-Control: no-store\r\nConnection: keep-alive\r\nX-Accel-Buffering: no\r\n\r\n"@,
{
    "HTTP/1.1 200 OK\r\nContent-Type: text/event-stream\r\nCache-Control: no-store\r\nConnection: keep-alive\r\nX-Accel-Buffering: no\r\n\r\n".to_owned()
}

/// A batch of observations that was sent to the clients.
#[derive(Debug)]
pub struct EventFrame {
    pub sequence: u64,
    pub data: String,
}

/// The text of a frame in a stream of events.
pub open spec fn frame_view(frame: EventFrame) -> Seq<char> {
    "id: "@ + crate::text::decimal(frame.sequence as nat) + "\nevent: observations\ndata: "@ + frame.data@ + "\n\n"@
}

impl EventFrame {
    /// The text of a frame in a stream of events.
    pub fn text(&self) -> (r: String)
        ensures
            r@ == frame_view(*self),
    {
        concat5(
            "id: ",
            u64_text(self.sequence).as_str(),
            "\nevent: observations\ndata: ",
            self.data.as_str(),
            "\n\n",
        )
    }
}

/// The observations that a dashboard follows: where it stands, and the last batches, for clients
/// that come back.
#[derive(Debug)]
pub struct DashboardEvents {
    pub sequence: u64,
    pub cursors: Json,
    pub replay: Vec<EventFrame>,
}

/// The position of the first frame behind a cursor.
pub open spec fn first_after(frames: Seq<EventFrame>, cursor: u64, from: int) -> int
    decreases frames.len() - from,
{
    if from < 0 || from >= frames.len() || frames[from].sequence > cursor {
        from
    } else {
        first_after(frames, cursor, from + 1)
    }
}

/// Whether a batch of observations holds any.
pub open spec fn has_events(result: JsonView) -> bool {
    result.get_array("events"@) matches Some(a) && a.len() > 0
}

impl DashboardEvents {
    /// Whether the frames are few enough and stand in the order of their numbers, up to the last
    /// number given.
    pub open spec fn wf(self) -> bool {
        &&& self.replay@.len() <= MAX_REPLAY
        &&& forall|i: int| 0 <= i < self.replay@.len() ==> (#[trigger] self.replay@[i]).sequence <= self.sequence
        &&& forall|i: int, k: int|
            0 <= i < k < self.replay@.len() ==> (#[trigger] self.replay@[i]).sequence <= (
            #[trigger] self.replay@[k]).sequence
        &&& self.sequence < u64::MAX ==> forall|i: int, k: int|
            0 <= i < k < self.replay@.len() ==> (#[trigger] self.replay@[i]).sequence < (
            #[trigger] self.replay@[k]).sequence
    }

    /// The events of a dashboard that has just been started.
    pub fn new() -> (r: DashboardEvents)
        ensures
            r.wf(),
            r.sequence == 0,
            r.cursors@ == JsonView::Null,
            r.replay@.len() == 0,
    {
        DashboardEvents { sequence: 0, cursors: Json::Null, replay: Vec::new() }
    }

    /// What is asked of the controller for the next batch.
    pub fn poll_params(&self) -> (r: Json)
        ensures
            r@ == JsonView::obj().plus("cursors"@, self.cursors@).plus("limit"@, JsonView::Unsigned(500)),
    {
        Json::obj().plus("cursors", self.cursors.copy()).plus("limit", Json::Unsigned(500))
    }

    /// Takes a batch of observations: the cursors move on, and where there are any observations
    /// they become a frame with the next number. Only the last frames are kept.
    pub fn take(&mut self, result: &Json)
        requires
            old(self).wf(),
        ensures
            final(self).wf(),
            final(self).cursors@ == (match result@.get("cursors"@) {
                Some(c) => c,
                None => JsonView::obj(),
            }),
            !has_events(result@) ==> final(self).sequence == old(self).sequence && final(self).replay@
                == old(self).replay@,
            has_events(result@) ==> {
                &&& final(self).sequence == (if old(self).sequence < u64::MAX {
                    (old(self).sequence + 1) as u64
                } else {
                    u64::MAX
                })
                &&& exists|frame: EventFrame|
                    frame.sequence == final(self).sequence && frame.data@ == json_text(result@) && final(self).replay@ == #[trigger] kept(old(self).replay@, frame)
            },
    {
        let some = match result.get_array("events") {
            Some(a) => a.len() > 0,
            None => false,
        };
        self.cursors = match result.get("cursors") {
            Some(c) => c.copy(),
            None => Json::obj(),
        };
        if some {
            self.sequence = self.sequence.saturating_add(1);
            let frame = EventFrame { sequence: self.sequence, data: encode(result) };
            let ghost before = self.replay@;
            self.replay.push(frame);
            if self.replay.len() > MAX_REPLAY {
                let _ = self.replay.remove(0);
                assert(self.replay@ =~= before.push(frame).skip(1));
            }
            assert(self.replay@ == kept(before, frame));
        }
    }

    /// The position of the first frame behind a cursor; the frames from there on are those that a
    /// client has not seen.
    pub fn after(&self, cursor: u64) -> (r: usize)
        requires
            self.wf(),
        ensures
            r == first_after(self.replay@, cursor, 0),
            r <= self.replay@.len(),
            forall|i: int| 0 <= i < r ==> (#[trigger] self.replay@[i]).sequence <= cursor,
            forall|i: int| r <= i < self.replay@.len() ==> (#[trigger] self.replay@[i]).sequence > cursor,
    {
        let mut i: usize = 0;
        while i < self.replay.len() && self.replay[i].sequence <= cursor
            invariant
                i <= self.replay@.len(),
                first_after(self.replay@, cursor, 0) == first_after(self.replay@, cursor, i as int),
                forall|k: int| 0 <= k < i ==> (#[trigger] self.replay@[k]).sequence <= cursor,
            decreases self.replay@.len() - i,
        {
            i += 1;
        }
        i
    }
}

/// Frames with one more, and without the oldest where there are too many.
pub open spec fn kept(frames: Seq<EventFrame>, frame: EventFrame) -> Seq<EventFrame> {
    if frames.len() >= MAX_REPLAY {
        frames.push(frame).skip(1)
    } else {
        frames.push(frame)
    }
}

/// A client that has seen every frame so far is sent the next one, that one alone, and once.
pub proof fn follower_sees_each_frame_once(events: DashboardEvents, frame: EventFrame)
    requires
        events.wf(),
        events.sequence < u64::MAX,
        frame.sequence == events.sequence + 1,
    ensures
        first_after(kept(events.replay@, frame), events.sequence, 0) == kept(events.replay@, frame).len() - 1,
        kept(events.replay@, frame).last() == frame,
        first_after(kept(events.replay@, frame), frame.sequence, 0) == kept(events.replay@, frame).len(),
{
    let all = kept(events.replay@, frame);
    let n = all.len() as int;
    assert forall|i: int| 0 <= i < n - 1 implies (#[trigger] all[i]).sequence <= events.sequence by {
        if events.replay@.len() >= MAX_REPLAY {
            assert(all[i] == events.replay@[i + 1]);
        } else {
            assert(all[i] == events.replay@[i]);
        }
    }
    assert(all[n - 1] == frame);
    lemma_first_after(all, events.sequence, 0, n - 1);
    lemma_first_after(all, frame.sequence, 0, n);
}

proof fn lemma_first_after(frames: Seq<EventFrame>, cursor: u64, from: int, at: int)
    requires
        0 <= from <= at <= frames.len(),
        forall|i: int| from <= i < at ==> (#[trigger] frames[i]).sequence <= cursor,
        at < frames.len() ==> frames[at].sequence > cursor,
    ensures
        first_after(frames, cursor, from) == at,
    decreases at - from,
{
    if from < at {
        lemma_first_after(frames, cursor, from + 1, at);
    }
}

/// A request is let in only from the local machine and with the right cookie; one that changes
/// something also needs the token that was given out with the cookie, and the right origin.
pub proof fn gate_opens_only_to_the_operator(auth: DashboardAuth, rq: HttpRequestView, now: u64)
    requires
        gate_view(auth, rq, now) is None,
    ensures
        rq.header("Host"@) matches Some(h) && ("127.0.0.1"@.is_prefix_of(h) || "localhost"@.is_prefix_of(h)
            || "[::1]"@.is_prefix_of(h)),
        rq.header("Cookie"@) matches Some(c) && exists|i: int|
            0 <= i < split_view(c, ';').len() && trim_view(#[trigger] split_view(c, ';')[i]) == "workbench_operator="@
                + auth.session@,
        rq.method == "POST"@ ==> rq.header("X-CSRF-Token"@) == Some(auth.csrf@) && rq.header("Origin"@) == Some(
            "http://"@ + rq.header("Host"@)->0,
        ),
{
}

/// The cookies of the session are given out only with the page, to a browser that opens it on this
/// machine, before the time for that is over, and not a second time.
pub proof fn cookies_are_given_to_the_first_page(auth: DashboardAuth, rq: HttpRequestView, now: u64)
    requires
        gate_view(auth, rq, now) matches Some(AnswerView::File { headers: Some(_), .. }),
    ensures
        now <= auth.bootstrap_expires_at,
        !auth.bootstrap_consumed,
        rq.path == "/"@ && rq.method == "GET"@,
        rq.header("Sec-Fetch-Dest"@) == Some("document"@),
        loopback(rq.header("Host"@)),
{
}

/// Whoever only reads changes nothing: what a request other than one that posts comes to is a look.
pub proof fn reading_changes_nothing(rq: HttpRequestView, cursors: JsonView)
    ensures
        match get_view(rq, cursors) {
            AnswerView::Call { action, .. } => action == "dashboard.snapshot"@ || action == "run.list"@ || action
                == "run.get"@ || action == "observability.query"@,
            AnswerView::Grant { .. } => false,
            AnswerView::File { .. } => false,
            AnswerView::Reply { status, .. } => status == "400 Bad Request"@ || status == "404 Not Found"@,
            AnswerView::Events { .. } => rq.path == "/api/events"@ && rq.method == "GET"@,
            AnswerView::Logs { process_id, .. } => rq.path == "/api/logs"@ && rq.method == "GET"@ && safe_name(process_id),
        },
{
}

/// A request is complete exactly when its head has ended and as many bytes follow as the head says,
/// and no request may be larger than the bound.
pub proof fn request_is_read_to_its_end(bytes: Seq<u8>)
    ensures
        bytes.len() > MAX_REQUEST_BYTES <==> reading_view(bytes) == Reading::TooLarge,
        reading_view(bytes) == Reading::Complete ==> header_end(bytes, 0) is Some && bytes.len() >= header_end(bytes, 0)->0
            + 4 + content_length_view(lossy_text(bytes.take(header_end(bytes, 0)->0))),
        bytes.len() <= MAX_REQUEST_BYTES && header_end(bytes, 0) is None ==> reading_view(bytes) == Reading::More,
{
}

/// The head of a request ends at the first empty line.
pub proof fn head_ends_at_the_first_empty_line(b: Seq<u8>, from: int)
    requires
        0 <= from,
    ensures
        match header_end(b, from) {
            Some(i) => from <= i && i + 4 <= b.len() && b.subrange(i, i + 4) == seq![13u8, 10u8, 13u8, 10u8] && forall|k: int|
                from <= k < i ==> #[trigger] b.subrange(k, k + 4) != seq![13u8, 10u8, 13u8, 10u8],
            None => forall|k: int|
                from <= k && k + 4 <= b.len() ==> #[trigger] b.subrange(k, k + 4) != seq![13u8, 10u8, 13u8, 10u8],
        },
    decreases b.len() - from,
{
    if from + 4 <= b.len() {
        let s = b.subrange(from, from + 4);
        assert(s[0] == b[from] && s[1] == b[from + 1] && s[2] == b[from + 2] && s[3] == b[from + 3]);
        if b[from] == 13 && b[from + 1] == 10 && b[from + 2] == 13 && b[from + 3] == 10 {
            assert(s =~= seq![13u8, 10u8, 13u8, 10u8]);
        } else {
            assert(s != seq![13u8, 10u8, 13u8, 10u8]) by {
                let w = seq![13u8, 10u8, 13u8, 10u8];
                assert(w[0] == 13 && w[1] == 10 && w[2] == 13 && w[3] == 10);
            }
            head_ends_at_the_first_empty_line(b, from + 1);
        }
    }
}

/// The lines that are shown are the texts among the answer, in their order, none longer than the
/// page holds.
pub proof fn shown_lines_are_texts_of_the_answer(items: Seq<JsonView>, n: int, k: int)
    requires
        0 <= n <= items.len(),
    ensures
        log_lines(items, n).len() <= n,
        0 <= k < log_lines(items, n).len() ==> (log_lines(items, n)[k] matches JsonView::Text(t) && t.len() <= 4000
            && exists|i: int| 0 <= i < n && ((#[trigger] items[i]).as_str() matches Some(s) && t.is_prefix_of(s) && (s.len()
            <= 4000 ==> t == s))),
        (forall|i: int| 0 <= i < n ==> (#[trigger] items[i]).as_str() is Some) ==> log_lines(items, n).len() == n,
    decreases n,
{
    if n > 0 {
        shown_lines_are_texts_of_the_answer(items, n - 1, k);
        if let Some(s) = items[n - 1].as_str() {
            if k == log_lines(items, n - 1).len() {
                assert(log_lines(items, n)[k] matches JsonView::Text(t) && t.is_prefix_of(s) && (s.len() <= 4000 ==> t == s));
                assert(items[n - 1].as_str() is Some);
            }
        }
    }
}

/// A grant is there only where the controller answered with its token.
pub proof fn grant_needs_a_token(called: CalledView)
    ensures
        granted_token(called) matches Ok(token) ==> (called matches CalledView::Answered(response) && response.result matches Some(
            result,
        ) && result.get_str("grantToken"@) == Some(token)),
        (called matches CalledView::Answered(response) && response.result matches Some(result) && result.get_str(
            "grantToken"@,
        ) is Some) ==> granted_token(called) is Ok,
        called matches CalledView::Unreachable(reason) ==> granted_token(called) == Err::<Seq<char>, Seq<char>>(reason),
{
}

} // verus!
