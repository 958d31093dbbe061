use workbench::codec::{decode, encode};
use workbench::dashboard::{
    answer, called_reply, event_cursor, http_response, logs_reply, parse_request, read_request, reading, with_grant, Answer,
    Asset, DashboardAuth, DashboardEvents, HttpRequest, Reading, MAX_REPLAY,
};
use workbench::json::Json;
use workbench::query::{parse_query, percent_decode, query_u64, safe_query_id};
use workbench::rpc::{Called, Response, RpcError};

fn doc(text: &str) -> Json {
    decode(text.as_bytes()).unwrap()
}

fn get(target: &str, headers: &str) -> HttpRequest {
    parse_request(&format!("GET {target} HTTP/1.1\r\nHost: 127.0.0.1:19898\r\n{headers}\r\n"))
}

fn auth() -> DashboardAuth {
    DashboardAuth::new("s", "c", 1_000)
}

fn status(a: &Answer) -> &str {
    match a {
        Answer::Reply { status, .. } => status,
        other => panic!("not a reply: {other:?}"),
    }
}

#[test]
fn dashboard_query_parser_decodes_and_rejects_unsafe_ids() {
    let query = parse_query("/api/logs?executorId=node%2Done&processId=process_1&tail=20");
    assert_eq!(safe_query_id(&query, "executorId").unwrap(), "node-one");
    assert_eq!(query_u64(&query, "tail", 1), 20);
    let unsafe_query = parse_query("/api/logs?executorId=..%2Fsecret");
    assert!(safe_query_id(&unsafe_query, "executorId").is_err());
}

#[test]
fn escapes_stand_for_bytes() {
    assert_eq!(percent_decode("a+b%20c").as_deref(), Some("a b c"));
    assert_eq!(percent_decode("%E2%80%A6").as_deref(), Some("…"));
    assert_eq!(percent_decode("%zz"), None);
    assert_eq!(percent_decode("%4"), None);
    assert_eq!(percent_decode("%41"), Some("A".to_owned()));
    assert_eq!(percent_decode("x%41"), Some("xA".to_owned()));
    assert_eq!(percent_decode("%ff%41"), None);
    assert_eq!(percent_decode("a%"), None);
    for text in ["", "a b+c%d", "path/to?x=1&y=…", "日本語"] {
        let escaped: String = text.bytes().map(|b| format!("%{b:02X}")).collect();
        assert_eq!(percent_decode(&escaped).as_deref(), Some(text));
        assert_eq!(percent_decode(&escaped.to_lowercase()).as_deref(), Some(text));
    }
    let query = parse_query("/?a=1&a=2&broken&%zz=3");
    assert_eq!(query_u64(&query, "a", 0), 2);
    assert_eq!(query_u64(&query, "b", 7), 7);
    assert_eq!(safe_query_id(&query, "b").unwrap_err(), "{\"error\":\"valid b is required\"}");
}

#[test]
fn requests_are_read_until_their_body_is_there() {
    let head = b"POST /api/operator/nonce HTTP/1.1\r\nHost: localhost\r\nContent-Length: 4\r\n\r\n".to_vec();
    assert_eq!(reading(&b"GET / HTTP/1.1\r\n".to_vec()), Reading::More);
    assert_eq!(reading(&head), Reading::More);
    let mut whole = head.clone();
    whole.extend_from_slice(b"{\"\"}");
    assert_eq!(reading(&whole), Reading::Complete);
    assert_eq!(reading(&vec![b'x'; 65_537]), Reading::TooLarge);
    let request = read_request(&whole);
    assert_eq!(request.method, "POST");
    assert_eq!(request.path, "/api/operator/nonce");
    assert_eq!(request.body, "{\"\"}");
    assert_eq!(request.header("content-LENGTH").as_deref(), Some("4"));
    assert_eq!(request.header("Cookie"), None);
}

#[test]
fn the_page_opens_a_session_once() {
    let mut a = auth();
    let page = get("/", "Sec-Fetch-Dest: document\r\n");
    match answer(&mut a, &page, 2_000) {
        Answer::File { asset: Asset::Page, headers: Some(cookies), .. } => {
            assert!(cookies.contains("workbench_operator=op_s; HttpOnly"));
            assert!(cookies.contains("workbench_csrf=csrf_c;"));
        }
        other => panic!("no session: {other:?}"),
    }
    assert_eq!(status(&answer(&mut a, &page, 2_001)), "401 Unauthorized");
    let mut late = auth();
    assert_eq!(status(&answer(&mut late, &page, 61_001)), "401 Unauthorized");
    assert!(!late.bootstrap_consumed);
    assert!(matches!(answer(&mut late, &get("/", ""), 61_001), Answer::File { headers: None, .. }));
}

#[test]
fn only_the_session_on_this_machine_is_served() {
    let mut a = auth();
    let elsewhere = parse_request("GET /api/snapshot HTTP/1.1\r\nHost: example.org\r\n\r\n");
    assert_eq!(status(&answer(&mut a, &elsewhere, 1)), "403 Forbidden");
    assert_eq!(status(&answer(&mut a, &get("/api/snapshot", ""), 1)), "401 Unauthorized");
    let known = "Cookie: x=1; workbench_operator=op_s\r\n";
    match answer(&mut a, &get("/api/snapshot", known), 1) {
        Answer::Call { action, whole, .. } => assert_eq!((action.as_str(), whole), ("dashboard.snapshot", false)),
        other => panic!("not served: {other:?}"),
    }
    assert_eq!(status(&answer(&mut a, &get("/nowhere", known), 1)), "404 Not Found");
    assert_eq!(status(&answer(&mut a, &get("/api/run?runId=..%2F", known), 1)), "400 Bad Request");
    match answer(&mut a, &get("/api/runs?limit=900&offset=3&status=running", known), 1) {
        Answer::Call { action, params, .. } => {
            assert_eq!(action, "run.list");
            assert_eq!(encode(&params), r#"{"limit":200,"offset":3,"status":"running"}"#);
        }
        other => panic!("not served: {other:?}"),
    }
    match answer(&mut a, &get("/api/observations?runId=r1&cursors=%7B%22n%22%3A4%7D", known), 1) {
        Answer::Call { params, .. } => {
            assert_eq!(encode(&params), r#"{"cursors":{"n":4},"limit":500,"runId":"r1"}"#)
        }
        other => panic!("not served: {other:?}"),
    }
    match answer(&mut a, &get("/api/logs?executorId=e&processId=p&tail=0", known), 1) {
        Answer::Logs { process_id, params } => {
            assert_eq!(process_id, "p");
            assert_eq!(
                encode(&params),
                r#"{"action":"logs.read","executorId":"e","params":{"processId":"p","tail":1}}"#
            );
        }
        other => panic!("not served: {other:?}"),
    }
}

#[test]
fn changes_come_from_the_page_itself() {
    let mut a = auth();
    let post = |headers: &str, path: &str, body: &str| {
        parse_request(&format!(
            "POST {path} HTTP/1.1\r\nHost: localhost:1\r\nCookie: workbench_operator=op_s\r\n{headers}\r\n{body}"
        ))
    };
    let own = "Origin: http://localhost:1\r\nX-CSRF-Token: csrf_c\r\n";
    let refused = answer(&mut a, &post("Origin: http://localhost:1\r\n", "/api/operator/nonce", "{}"), 1);
    assert_eq!(status(&refused), "403 Forbidden");
    match answer(&mut a, &post(own, "/api/operator/nonce", r#"{"target":"t"}"#), 1) {
        Answer::Grant { action, params } => {
            assert_eq!(action, "operator.nonce");
            let granted = Called::Answered(Response::success("r", doc(r#"{"grantToken":"g"}"#)));
            let with = with_grant(params, &granted).unwrap();
            assert_eq!(encode(&with), r#"{"grantToken":"g","target":"t"}"#);
            let refused = Called::Answered(Response::failure("r", RpcError::new("X", "no")));
            assert_eq!(with_grant(Json::obj(), &refused).unwrap_err(), "controller rejected operator grant");
        }
        other => panic!("no grant asked for: {other:?}"),
    }
    let nonce = answer(&mut a, &post(own, "/api/operator/action", r#"{"actionNonce":"n"}"#), 1);
    assert!(matches!(nonce, Answer::Call { whole: true, .. }));
    let broken = answer(&mut a, &post(own, "/api/operator/action", "not json"), 1);
    assert!(matches!(broken, Answer::Grant { .. }));
    assert_eq!(status(&answer(&mut a, &post(own, "/api/other", "{}"), 1)), "404 Not Found");
}

#[test]
fn answers_are_passed_on() {
    let fine = Called::Answered(Response::success("r", doc(r#"{"a":1}"#)));
    match called_reply(&fine, "whole", false) {
        Answer::Reply { status, body, .. } => assert_eq!((status.as_str(), body.as_str()), ("200 OK", "{\"a\":1}")),
        other => panic!("no reply: {other:?}"),
    }
    let bad = Called::Answered(Response::failure("r", RpcError::new("X", "no")));
    assert_eq!(status(&called_reply(&bad, "whole", false)), "503 Service Unavailable");
    assert_eq!(status(&called_reply(&bad, "whole", true)), "200 OK");
    match called_reply(&Called::Unreachable("gone".into()), "", true) {
        Answer::Reply { body, .. } => assert_eq!(body, "{\"error\":\"gone\"}"),
        other => panic!("no reply: {other:?}"),
    }
    let long = "x".repeat(5_000);
    let logs = Called::Answered(Response::success("r", doc(&format!("{{\"lines\":[\"{long}\",7,\"b\"]}}"))));
    match logs_reply("p", &logs, "") {
        Answer::Reply { body, .. } => {
            assert_eq!(body, format!("{{\"lines\":[\"{}\",\"b\"],\"processId\":\"p\"}}", "x".repeat(4_000)))
        }
        other => panic!("no reply: {other:?}"),
    }
    let text = http_response("200 OK", "text/plain", "…", &Some("X: y\r\n".to_owned()));
    assert!(text.starts_with("HTTP/1.1 200 OK\r\nContent-Type: text/plain\r\n"));
    assert!(text.ends_with("X: y\r\nContent-Length: 3\r\nConnection: close\r\n\r\n…"));
}

#[test]
fn events_are_replayed_from_a_cursor() {
    let mut events = DashboardEvents::new();
    assert_eq!(encode(&events.poll_params()), r#"{"cursors":null,"limit":500}"#);
    events.take(&doc(r#"{"cursors":{"n":1},"events":[]}"#));
    assert_eq!((events.sequence, events.replay.len()), (0, 0));
    events.take(&doc(r#"{"cursors":{"n":2},"events":[{"a":1}]}"#));
    events.take(&doc(r#"{"events":[{"a":2}]}"#));
    assert_eq!(encode(&events.poll_params()), r#"{"cursors":{},"limit":500}"#);
    assert_eq!(events.after(0), 0);
    assert_eq!(events.after(1), 1);
    assert_eq!(events.after(2), 2);
    assert_eq!(events.replay[1].text(), "id: 2\nevent: observations\ndata: {\"events\":[{\"a\":2}]}\n\n");
    for _ in 0..MAX_REPLAY {
        events.take(&doc(r#"{"events":[1]}"#));
    }
    assert_eq!(events.replay.len(), MAX_REPLAY);
    assert_eq!(events.replay[0].sequence, 3);
    assert_eq!(event_cursor(&get("/api/events?cursor=7", "")), 7);
    assert_eq!(event_cursor(&get("/api/events?cursor=7", "Last-Event-ID: 9\r\n")), 9);
    assert_eq!(event_cursor(&get("/api/events", "Last-Event-ID: x\r\n")), 0);
}
