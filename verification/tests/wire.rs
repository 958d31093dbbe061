use workbench::codec::{decode, encode, sha256_bytes, sha256_str};
use workbench::json::Json;
use workbench::lines::{lines, words};
use workbench::lock::{
    command_digest, command_requires_approval, command_resources, render_capability_authority_resource, render_lock,
};
use workbench::observe::{
    current_run_id, current_trace, init_logging, lifecycle_observation_kind, log_record, request_event,
    safe_lifecycle_attributes, safe_observation_attributes, safe_summary, task_event_path, trace_of, traced_request,
    transfer_error,
};
use workbench::paths::{components, file_name, join, path_within, relative_path};
use workbench::redact::{is_sensitive, redact_sensitive_value};
use workbench::rpc::{
    action_in, call_result, controller_result, executor_result, optional_str, required_str, same_option, Called, Request,
    Response, RpcError,
};
use workbench::text::{
    concat3, eq_ignore_case, find_chars, parse_u64, replace, split, split_once, str_lt, strip_prefix, take_chars, trim,
    u64_text,
};

fn doc(text: &str) -> Json {
    decode(text.as_bytes()).unwrap()
}

fn request(action: &str, params: Json) -> Request {
    Request {
        request_id: "req_1".to_owned(),
        action: action.to_owned(),
        params,
        correlation_id: None,
        parent_request_id: None,
        run_id: Some("run_1".to_owned()),
        span_id: Some("span_1".to_owned()),
        parent_span_id: None,
        agent_session_id: None,
    }
}

#[test]
fn a_document_is_read_back_as_it_was_written() {
    let text = r#"{"a":[1,-2,true,null,"x\n"],"b":{"c":"\"d\""}}"#;
    let j = doc(text);
    assert_eq!(encode(&j), text);
    assert!(doc(&encode(&j)).same(&j));
    assert_eq!(encode(&doc(r#"{"b": 1.5, "a": 18446744073709551615}"#)), r#"{"a":18446744073709551615,"b":1.5}"#);
    assert!(decode(b"{").unwrap_err().starts_with("EOF while parsing"));
}

#[test]
fn digests_are_those_of_sha_256() {
    assert_eq!(sha256_bytes(b""), "e3b0c44298fc1c149afbf4c8996fb92427ae41e4649b934ca495991b7852b855");
    assert_eq!(sha256_str("abc"), "ba7816bf8f01cfea414140de5dae2223b00361a396177a9cb410ff61f20015ad");
}

#[test]
fn a_field_that_was_set_is_read_and_the_others_stay() {
    let mut j = doc(r#"{"a":1,"c":3}"#);
    j.set("b", Json::Unsigned(2));
    j.set("c", Json::text("three"));
    assert_eq!(encode(&j), r#"{"a":1,"b":2,"c":"three"}"#);
    assert_eq!(j.get_u64("a"), Some(1));
    assert_eq!(j.get_text("c").as_deref(), Some("three"));
    assert_eq!(j.u64_or("d", 7), 7);
    assert!(j.has("b") && !j.has("d"));
    let mut null = Json::Null;
    null.set("a", Json::opt_u64(None));
    assert_eq!(encode(&null), r#"{"a":null}"#);
    assert_eq!(encode(&j.copy_or_null("x")), "null");
    assert!(j.copy_field("x").is_none());
    assert!(doc(r#"{"t":true}"#).is_true("t"));
    assert_eq!(encode(&Json::texts(&vec!["a".to_owned(), "b".to_owned()])), r#"["a","b"]"#);
    assert_eq!(encode(&Json::opt_text(&Some("a".to_owned()))), r#""a""#);
}

#[test]
fn texts_are_cut_compared_and_put_together() {
    assert_eq!(concat3("a", "", "b"), "ab");
    assert_eq!(take_chars("äöü", 2), "äö");
    assert_eq!(strip_prefix("port:1", "port:").as_deref(), Some("1"));
    assert_eq!(strip_prefix("lease", "port:"), None);
    assert_eq!(split_once("a=b=c", '='), Some(("a".to_owned(), "b=c".to_owned())));
    assert_eq!(split("a,,b", ','), vec!["a", "", "b"]);
    assert_eq!(trim(" \t a b \n"), "a b");
    assert_eq!(u64_text(u64::MAX), "18446744073709551615");
    assert_eq!(parse_u64("18446744073709551615"), Some(u64::MAX));
    assert_eq!(parse_u64("18446744073709551616"), None);
    assert_eq!(parse_u64("+7"), Some(7));
    assert_eq!(parse_u64(""), None);
    assert!(eq_ignore_case("Content-Length", "content-length"));
    assert!(str_lt("a", "b") && str_lt("a", "aa") && !str_lt("b", "a") && !str_lt("a", "a"));
    assert_eq!(replace("a.b.c", ".", "::"), "a::b::c");
    assert_eq!(find_chars(&vec!['a', 'b', 'c'], &vec!['b', 'c'], 0), Some(1));
}

#[test]
fn lines_and_words_are_taken_apart() {
    assert_eq!(lines("a\r\nb\n\nc"), vec!["a", "b", "", "c"]);
    assert_eq!(lines("a\n"), vec!["a"]);
    assert!(lines("").is_empty());
    assert_eq!(words("  a \t b\n"), vec!["a", "b"]);
}

#[test]
fn paths_are_read_by_their_parts() {
    assert_eq!(components("/a//b/./c"), vec!["/", "a", "b", "c"]);
    assert_eq!(file_name("/a/b/"), Some("b".to_owned()));
    assert_eq!(file_name("/a/.."), None);
    assert!(path_within("/a/b/c", "/a/b"));
    assert!(path_within("/a/b", "/a/b"));
    assert!(!path_within("/a/bc", "/a/b"));
    assert_eq!(join("/a", "b"), "/a/b");
    assert_eq!(join("/a/", "b"), "/a/b");
    assert_eq!(join("/a", "/b"), "/b");
    assert!(relative_path("a/b") && !relative_path("/a"));
}

#[test]
fn secrets_are_hidden_wherever_they_stand() {
    assert!(is_sensitive("API_Token") && is_sensitive("pass-word") && !is_sensitive("tokens"));
    let hidden = redact_sensitive_value(&doc(
        r#"{"accessToken":"x","args":["--password","p","rest","has token_1 inside"],"deep":{"credential":1,"name":"n"}}"#,
    ));
    assert_eq!(
        encode(&hidden),
        r#"{"accessToken":"<redacted>","args":["--password","<redacted>","rest","<redacted>"],"deep":{"credential":"<redacted>","name":"n"}}"#
    );
    assert!(redact_sensitive_value(&hidden).same(&hidden));
}

#[test]
fn only_allowed_attributes_are_kept() {
    let kept = safe_observation_attributes(&doc(r#"{"action":"build","secretNote":"x","target":"repo"}"#));
    assert!(!encode(&kept).contains("secretNote"));
    assert_eq!(encode(&safe_observation_attributes(&Json::Unsigned(1))), "{}");
    assert_eq!(encode(&safe_summary(&doc(r#"{"taskId":"t","state":"running","token":"x"}"#))), r#"{"id":"t","state":"running","status":null}"#);
    assert!(!encode(&safe_lifecycle_attributes(&doc(r#"{"token":"x"}"#))).contains('x'));
    assert_eq!(lifecycle_observation_kind("ping"), None);
}

#[test]
fn a_trace_is_carried_on_to_the_requests_that_follow() {
    let incoming = request("task.submit", doc("{}"));
    let trace = Some(trace_of(&incoming));
    let (correlation, from) = current_trace(&trace);
    assert_eq!(from.as_deref(), Some("req_1"));
    assert_eq!(correlation.as_deref(), Some("req_1"));
    assert_eq!(current_run_id(&trace).as_deref(), Some("run_1"));
    let next = traced_request(&trace, "req_2", "process.stop", doc("{}"));
    assert_eq!(next.request_id, "req_2");
    assert_eq!(next.correlation_id.as_deref(), Some("req_1"));
    assert_eq!(next.run_id.as_deref(), Some("run_1"));
    assert_eq!(current_trace(&None), (None, None));
    assert_eq!(traced_request(&None, "req_3", "ping", Json::Null).run_id, None);
}

#[test]
fn logs_are_written_to_one_place_and_never_outside_it() {
    let mut sink = None;
    init_logging(&mut sink, "controller", "/logs/controller.jsonl");
    init_logging(&mut sink, "executor", "/logs/executor.jsonl");
    assert_eq!(sink.unwrap().component, "controller");
    assert!(task_event_path("../x").is_none());
    assert!(task_event_path("task_1").is_some());
    let record = log_record("controller", "info", "started", 5, doc(r#"{"a":1}"#));
    assert_eq!(record.get_u64("timestamp"), Some(5));
    assert_eq!(record.get_str("event"), Some("started"));
    let event = request_event(&request("ping", Json::Null), doc(r#"{"a":1}"#));
    assert_eq!(event.get_str("requestId"), Some("req_1"));
}

#[test]
fn the_error_of_a_transfer_says_how_far_it_came() {
    let e = transfer_error(RpcError::new("EXECUTOR_FAILED", "disk full"), "write", 4096, 3);
    assert_eq!((e.code.as_str(), e.message.as_str()), ("EXECUTOR_FAILED", "disk full"));
    assert_eq!(
        encode(&e.details),
        r#"{"cause":null,"chunks":3,"failureOffset":4096,"retryCount":0,"stage":"write","transferredBytes":4096}"#
    );
}

#[test]
fn templates_of_locks_are_filled_from_the_input() {
    let input = doc(r#"{"port":9222,"name":"x","deep":"${name}"}"#);
    assert_eq!(render_lock("cdp:${name}:${port}", &input).unwrap(), "cdp:x:9222");
    assert_eq!(render_lock("${deep}", &input).unwrap(), "x");
    assert_eq!(render_lock("plain", &input).unwrap(), "plain");
    let many = "${name}".repeat(300);
    assert_eq!(render_lock(&many, &input).unwrap(), "x".repeat(300));
    let e = render_lock("${gone}", &input).unwrap_err();
    assert_eq!((e.code.as_str(), e.message.as_str()), ("INVALID_LOCK_INPUT", "lock requires input field gone"));
    let e = render_lock("a${b", &input).unwrap_err();
    assert_eq!((e.code.as_str(), e.message.as_str()), ("INVALID_LOCK_TEMPLATE", "a${b"));
    let r = render_capability_authority_resource("workspace:${executorId}:${name}", "exec", &input);
    assert_eq!(r.unwrap(), "workspace:exec:x");
}

#[test]
fn commands_name_the_resources_that_they_need() {
    assert!(command_resources(&doc("{}")).unwrap().is_empty());
    assert_eq!(command_resources(&doc(r#"{"resources":["gpu"]}"#)).unwrap(), vec!["command:gpu"]);
    for (input, message) in [
        (r#"{"resources":1}"#, "command resources must be an array"),
        (r#"{"resources":[1]}"#, "command resources must be strings"),
        (r#"{"resources":[""]}"#, "command resource is empty, too long, or contains control characters"),
        (r#"{"resources":["a\u0007"]}"#, "command resource is empty, too long, or contains control characters"),
    ] {
        assert_eq!(command_resources(&doc(input)).unwrap_err().message, message);
    }
    let many = format!("{{\"resources\":[{}]}}", vec!["\"a\""; 33].join(","));
    assert_eq!(
        command_resources(&doc(&many)).unwrap_err().message,
        "command resources may contain at most 32 entries"
    );
    assert!(!command_requires_approval(&doc("{}")));
    assert!(command_requires_approval(&doc(r#"{"argv":["/bin/rm","-r"]}"#)));
    assert!(!command_requires_approval(&doc(r#"{"argv":["ls","rm"]}"#)));
    assert_eq!(
        command_digest(&doc(r#"{"cwd":"/","argv":["ls"],"other":1}"#)).unwrap(),
        sha256_str(r#"{"argv":["ls"],"cwd":"/"}"#)
    );
    assert_eq!(command_digest(&doc(r#"{"argv":["ls"]}"#)).unwrap_err().message, "cwd is required");
    assert_eq!(command_digest(&doc(r#"{"cwd":"/"}"#)).unwrap_err().message, "argv is required");
}

#[test]
fn parameters_are_asked_for_by_name() {
    let params = doc(r#"{"a":"x","b":1,"c":null}"#);
    assert_eq!(required_str(&params, "a").unwrap(), "x");
    let e = required_str(&params, "b").unwrap_err();
    assert_eq!((e.code.as_str(), e.retryable), ("INVALID_PARAMS", false));
    assert_eq!(optional_str(&params, "d").unwrap(), None);
    assert!(optional_str(&params, "b").is_err());
    assert!(action_in("driver.acquire", "driver."));
    assert!(same_option(&None, &None) && !same_option(&Some("a".to_owned()), &None));
}

#[test]
fn the_answer_of_another_node_is_read_with_its_error() {
    let ok = Called::Answered(Response::success("r", Json::Unsigned(1)));
    assert_eq!(encode(&executor_result(ok).unwrap()), "1");
    let gone = executor_result(Called::Unreachable("refused".to_owned())).unwrap_err();
    assert_eq!((gone.code.as_str(), gone.message.as_str(), gone.retryable), ("EXECUTOR_UNAVAILABLE", "refused", true));
    let failed = Response { request_id: "r".to_owned(), ok: false, result: None, error: None };
    let e = controller_result(Called::Answered(failed)).unwrap_err();
    assert_eq!((e.code.as_str(), e.message.as_str()), ("CONTROLLER_FAILED", "controller failed"));
    let own = Called::Answered(Response::failure("r", RpcError::transient("BUSY", "later")));
    let e = call_result(own, "X", false, "Y", "z").unwrap_err();
    assert_eq!((e.code.as_str(), e.retryable), ("BUSY", true));
}
