use workbench::actions::{parse_action, Action};
use workbench::cli::{
    codex_hook_state_path, default_controller_socket, default_controller_state, default_executor_socket,
    default_executor_state, default_log_dir, invalid_request, log_target, now_millis, pipe_name, platform_state_home,
    run_cli, run_request, state_home, windows_service_kind, Command, Plan, RunCommand, WindowsServiceKind,
};
use workbench::codec::{decode, encode, sha256_str};
use workbench::computer_use::{asked, closed, requests, requests_of_text, ComputerUseCommand};
use workbench::hook::{can_note_tool, event_of, hook_duration_ms, hook_memory, hook_request, session_of, Memory};
use workbench::json::Json;
use workbench::logs::{log_components, parse_records, select_logs, task_correlation, wants, LogFilter};
use workbench::rpc::{Called, Response, RpcError};

fn doc(text: &str) -> Json {
    decode(text.as_bytes()).unwrap()
}

fn filter() -> LogFilter {
    LogFilter {
        component: None,
        correlation_id: None,
        request_id: None,
        task_id: None,
        connection_id: None,
        since_ms: None,
        tail: 100,
    }
}

#[test]
fn files_are_kept_below_the_state_home() {
    assert_eq!(platform_state_home(&Some("/state".to_owned()), "/home/u"), "/state");
    assert_eq!(platform_state_home(&None, "/home/u"), "/home/u/.local/state");
    assert_eq!(state_home("/s"), "/s/distributed-workbench");
    assert_eq!(default_log_dir("/s"), "/s/distributed-workbench/logs");
    assert_eq!(default_controller_state("/s"), "/s/distributed-workbench/controller.json");
    assert_eq!(default_executor_state("/s"), "/s/distributed-workbench/executor-fences.json");
    assert_ne!(default_controller_socket("/s"), default_executor_socket("/s"));
    assert_eq!(now_millis(1_500), 1_500);
}

#[test]
fn the_file_of_a_session_stays_in_its_directory() {
    assert_eq!(codex_hook_state_path("/s", "../../etc/pa ss"), "/s/distributed-workbench/codex-runs/etcpass.json");
    let long = "a".repeat(200);
    assert_eq!(
        codex_hook_state_path("/s", &long),
        format!("/s/distributed-workbench/codex-runs/{}.json", "a".repeat(128))
    );
}

#[test]
fn pipes_are_named_by_the_digest_of_the_path_in_small_letters() {
    let name = pipe_name("C:\\State\\Controller.sock");
    assert_eq!(
        name,
        format!("\\\\.\\pipe\\distributed-workbench-{}", sha256_str("c:\\state\\controller.sock"))
    );
    assert_eq!(name, pipe_name("c:\\STATE\\controller.SOCK"));
}

#[test]
fn a_request_that_cannot_be_read_is_refused() {
    let r = invalid_request("expected value");
    assert!(!r.ok);
    assert_eq!(r.error.unwrap().code, "INVALID_REQUEST");
}

#[test]
fn commands_come_to_plans_with_the_usual_files() {
    match run_cli(Command::Status, None, "/s") {
        Plan::Ask { socket, action, params } => {
            assert_eq!(socket, default_controller_socket("/s"));
            assert_eq!((action.as_str(), encode(&params).as_str()), ("status", "null"));
        }
        other => panic!("{other:?}"),
    }
    match run_cli(Command::Call { action: "ping".to_owned(), params: "{\"a\":1}".to_owned() }, Some("/x".to_owned()), "/s") {
        Plan::Ask { socket, action, params } => {
            assert_eq!((socket.as_str(), action.as_str()), ("/x", "ping"));
            assert_eq!(encode(&params), "{\"a\":1}");
        }
        other => panic!("{other:?}"),
    }
    assert!(matches!(
        run_cli(Command::Call { action: "ping".to_owned(), params: "{".to_owned() }, None, "/s"),
        Plan::Refuse(_)
    ));
    let controller = Command::Controller { state: None, id: Some("c".to_owned()) };
    assert!(matches!(windows_service_kind(&controller), Some(WindowsServiceKind::Controller)));
    assert_eq!(
        log_target(&controller, "/s"),
        Some(("controller".to_owned(), "/s/distributed-workbench/logs/controller.jsonl".to_owned()))
    );
    assert!(log_target(&Command::Status, "/s").is_none());
    match run_cli(controller, None, "/s") {
        Plan::Controller { state, id, .. } => {
            assert_eq!(state, default_controller_state("/s"));
            assert_eq!(id.as_deref(), Some("c"));
        }
        other => panic!("{other:?}"),
    }
}

#[test]
fn the_commands_of_runs_are_requests() {
    let (action, params) = run_request(RunCommand::Finish {
        run_id: "run_1".to_owned(),
        status: "completed".to_owned(),
        business_outcome: None,
    });
    assert_eq!(action, "run.finish");
    assert_eq!(encode(&params), r#"{"businessOutcome":null,"runId":"run_1","status":"completed"}"#);
    let (action, _) = run_request(RunCommand::Status { run_id: None, limit: 5 });
    assert_eq!(action, "run.list");
    let (action, _) = run_request(RunCommand::Status { run_id: Some("run_1".to_owned()), limit: 5 });
    assert_eq!(action, "run.get");
}

#[test]
fn every_action_is_known_by_its_name_and_no_other() {
    assert_eq!(parse_action("ping").unwrap(), Action::Ping);
    assert_eq!(parse_action("driver.handoff.await").unwrap(), Action::DriverHandoffAwait);
    let e = parse_action("Ping").unwrap_err();
    assert_eq!((e.code.as_str(), e.message.as_str()), ("UNKNOWN_ACTION", "unknown action: Ping"));
}

#[test]
fn a_hook_starts_follows_and_ends_a_run() {
    let prompt = doc(r#"{"hook_event_name":"UserPromptSubmit","session_id":"s"}"#);
    assert_eq!(event_of(&prompt), "UserPromptSubmit");
    assert_eq!(session_of(&prompt).as_deref(), Some("s"));
    let (action, params) = hook_request(&prompt, &Json::Null, "local", 1);
    assert_eq!(action, "run.start");
    assert_eq!(
        encode(&params),
        r#"{"agentSessionId":"s","createdBy":"codex-hook","runId":null,"targetSummary":"Codex agent task"}"#
    );
    let stored = match hook_memory(&prompt, &None, &Some(doc(r#"{"runId":"run_1"}"#)), 2) {
        Memory::Write(j) => j,
        other => panic!("{other:?}"),
    };
    assert_eq!(encode(&stored), r#"{"runId":"run_1","startedAt":2}"#);

    let before = doc(r#"{"hook_event_name":"PreToolUse","session_id":"s","tool_use_id":"t1","tool_name":"Bash","cwd":"/a/repo"}"#);
    let (action, params) = hook_request(&before, &stored, "local", 3);
    assert_eq!(action, "observation.append");
    assert_eq!(params.get_str("kind"), Some("agent-tool"));
    assert_eq!(params.get_str("status"), Some("running"));
    assert_eq!(params.get_str("runId"), Some("run_1"));
    assert_eq!(encode(params.get("attributes").unwrap()), r#"{"action":"Bash","targetRepo":"repo"}"#);
    let kept = Some(stored);
    assert!(can_note_tool(&before, &kept));
    let noted = match hook_memory(&before, &kept, &None, 3) {
        Memory::Write(j) => j,
        other => panic!("{other:?}"),
    };
    assert_eq!(encode(&noted), r#"{"runId":"run_1","startedAt":2,"tools":{"t1":3}}"#);
    let after = doc(r#"{"hook_event_name":"PostToolUse","session_id":"s","tool_use_id":"t1"}"#);
    assert_eq!(hook_duration_ms(&after, &noted, "PostToolUse", 10), Some(7));
    assert_eq!(hook_duration_ms(&after, &noted, "PreToolUse", 10), None);

    let stop = doc(r#"{"hook_event_name":"Stop","session_id":"s"}"#);
    let (action, params) = hook_request(&stop, &noted, "local", 11);
    assert_eq!(action, "run.finish");
    assert_eq!(encode(&params), r#"{"runId":"run_1","status":"completed"}"#);
    assert!(matches!(hook_memory(&stop, &Some(noted), &None, 11), Memory::Forget));
    assert_eq!(event_of(&doc("{}")), "ToolEvent");
    assert_eq!(hook_request(&stop, &Json::Null, "local", 1).0, "observation.append");
}

#[test]
fn a_hook_state_that_is_no_object_takes_no_tool() {
    let before = doc(r#"{"hook_event_name":"PreToolUse","session_id":"s","tool_use_id":"t1"}"#);
    assert!(!can_note_tool(&before, &Some(doc("[1]"))));
    assert!(!can_note_tool(&before, &Some(doc(r#"{"tools":1}"#))));
    assert!(can_note_tool(&before, &None));
}

#[test]
fn records_of_the_log_are_chosen_and_ordered() {
    assert_eq!(log_components(&None), vec!["controller", "executor", "peer"]);
    assert_eq!(log_components(&Some("peer".to_owned())), vec!["peer"]);
    let texts = vec![
        r#"{"timestamp":3,"data":"req_a"}"#.to_owned(),
        "not json".to_owned(),
        r#"{"timestamp":1,"data":"req_b task_1"}"#.to_owned(),
        r#"{"data":"none"}"#.to_owned(),
    ];
    let records = parse_records(&texts);
    assert_eq!(records.len(), 3);
    let shown: Vec<String> = select_logs(&records, &filter(), &None).iter().map(encode).collect();
    assert_eq!(
        shown,
        vec![r#"{"data":"none"}"#, r#"{"data":"req_b task_1","timestamp":1}"#, r#"{"data":"req_a","timestamp":3}"#]
    );
    let mut f = filter();
    f.tail = 1;
    assert_eq!(select_logs(&records, &f, &None).len(), 1);
    f.tail = 10;
    f.since_ms = Some(2);
    assert_eq!(select_logs(&records, &f, &None).len(), 1);
    f.since_ms = None;
    f.request_id = Some("req_b".to_owned());
    assert_eq!(select_logs(&records, &f, &None).len(), 1);
    f.request_id = None;
    f.task_id = Some("task_9".to_owned());
    assert_eq!(select_logs(&records, &f, &None).len(), 0);
    assert_eq!(select_logs(&records, &f, &Some("req_a".to_owned())).len(), 1);
    assert!(wants(&records[0], "req_a", &filter(), &None));
    let state = doc(r#"{"tasks":[{"id":"task_9","correlationId":"req_a"}]}"#);
    assert_eq!(task_correlation(&state, "task_9").as_deref(), Some("req_a"));
    assert_eq!(task_correlation(&state, "task_8"), None);
}

#[test]
fn closing_a_desktop_ends_the_plugin_before_the_lease() {
    let close = ComputerUseCommand::Close {
        executor: "e".to_owned(),
        owner: "o".to_owned(),
        token: "t".to_owned(),
    };
    let asks = requests(&close, Json::obj()).unwrap();
    assert_eq!(asks.iter().map(|a| a.action.as_str()).collect::<Vec<_>>(), vec!["executor.call", "lease.release"]);
    assert_eq!(encode(&asks[1].params), r#"{"owner":"o","resource":"computer-use:e","token":"t"}"#);
    let call = ComputerUseCommand::Call {
        executor: "e".to_owned(),
        owner: "o".to_owned(),
        token: "t".to_owned(),
        tool: "click".to_owned(),
        arguments: "{\"x\":1}".to_owned(),
    };
    let asks = requests_of_text(&call, "{\"x\":1}").unwrap();
    assert_eq!(
        encode(&asks[0].params),
        r#"{"action":"computer-use.call","executorId":"e","leaseResource":"computer-use:e","owner":"o","params":{"arguments":{"x":1},"sessionId":"o","tool":"click"},"token":"t"}"#
    );
    assert_eq!(requests_of_text(&call, "[1]").unwrap_err(), "tool arguments must be a JSON object");
    assert!(requests_of_text(&call, "{").is_err());
}

#[test]
fn the_answers_of_a_desktop_are_read() {
    let fine = Called::Answered(Response::success("r", Json::Unsigned(1)));
    assert_eq!(encode(&asked(fine).unwrap()), "1");
    let failed = Called::Answered(Response::failure("r", RpcError::new("LEASE_ACTIVE", "busy")));
    assert!(asked(failed).unwrap_err().contains("busy"));
    let ended = Called::Answered(Response::success("r", Json::Unsigned(1)));
    let released = Called::Answered(Response::success("r", Json::Unsigned(2)));
    assert!(closed(ended, released).is_ok());
    let ended = Called::Unreachable("gone".to_owned());
    let released = Called::Answered(Response::success("r", Json::Unsigned(2)));
    assert!(closed(ended, released).is_err());
}
