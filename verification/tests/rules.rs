use workbench::actions::{parse_action, Action};
use workbench::codec::{decode, encode};
use workbench::controller::async_maximum;
use workbench::dashboard::{event_stream_head, grant_params, too_large, Answer};
use workbench::execution::{after_call, AfterCall};
use workbench::handoff::{create_handoff, list_handoffs, report_handoff};
use workbench::json::Json;
use workbench::lease::{Fence, LeaseError, LeaseTable};
use workbench::observe::task_observation;
use workbench::operator::{asked_before, forced_observation, plain_observation, plan_forced, OperatorNonce, OperatorPlan};
use workbench::redact::redacted_task;
use workbench::rpc::{Called, Response, RpcError};
use workbench::runs::{observability_rpc_error, prune_batch, prune_goes_on, reached_cursor, RunError};
use workbench::schema::{AgentRoleRef, Handoff, HandoffKind, LeaseKind, TaskFailure, TaskState};
use workbench::session::of_session;
use workbench::task::{scoped_idempotency_key, TaskTable};
use workbench::windows::{inspect_script, INSPECT_TEMPLATE};

fn doc(text: &str) -> Json {
    decode(text.as_bytes()).unwrap()
}

fn answered(text: &str) -> Called {
    Called::Answered(Response::success("r", doc(text)))
}

#[test]
fn an_offered_lease_goes_to_the_one_it_is_offered_to() {
    let mut leases = LeaseTable::new();
    let first = leases.acquire(LeaseKind::Driver, "r", "a", 1_000, 10, "l1", "t1").unwrap();
    assert_eq!((first.fence, first.expires_at), (1, 1_010));
    assert!(matches!(leases.take_handoff("r", "b", 500, 20, "l2", "t2"), Err(LeaseError::InvalidHandoff)));
    assert_eq!(leases.request_handoff("r", "b", 30).unwrap().handoff_to.as_deref(), Some("b"));
    assert!(matches!(leases.request_handoff("r", "c", 31), Err(LeaseError::InvalidHandoff)));
    assert!(matches!(leases.cancel_handoff("r", "c", 32), Err(LeaseError::InvalidHandoff)));
    assert_eq!(leases.cancel_handoff("r", "b", 33).unwrap().handoff_to, None);
    leases.handoff("r", "a", "t1", "b", 34).unwrap();
    let second = leases.take_handoff("r", "b", 500, 40, "l2", "t2").unwrap();
    assert_eq!((second.owner.as_str(), second.token.as_str(), second.fence, second.expires_at), ("b", "t2", 2, 540));
    assert!(matches!(leases.validate("r", "a", "t1", 41), Err(LeaseError::OwnedByOther)));
    assert_eq!(leases.validate("r", "b", "t2", 41).unwrap().id, "l2");
    assert!(matches!(leases.validate("r", "b", "t2", 540), Err(LeaseError::NotFound)));
    assert!(leases.reap_expired(539).is_empty());
    assert_eq!(leases.reap_expired(540).len(), 1);
    assert!(leases.get("r").is_none());
    assert!(matches!(leases.request_handoff("r", "b", 541), Err(LeaseError::NotFound)));
    let third = leases.acquire(LeaseKind::Driver, "r", "c", 1, 600, "l3", "t3").unwrap();
    assert_eq!(third.fence, 3);
    let (kept, fences) = (leases.snapshot(), leases.fences.clone());
    assert_eq!(LeaseTable::from_snapshot(kept, fences).fence_of("r"), 3);
}

#[test]
fn an_invocation_waits_for_what_it_started() {
    let ask = doc(r#"{"processId":"p","waitReady":true,"timeoutMs":7}"#);
    match after_call("process.start", &ask, answered(r#"{"readiness":{"state":"ready"}}"#)) {
        AfterCall::Done(j) => assert_eq!(encode(&j), r#"{"readiness":{"state":"ready"}}"#),
        _ => panic!("a ready process is done"),
    }
    match after_call("process.start", &ask, answered(r#"{"readiness":{"state":"pending"}}"#)) {
        AfterCall::WaitForProcess(j) => assert_eq!(j.get_str("processId"), Some("p")),
        _ => panic!("a pending process is waited for"),
    }
    match after_call("tunnel.ensure", &doc(r#"{"tunnelId":"t","waitReady":true}"#), answered("{}")) {
        AfterCall::WaitForTunnel(j) => assert_eq!(j.get_str("processId"), Some("tunnel-t")),
        _ => panic!("a tunnel is waited for"),
    }
    match after_call("process.start", &doc(r#"{"waitReady":true}"#), answered("{}")) {
        AfterCall::Failed(e, state) => {
            assert_eq!((e.code.as_str(), state), ("INVALID_PARAMS", TaskState::Failed));
        }
        _ => panic!("a process needs a name"),
    }
    match after_call("process.start", &doc(r#"{"waitReady":1}"#), answered("[]")) {
        AfterCall::Done(j) => assert_eq!(encode(&j), "[]"),
        _ => panic!("nothing is waited for unless asked"),
    }
    match after_call("x", &ask, Called::Answered(Response::failure("r", RpcError::new("NO", "no")))) {
        AfterCall::Failed(e, state) => assert_eq!((e.code.as_str(), state), ("NO", TaskState::Failed)),
        _ => panic!("a refusal fails the task"),
    }
}

#[test]
fn every_action_has_its_own_name() {
    for name in ["ping", "status", "task.list", "task.wait", "lease.renew", "handoff.complete"] {
        assert!(parse_action(name).is_ok());
    }
    assert_eq!(parse_action("task.wait").unwrap(), Action::TaskWait);
    assert_eq!(parse_action("task.list").unwrap(), Action::TaskList);
    let e = parse_action("task.eat").unwrap_err();
    assert_eq!((e.code.as_str(), e.message.as_str()), ("UNKNOWN_ACTION", "unknown action: task.eat"));
}

#[test]
fn a_store_that_is_too_large_is_pruned_in_batches() {
    assert_eq!((prune_batch(0), prune_batch(19), prune_batch(20), prune_batch(1_000)), (1, 1, 2, 100));
    assert!(prune_goes_on(11, 10, None) && prune_goes_on(11, 10, Some(3)));
    assert!(!prune_goes_on(10, 10, None) && !prune_goes_on(11, 10, Some(0)) && !prune_goes_on(10, 10, Some(3)));
}

#[test]
fn small_decisions_are_exact() {
    let limit = |text: &str| async_maximum(&Some(text.to_owned()));
    assert_eq!((async_maximum(&None), limit("0"), limit("x"), limit("-1"), limit("7")), (32, 32, 32, 32, 7));
    assert_eq!(encode(&asked_before(&nonce("cancel-task")).unwrap()), r#"{"taskId":"x"}"#);
    assert!(asked_before(&nonce("stop-process")).is_none());
    let events = vec![plain_observation("node", &doc("{}"), "a", "op", "x", 1).unwrap()];
    assert_eq!((reached_cursor(&events, Some(9)), reached_cursor(&Vec::new(), Some(9))), (0, 9));
    assert_eq!(reached_cursor(&Vec::new(), None), 0);
}

fn nonce(action: &str) -> OperatorNonce {
    OperatorNonce {
        id: "n".to_owned(),
        operator_id: "op".to_owned(),
        action: action.to_owned(),
        target: "x".to_owned(),
        reason: "stuck".to_owned(),
        expires_at: 9,
    }
}

#[test]
fn a_forced_action_is_carried_out_and_observed() {
    match plan_forced(&nonce("cancel-task"), &doc("{}")).unwrap() {
        OperatorPlan::Serve { operator_id, action, params } => {
            assert_eq!((operator_id.as_str(), action.as_str()), ("op", "task.cancel"));
            assert_eq!(encode(&params), r#"{"_operatorAuthorized":true,"taskId":"x"}"#);
        }
        other => panic!("{other:?}"),
    }
    match plan_forced(&nonce("stop-process"), &doc(r#"{"executorId":"e"}"#)).unwrap() {
        OperatorPlan::Call { executor_id, action, params, .. } => {
            assert_eq!((executor_id.as_str(), action.as_str()), ("e", "process.stop"));
            assert_eq!(encode(&params), r#"{"processId":"x"}"#);
        }
        other => panic!("{other:?}"),
    }
    assert_eq!(plan_forced(&nonce("stop-process"), &doc("{}")).unwrap_err().code, "INVALID_PARAMS");
    let seen = forced_observation(
        "node",
        &doc(r#"{"runId":"run"}"#),
        &nonce("stop-process"),
        &Json::Null,
        &doc(r#"{"state":"stopped"}"#),
        5,
    )
    .unwrap();
    assert_eq!((seen.role.as_str(), seen.kind.as_str(), seen.name.as_str()), ("operator", "operator-action", "stop-process"));
    assert_eq!((seen.process_id.as_deref(), seen.task_id.as_deref()), (Some("x"), None));
    assert_eq!(seen.run_id.as_deref(), Some("run"));
    assert_eq!(seen.attributes.get_str("reason"), Some("stuck"));
    let plain = plain_observation("node", &doc("{}"), "retry-task", "op", "x", 6).unwrap();
    assert_eq!((plain.timestamp, plain.run_id), (6, None));
    assert_eq!(encode(&plain.attributes), r#"{"operatorId":"op","target":"x"}"#);
    let wrong = plain_observation("node", &doc(r#"{"runId":1}"#), "retry-task", "op", "x", 6).unwrap_err();
    assert_eq!(wrong.code, "INVALID_PARAMS");
}

fn handoff(id: &str, kind: HandoffKind, to: &str) -> Handoff {
    Handoff {
        id: id.to_owned(),
        kind,
        workspace_session_id: "w".to_owned(),
        objective: "o".to_owned(),
        from: AgentRoleRef { agent_id: None, role: "dev".to_owned() },
        to: AgentRoleRef { agent_id: Some(to.to_owned()), role: "qa".to_owned() },
        artifacts: Vec::new(),
        evidence: Vec::new(),
        completed_actions: Vec::new(),
        pending_actions: Vec::new(),
        acceptance_criteria: Vec::new(),
        constraints: Vec::new(),
        blockers: Vec::new(),
        created_at: 1,
        acknowledged_at: None,
        completed_at: None,
        report: None,
    }
}

#[test]
fn only_an_acceptance_is_reported_on() {
    let mut items = Vec::new();
    create_handoff(&mut items, handoff("work", HandoffKind::Work, "a"), 1, "h1");
    create_handoff(&mut items, handoff("check", HandoffKind::Acceptance, "b"), 1, "h2");
    assert_eq!(list_handoffs(&items, &doc("{}")), vec![0, 1]);
    assert_eq!(list_handoffs(&items, &doc(r#"{"kind":"acceptance"}"#)), vec![1]);
    assert_eq!(list_handoffs(&items, &doc(r#"{"agentId":"a"}"#)), vec![0]);
    assert_eq!(list_handoffs(&items, &doc(r#"{"agentId":"a","kind":"acceptance"}"#)), Vec::<usize>::new());
    let mut leases = LeaseTable::new();
    leases.acquire(LeaseKind::Resource, "acceptance:e:1", "b", 100, 1, "l", "t").unwrap();
    let report = |id: &str, resource: &str, token: &str| {
        doc(&format!(
            r#"{{"handoffId":"{id}","acceptanceResource":"{resource}","owner":"b","leaseToken":"{token}","report":{{"ok":true}}}}"#
        ))
    };
    let work = items[0].id.clone();
    let check = items[1].id.clone();
    let refused = |items: &mut Vec<Handoff>, params: &Json| report_handoff(items, &leases, params, 2).unwrap_err().code;
    assert_eq!(refused(&mut items, &report(&check, "port:1", "t")), "INVALID_ACCEPTANCE_RESOURCE");
    assert_eq!(refused(&mut items, &report("none", "acceptance:e:1", "t")), "HANDOFF_NOT_FOUND");
    assert_eq!(refused(&mut items, &report(&work, "acceptance:e:1", "t")), "INVALID_HANDOFF_KIND");
    assert!(report_handoff(&mut items, &leases, &report(&check, "acceptance:e:1", "other"), 2).is_err());
    assert!(items[1].report.is_none());
    assert_eq!(report_handoff(&mut items, &leases, &report(&check, "acceptance:e:1", "t"), 2).unwrap(), 1);
    assert_eq!(encode(items[1].report.as_ref().unwrap()), r#"{"ok":true}"#);
    assert_eq!(of_session(&items, "w"), vec![0, 1]);
    assert_eq!(of_session(&items, "v"), Vec::<usize>::new());
}

#[test]
fn a_task_is_observed_and_shown_without_its_secrets() {
    let mut tasks = TaskTable::new();
    let input = doc(r#"{"processId":"p","leaseToken":"secret"}"#);
    let (mut task, reused) =
        tasks.submit_traced("w", "e", "process.start", input, "k", Some("c".to_owned()), Some("q".to_owned()), 3, "t");
    assert!(!reused);
    assert_eq!(scoped_idempotency_key("w", "e", "c", "k"), "w\0e\0c\0k");
    let seen = task_observation("node", None, &task, 4);
    assert_eq!((seen.kind.as_str(), seen.name.as_str(), seen.status.as_str()), ("task-state", "process.start", "queued"));
    assert_eq!((seen.process_id.as_deref(), seen.request_id.as_deref()), (Some("p"), Some("q")));
    assert_eq!(encode(&seen.attributes), r#"{"capability":"process.start","targetNode":"e"}"#);
    task.error = Some(TaskFailure {
        code: "C".to_owned(),
        message: "lease token_1 ended".to_owned(),
        retryable: false,
        details: Json::Null,
    });
    let shown = redacted_task(&task);
    assert_eq!(shown.error.unwrap().message, "<redacted>");
    assert_eq!(shown.input.get_str("processId"), Some("p"));
    assert!(!encode(&shown.input).contains("secret"));
    assert_eq!(shown.id, task.id);
}

#[test]
fn fixed_answers_are_what_they_say() {
    match too_large() {
        Answer::Reply { status, body, .. } => {
            assert_eq!((status.as_str(), body.as_str()), ("413 Payload Too Large", r#"{"error":"request too large"}"#));
        }
        other => panic!("{other:?}"),
    }
    assert_eq!(encode(&grant_params()), r#"{"operatorId":"dashboard","ttlMs":60000}"#);
    assert!(event_stream_head().starts_with("HTTP/1.1 200 OK\r\nContent-Type: text/event-stream\r\n"));
    assert_eq!(observability_rpc_error(&RunError::Store("disk full".to_owned())).message, "disk full");
    let script = inspect_script(INSPECT_TEMPLATE, "C:\\a'b.exe", "", "C:\\out.json");
    assert!(script.contains("GetFullPath('C:\\a''b.exe')"));
    assert!(script.contains("WriteAllText('C:\\out.json',"));
    assert!(!script.contains("@TARGET@") && !script.contains("@EXPECTED@") && !script.contains("@OUTPUT@"));
}

#[test]
fn a_table_of_leases_is_read_from_records_in_any_order() {
    let lease = |resource: &str, owner: &str, fence: u64| {
        let mut leases = LeaseTable::new();
        let mut l = leases.acquire(LeaseKind::Driver, resource, owner, 1_000, 1, "l", "t").unwrap();
        l.fence = fence;
        l
    };
    let fence = |resource: &str, fence: u64| Fence { resource: resource.to_owned(), fence };
    let table = LeaseTable::from_snapshot(
        vec![lease("b", "one", 9), lease("a", "two", 4), lease("b", "three", 7)],
        vec![fence("b", 3), fence("a", 6), fence("c", 2), fence("a", 5)],
    );
    assert_eq!(table.get("b").unwrap().owner, "three");
    assert_eq!(table.get("a").unwrap().owner, "two");
    assert!(table.get("c").is_none());
    assert_eq!((table.fence_of("a"), table.fence_of("b"), table.fence_of("c"), table.fence_of("d")), (6, 9, 2, 0));
}
