use workbench::approval::{approve, consume, request_approval, revoke};
use workbench::codec::{decode, encode};
use workbench::controller::{
    local_endpoint_health, put_generation, unregister_controller, unregister_executor,
};
use workbench::driver::{
    acquire_lease, await_driver, finish_mutation, release_lease, renew_lease, request_driver, start_mutation, take_driver,
};
use workbench::evidence::retained_task_output;
use workbench::handoff::{acknowledge_handoff, complete_handoff, create_handoff};
use workbench::hook::pointer;
use workbench::json::Json;
use workbench::lease::LeaseTable;
use workbench::observe::{request_observations, safe_request_fields};
use workbench::operator::{grant_operator, issue_nonce, plan_forced, plan_operator_action, OperatorPlan};
use workbench::rpc::{Request, Response, RpcError};
use workbench::runs::{finish_run, observability_rpc_error, run_finished, run_started, start_run};
use workbench::schema::{
    AgentRoleRef, ApprovalState, BaselineIdentity, ControllerPeer, DriverHandoffState, Executor, ExecutorEndpoint,
    Generation, GenerationState, Handoff, HandoffKind, HealthStatus, LeaseKind, Metadata, RunStatus, TaskState,
    TransactionStepState,
};
use workbench::schema_check::{try_validate_schema, validate_schema};
use workbench::session::{requires_session_gate, session_bundle, session_parts, SessionRecords};
use workbench::state::{Controller, WorkbenchState};
use workbench::status::Status;
use workbench::task::TaskTable;
use workbench::task_requests::{begin_cancel, retry_task, submit_task, transition_task, Cancellation};
use workbench::transaction::{begin_transaction, record_step};

fn doc(text: &str) -> Json {
    decode(text.as_bytes()).unwrap()
}

fn at<'a>(j: &'a Json, path: &str) -> &'a Json {
    pointer(j, path).unwrap()
}

fn empty_state() -> WorkbenchState {
    WorkbenchState {
        controller_id: None,
        controllers: Vec::new(),
        executors: Vec::new(),
        sessions: Vec::new(),
        artifacts: Vec::new(),
        generations: Vec::new(),
        transactions: Vec::new(),
        agents: Vec::new(),
        handoffs: Vec::new(),
        approvals: Vec::new(),
        read_grants: Vec::new(),
        driver_handoff_requests: Vec::new(),
        agent_mutations: Vec::new(),
        leases: Vec::new(),
        lease_fences: Vec::new(),
        tasks: Vec::new(),
    }
}

fn open(id: Option<&str>) -> Controller {
    Controller::open_with_id(empty_state(), id.map(str::to_owned), 1, "controller_fresh").unwrap().0
}

fn executor(id: &str, socket: &str, health: HealthStatus) -> Executor {
    Executor {
        api_version: "workbench.dev/v1".to_owned(),
        metadata: Metadata { id: id.to_owned(), labels: Default::default(), created_at: 1, updated_at: 1 },
        endpoint: ExecutorEndpoint::Local { socket: socket.to_owned() },
        capabilities: Vec::new(),
        allowed_roots: Vec::new(),
        health,
    }
}

fn request(action: &str, params: Json) -> Request {
    Request {
        request_id: "req_1".to_owned(),
        action: action.to_owned(),
        params,
        correlation_id: None,
        parent_request_id: None,
        run_id: None,
        span_id: None,
        parent_span_id: None,
        agent_session_id: None,
    }
}

#[test]
fn capability_start_log_fields_are_useful_without_recording_input_values() {
    let fields = safe_request_fields(
        "capability.invoke",
        &doc(r#"{
            "executorId":"node-a",
            "capability":"artifact.relay",
            "workspaceSessionId":"session-a",
            "input":{"source":"/secret/path","token":"do-not-log"}
        }"#),
    );
    assert_eq!(fields.get_str("executorId"), Some("node-a"));
    assert_eq!(fields.get_str("capability"), Some("artifact.relay"));
    assert_eq!(at(&fields, "inputSummary/keys").as_array().unwrap().len(), 2);
    assert!(!encode(&fields).contains("do-not-log"));
    assert!(!encode(&fields).contains("/secret/path"));
}

#[test]
fn unregister_removes_persisted_peer_registrations_idempotently() {
    let mut controller = open(Some("local"));
    controller.state.controllers.push(ControllerPeer {
        api_version: "workbench.dev/v1".to_owned(),
        metadata: Metadata { id: "stale".to_owned(), labels: Default::default(), created_at: 1, updated_at: 1 },
        endpoint: ExecutorEndpoint::Local { socket: "missing-controller.sock".to_owned() },
        health: HealthStatus::Offline,
    });
    controller.state.executors.push(executor("stale-rust", "missing-executor.sock", HealthStatus::Offline));
    let id = controller.id.clone();
    assert!(unregister_controller(&id, &mut controller.state.controllers, &doc(r#"{"controllerId": "stale"}"#)).unwrap());
    assert!(unregister_executor(&mut controller.state.executors, &doc(r#"{"executorId": "stale-rust"}"#)).unwrap());
    let mut reopened = Controller::open_with_id(controller.state, Some("local".to_owned()), 2, "unused").unwrap().0;
    assert!(reopened.state.controllers.is_empty());
    assert!(reopened.state.executors.is_empty());
    assert!(!unregister_controller(&id, &mut reopened.state.controllers, &doc(r#"{"controllerId": "stale"}"#)).unwrap());
}

#[test]
fn status_marks_missing_peer_socket_offline_without_forgetting_registration() {
    let mut controller = open(None);
    controller.state.executors.push(executor("peer-rust", "/nowhere/disconnected-peer.sock", HealthStatus::Ready));
    let peer = &controller.state.executors[0];
    let health = local_endpoint_health(&peer.endpoint, peer.health, false);
    let status = controller.status(&Vec::new(), &vec![health]);
    assert_eq!(at(&status, "executors/0/health").as_str(), Some("offline"));
    assert_eq!(at(&status, "executors/0/endpoint/transport").as_str(), Some("local"));
    assert_eq!(controller.state.executors.len(), 1);
}

#[test]
fn driver_ttl_is_not_silently_capped_at_five_minutes() {
    let mut leases = LeaseTable::new();
    let lease = take_driver(
        &mut leases,
        &doc(r#"{"resource": "workspace:test", "owner": "agent", "ttlMs": 900000}"#),
        1_000,
        "lease_1",
        "token_1",
    )
    .unwrap();
    assert_eq!(lease.expires_at - lease.acquired_at, 900_000);
    let params = doc(r#"{"resource": "workspace:test", "owner": "agent", "token": "token_1", "ttlMs": 900000}"#);
    let renewed = renew_lease(&mut leases, &params, 2_000).unwrap();
    assert_eq!(renewed.expires_at - renewed.updated_at, 900_000);
}

#[test]
fn controller_identity_persists_across_restart() {
    let (first, changed) = Controller::open_with_id(empty_state(), Some("node-a".to_owned()), 1, "unused").unwrap();
    assert_eq!(first.id, "node-a");
    assert!(changed);
    let (reopened, _) = Controller::open_with_id(first.state, None, 2, "unused").unwrap();
    assert_eq!(reopened.id, "node-a");
    let refused = Controller::open_with_id(reopened.state, Some("node-b".to_owned()), 3, "unused").unwrap_err();
    assert_eq!((refused.stored.as_str(), refused.configured.as_str()), ("node-a", "node-b"));
}

#[test]
fn automatic_driver_handoff_drains_hooks_and_rotates_the_fence() {
    let mut c = open(Some("node-a"));
    let old = acquire_lease(
        &mut c.leases,
        &doc(r#"{"resource":"workspace:session-a", "owner":"old-agent", "ttlMs":60000}"#),
        LeaseKind::Driver,
        1_000,
        "lease_1",
        "token_old",
    )
    .unwrap();
    let patch = doc(r#"{"workspaceSessionId":"session-a", "agentId":"old-agent", "operationId":"patch-1", "tool":"apply_patch"}"#);
    start_mutation(&mut c.state.agent_mutations, &c.state.driver_handoff_requests, &patch, 1_001).unwrap();
    let ask = doc(r#"{"workspaceSessionId":"session-a", "owner":"new-agent", "ttlMs":60000}"#);
    let requested = request_driver(
        &mut c.state.driver_handoff_requests,
        &mut c.leases,
        &c.tasks,
        &c.state.agent_mutations,
        &ask,
        1_002,
        "request_1",
    )
    .unwrap();
    assert_eq!(requested.state, DriverHandoffState::Draining);
    let second = doc(r#"{"workspaceSessionId":"session-a", "agentId":"old-agent", "operationId":"patch-2", "tool":"exec_command"}"#);
    let blocked = start_mutation(&mut c.state.agent_mutations, &c.state.driver_handoff_requests, &second, 1_003);
    assert_eq!(blocked.unwrap_err().code, "DRIVER_DRAINING");
    finish_mutation(
        &mut c.state.agent_mutations,
        &mut c.state.driver_handoff_requests,
        &mut c.leases,
        &c.tasks,
        &patch,
        1_004,
    )
    .unwrap();
    let next = await_driver(
        &mut c.state.driver_handoff_requests,
        &mut c.leases,
        &c.tasks,
        &c.state.agent_mutations,
        &ask,
        1_005,
        "lease_2",
        "token_new",
    )
    .unwrap();
    assert_eq!(next.owner, "new-agent");
    assert!(next.fence > old.fence);
    let stale = release_lease(
        &mut c.leases,
        &doc(r#"{"resource":"workspace:session-a", "owner":"old-agent", "token":"token_old"}"#),
        1_006,
    );
    assert_eq!(stale.unwrap_err().code, "LEASE_OWNED_BY_OTHER");
}

#[test]
fn lease_order_requires_release_between_publish_phases() {
    let mut leases = LeaseTable::new();
    let driver = doc(r#"{"resource":"workspace:s", "owner":"publisher", "ttlMs":60000}"#);
    assert!(acquire_lease(&mut leases, &driver, LeaseKind::Driver, 1, "lease_1", "token_1").is_ok());
    let runtime = doc(r#"{"resource":"runtime:mac:doubao", "owner":"publisher", "ttlMs":60000}"#);
    let refused = acquire_lease(&mut leases, &runtime, LeaseKind::Resource, 2, "lease_2", "token_2");
    assert_eq!(refused.unwrap_err().code, "LEASE_ORDER_VIOLATION");
}

fn handoff(id: &str) -> Handoff {
    Handoff {
        id: id.to_owned(),
        kind: HandoffKind::Work,
        workspace_session_id: "session-1".to_owned(),
        objective: "accept".to_owned(),
        from: AgentRoleRef { agent_id: None, role: "coding".to_owned() },
        to: AgentRoleRef { agent_id: None, role: "gui-acceptance".to_owned() },
        artifacts: Vec::new(),
        evidence: Vec::new(),
        completed_actions: Vec::new(),
        pending_actions: Vec::new(),
        acceptance_criteria: Vec::new(),
        constraints: Vec::new(),
        blockers: Vec::new(),
        created_at: 0,
        acknowledged_at: None,
        completed_at: None,
        report: None,
    }
}

#[test]
fn handoff_requires_acknowledgement_before_completion() {
    let mut handoffs = Vec::new();
    let leases = LeaseTable::new();
    create_handoff(&mut handoffs, handoff("handoff-1"), 5, "unused");
    let params = doc(r#"{"handoffId": "handoff-1"}"#);
    let premature = complete_handoff(&mut handoffs, &leases, &params, 6).unwrap_err();
    assert_eq!(premature.code, "HANDOFF_NOT_ACKNOWLEDGED");
    assert!(acknowledge_handoff(&mut handoffs, &params, 7).is_ok());
    assert!(complete_handoff(&mut handoffs, &leases, &params, 8).is_ok());
    assert_eq!(handoffs[0].completed_at, Some(8));
}

#[test]
fn transaction_journal_is_idempotent_and_fenced() {
    let mut items = Vec::new();
    let begin = doc(r#"{
        "workspaceSessionId": "session-1",
        "idempotencyKey": "publish-1",
        "target": "client/current",
        "generationId": "generation-1",
        "leaseFence": 7
    }"#);
    let (first, reused) = begin_transaction(&mut items, &begin, 1, "transaction_1").unwrap();
    assert!(!reused);
    assert!(begin_transaction(&mut items, &begin, 2, "transaction_2").unwrap().1);
    let id = items[first].id.clone();
    let step = |rest: &str| doc(&format!("{{\"transactionId\": \"{id}\", {rest}}}"));
    let stale = record_step(
        &mut items,
        &step(r#""step": "materialize", "state": "started", "fence": 6"#),
        TransactionStepState::Started,
        3,
    );
    assert_eq!(stale.unwrap_err().code, "STALE_FENCING_TOKEN");
    assert!(record_step(
        &mut items,
        &step(r#""step": "materialize", "state": "succeeded", "fence": 7, "outputDigest": "sha256:ok""#),
        TransactionStepState::Succeeded,
        4,
    )
    .is_ok());
    let activated = record_step(
        &mut items,
        &step(r#""step": "activate", "state": "succeeded", "fence": 7, "previousGenerationId": "generation-0""#),
        TransactionStepState::Succeeded,
        5,
    )
    .unwrap();
    assert_eq!(items[activated].previous_generation_id.as_deref(), Some("generation-0"));
}

#[test]
fn approvals_are_exact_expiring_objects() {
    let mut approvals = Vec::new();
    let params = doc(r#"{"digest": "sha256:exact", "owner": "agent", "reason": "test"}"#);
    let i = request_approval(&mut approvals, &params, 1, "approval_1").unwrap();
    let id = approvals[i].id.clone();
    let approved = approve(&mut approvals, &doc(&format!("{{\"approvalId\": \"{id}\", \"ttlMs\": 1000}}")), 2).unwrap();
    assert_eq!(approvals[approved].state, ApprovalState::Approved);
    let duplicate = approve(&mut approvals, &doc(&format!("{{\"approvalId\": \"{id}\"}}")), 3).unwrap_err();
    assert_eq!(duplicate.code, "APPROVAL_NOT_PENDING");
    assert!(consume(&mut approvals, &id, "sha256:other", "agent", 4).is_err());
    assert!(consume(&mut approvals, &id, "sha256:exact", "agent", 4).is_ok());
    assert!(consume(&mut approvals, &id, "sha256:exact", "agent", 5).is_err());
    assert!(revoke(&mut approvals, &doc(r#"{"approvalId": "approval_9"}"#)).is_err());
}

#[test]
fn capability_schema_validation_checks_required_types_and_bounds() {
    let schema = doc(r#"{
        "type": "object",
        "required": ["port", "args"],
        "properties": {
            "port": {"type": "integer", "minimum": 1, "maximum": 65535},
            "args": {"type": "array", "items": {"type": "string"}}
        },
        "additionalProperties": false
    }"#);
    assert!(validate_schema(&schema, &doc(r#"{"port": 9222, "args": ["--safe"]}"#), "input").is_ok());
    assert_eq!(
        validate_schema(&schema, &doc(r#"{"port": 0, "args": ["--safe"]}"#), "input").unwrap_err().code,
        "SCHEMA_VALIDATION_FAILED"
    );
    assert!(validate_schema(&schema, &doc(r#"{"port": 9222}"#), "input").is_err());
    assert!(validate_schema(&schema, &doc(r#"{"port": 9222, "args": [7]}"#), "input").is_err());
    assert!(matches!(
        try_validate_schema(&schema, &doc(r#"{"port": 9222, "args": [], "more": 1}"#), "input"),
        Some(Err(_))
    ));
}

#[test]
fn generation_identity_and_state_transitions_are_enforced() {
    let generation = |state: GenerationState| Generation {
        id: "g1".to_owned(),
        workspace_session_id: "s1".to_owned(),
        application_type: "application".to_owned(),
        root: "/state/g1".to_owned(),
        state,
        baseline: BaselineIdentity {
            digest: "sha256:base".to_owned(),
            source: "/baseline".to_owned(),
            identifier: None,
            version: None,
            attributes: Default::default(),
        },
        applied_artifacts: Vec::new(),
        digest: "sha256:base".to_owned(),
        created_at: 1,
        activated_at: None,
        validation: None,
        finalization: None,
        smoke: None,
        failure: None,
    };
    let mut items = Vec::new();
    assert!(put_generation(&mut items, generation(GenerationState::Materializing)).is_ok());
    let invalid = put_generation(&mut items, generation(GenerationState::Active)).unwrap_err();
    assert_eq!(invalid.code, "INVALID_GENERATION_STATE");
    let mut moved = generation(GenerationState::Materialized);
    moved.root = "/elsewhere".to_owned();
    assert_eq!(put_generation(&mut items, moved).unwrap_err().code, "GENERATION_IDENTITY_CONFLICT");
}

#[test]
fn native_inspection_task_output_retains_only_a_bounded_summary() {
    let output = doc(r#"{
        "applicationPath": "/state/App.app",
        "pids": [42],
        "inspection": {
            "accessibilityTrusted": true,
            "processes": [{"pid": 42, "windows": [{
                "role": "AXWindow",
                "title": "",
                "children": [
                    {"role": "AXStaticText", "title": "document.docx"},
                    {"role": "AXMenu", "children": [{"title": "Passwords…"}]}
                ]
            }]}]
        },
        "inspectedAt": 123
    }"#);
    let compact = retained_task_output("ui.native-inspect", &output);
    assert_eq!(at(&compact, "inspection/accessibilityTrusted").as_bool(), Some(true));
    assert_eq!(at(&compact, "inspection/processCount").as_u64(), Some(1));
    assert_eq!(at(&compact, "inspection/processes/0/pid").as_u64(), Some(42));
    assert_eq!(at(&compact, "inspection/processes/0/windows/0/accessibleNames"), &doc(r#"["document.docx"]"#));
    assert_eq!(retained_task_output("ui.evaluate", &output), output);
}

#[test]
fn long_capabilities_do_not_hold_the_session_control_gate() {
    assert!(!requires_session_gate("capability.invoke"));
    assert!(!requires_session_gate("driver.renew"));
    assert!(!requires_session_gate("task.wait"));
    assert!(requires_session_gate("session.handoff"));
    assert!(requires_session_gate("transaction.record"));
}

#[test]
fn status_is_bounded_by_default_and_verbose_on_request() {
    let controller = open(None);
    let compact = controller.status(&Vec::new(), &Vec::new());
    assert_eq!(at(&compact, "tasks/count").as_u64(), Some(0));
    assert!(at(&compact, "tasks").as_array().is_none());
    let none = Vec::new();
    match controller.answer_status(&doc("{}"), Vec::new(), Vec::new(), &none, &none) {
        Status::Bounded(told) => assert_eq!(told, compact),
        other => panic!("not bounded: {other:?}"),
    }
    let asked = doc(r#"{"verbose":true}"#);
    let verbose = match controller.answer_status(&asked, Vec::new(), Vec::new(), &none, &none) {
        Status::Verbose { controllers, executors, leases, tasks } => {
            assert!(controllers.is_empty() && executors.is_empty() && leases.is_empty());
            let tasks = Json::array(tasks.iter().map(|t| Json::text(&t.id)).collect());
            controller.verbose_status(doc("[]"), doc("[]"), doc("[]"), tasks)
        }
        other => panic!("not verbose: {other:?}"),
    };
    assert!(at(&verbose, "tasks").as_array().is_some());
    assert_eq!(at(&verbose, "controller/status").as_str(), Some("ready"));
}

#[test]
fn the_records_of_a_session_go_along_with_it() {
    let submit = |capability: &str, session: &str, id: &str| {
        TaskTable::new().submit(session, "e", capability, Json::Null, "k", 1, id).0
    };
    let tasks = vec![submit("a", "w", "task_1"), submit("b", "v", "task_2"), submit("c", "w", "task_3")];
    let mut state = empty_state();
    state.handoffs.push(Handoff { workspace_session_id: "v".to_owned(), ..handoff("h") });
    let parts = session_parts(&state, &tasks, "w");
    assert_eq!((parts.tasks, parts.handoffs), (vec![0, 2], Vec::new()));
    assert!(parts.agents.is_empty() && parts.artifacts.is_empty());
    assert_eq!(session_parts(&state, &tasks, "v").handoffs, vec![0]);
    let text = |s: &str| Json::text(s);
    assert_eq!(
        encode(&session_bundle(text("s"), text("a"), text("b"), text("g"), text("h"), text("t"), text("x"))),
        r#"{"agents":"a","artifacts":"b","generations":"g","handoffs":"h","session":"s","tasks":"t","transactions":"x"}"#
    );

    let mut controller = open(None);
    controller.state.tasks.push(submit("old", "w", "task_1"));
    let given = |handoffs| SessionRecords {
        tasks: Ok(vec![submit("a", "w", "task_1"), submit("c", "w", "task_3")]),
        artifacts: Ok(Vec::new()),
        generations: Ok(Vec::new()),
        transactions: Ok(Vec::new()),
        agents: Ok(Vec::new()),
        handoffs,
    };
    let unread = controller.accept_records(given(Err(RpcError::new("INVALID_PARAMS", "handoffs: no"))));
    assert_eq!(unread.unwrap_err().message, "handoffs: no");
    assert_eq!((controller.state.tasks.len(), controller.tasks.tasks.len()), (2, 0));
    controller.accept_records(given(Ok(vec![handoff("h")]))).unwrap();
    assert_eq!((controller.state.tasks.len(), controller.state.handoffs.len()), (2, 1));
    assert_eq!(controller.tasks.get("task_1").unwrap().capability, "a");
    assert!(controller.tasks.submit("w", "e", "c", Json::Null, "k", 2, "task_4").1);
}

#[test]
fn run_lifecycle_records_scoped_rpc_observations() {
    let params = doc(r#"{"targetSummary":"build dashboard","agentSessionId":"agent-1"}"#);
    let run = start_run(&params, 10, "run_1").unwrap();
    let mut status = request("status", doc("{}"));
    status.run_id = Some(run.run_id.clone());
    status.span_id = Some("span-1".into());
    let answered = Response::success("req_1", doc("{}"));
    let events = request_observations("node-a", &status, &answered, 20, 3);
    assert!(events.iter().any(|e| e.name == "status" && e.span_id.as_deref() == Some("span-1")));

    let begun = run_started("node-a", &run);
    assert!(begun.kind == "run" && begun.name == "run.start");
    assert_eq!(begun.run_id.as_deref(), Some("run_1"));
    assert_eq!(encode(&begun.attributes), r#"{"createdBy":"agent"}"#);

    let run = finish_run("run_1", Some(run), RunStatus::Completed, 40, None).unwrap();
    let ended = run_finished("node-a", &run, 50);
    assert!(ended.kind == "run" && ended.name == "run.finish");
    assert_eq!((ended.timestamp, ended.duration_ms, ended.status.as_str()), (40, Some(30), "completed"));
    assert_eq!(encode(&ended.attributes), r#"{"businessOutcome":null,"health":"healthy"}"#);
    let again = finish_run("run_1", Some(run), RunStatus::Cancelled, 60, None).unwrap_err();
    assert_eq!(observability_rpc_error(&again).message, "invalid run transition: run run_1 is already terminal");
}

#[test]
fn dashboard_snapshot_never_exposes_driver_tokens() {
    let mut controller = open(None);
    take_driver(
        &mut controller.leases,
        &doc(r#"{"resource":"workspace:test","owner":"agent"}"#),
        1_000,
        "lease_1",
        "token_hidden",
    )
    .unwrap();
    let snapshot = encode(&controller.dashboard_snapshot(&Vec::new(), Vec::new(), Vec::new(), 2_000));
    assert!(snapshot.contains("workspace:test"));
    assert!(!snapshot.contains("token"));
    assert!(!snapshot.contains("driverLeaseToken"));
}

#[test]
fn force_cancel_requires_matching_single_use_operator_nonce() {
    let mut tasks = TaskTable::new();
    let mut grants = Vec::new();
    let mut nonces = Vec::new();
    let submit = doc(r#"{"workspaceSessionId":"s","executorId":"e","capability":"process.start","input":{"processId":"p"},"idempotencyKey":"one"}"#);
    let (task, _) = submit_task(&mut tasks, &submit, None, None, 1, "task_1").unwrap();
    assert_eq!(
        begin_cancel(&mut tasks, &doc(&format!("{{\"taskId\":\"{}\"}}", task.id)), 2).unwrap_err().code,
        "OPERATOR_REQUIRED"
    );
    grant_operator(&mut grants, &doc(r#"{"operatorId":"human"}"#), 3, "grant_token").unwrap();
    let ask = doc(&format!(
        "{{\"grantToken\":\"grant_token\",\"action\":\"cancel-task\",\"target\":\"{}\",\"reason\":\"stop damage\",\"confirmed\":true}}",
        task.id
    ));
    issue_nonce(&grants, &mut nonces, &ask, 4, "nonce_1").unwrap();
    let action = doc(&format!(
        "{{\"actionNonce\":\"nonce_1\",\"action\":\"cancel-task\",\"target\":\"{}\"}}",
        task.id
    ));
    match plan_operator_action(&grants, &mut nonces, &action, 5).unwrap() {
        OperatorPlan::Force(nonce) => match plan_forced(&nonce, &action).unwrap() {
            OperatorPlan::Serve { action, params, .. } => {
                assert_eq!(action, "task.cancel");
                match begin_cancel(&mut tasks, &params, 5).unwrap() {
                    Cancellation::Settled(t) => assert_eq!((t.id, t.state), (task.id.clone(), TaskState::Cancelled)),
                    other => panic!("not settled: {other:?}"),
                }
            }
            other => panic!("not served: {other:?}"),
        },
        other => panic!("not forced: {other:?}"),
    }
    assert_eq!(tasks.get(&task.id).unwrap().state, TaskState::Cancelled);
    assert_eq!(plan_operator_action(&grants, &mut nonces, &action, 6).unwrap_err().code, "ACTION_NONCE_INVALID");
}

#[test]
fn normal_operator_actions_use_grants_and_never_accept_force_without_nonce() {
    let mut tasks = TaskTable::new();
    let mut grants = Vec::new();
    let mut nonces = Vec::new();
    let submit = doc(r#"{"workspaceSessionId":"s","executorId":"e","capability":"test","input":{},"idempotencyKey":"normal"}"#);
    let (task, _) = submit_task(&mut tasks, &submit, None, None, 1, "task_1").unwrap();
    let running = doc(r#"{"taskId":"task_1","state":"running"}"#);
    assert!(transition_task(&mut tasks, &running, TaskState::Running, 2).is_ok());
    let failed = doc(r#"{"taskId":"task_1","state":"failed","error":{"code":"X","message":"retry","retryable":true,"details":null}}"#);
    transition_task(&mut tasks, &failed, TaskState::Failed, 3).unwrap();
    grant_operator(&mut grants, &doc(r#"{"operatorId":"dashboard","ttlMs":60000}"#), 4, "grant_token").unwrap();
    let act = |action: &str| {
        doc(&format!("{{\"grantToken\":\"grant_token\",\"action\":\"{action}\",\"target\":\"{}\"}}", task.id))
    };
    match plan_operator_action(&grants, &mut nonces, &act("retry-task"), 5).unwrap() {
        OperatorPlan::Serve { action, params, .. } => {
            assert_eq!(action, "task.retry");
            assert_eq!(retry_task(&mut tasks, &params, 5).unwrap().state, TaskState::Queued);
        }
        other => panic!("not served: {other:?}"),
    }
    assert_eq!(plan_operator_action(&grants, &mut nonces, &act("cancel-task"), 6).unwrap_err().code, "INVALID_PARAMS");
    assert_eq!(
        plan_operator_action(&grants, &mut nonces, &act("arbitrary-call"), 7).unwrap_err().code,
        "OPERATOR_ACTION_NOT_ALLOWED"
    );
}
