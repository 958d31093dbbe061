use workbench::codec::{decode, encode, sha256_bytes};
use workbench::datapack::{
    pack_chromium_datapack, parse_datapack_entries, path_matches_prefix, select_resources, BasePack, PackResource,
};
use workbench::evidence::{artifact_from_result, collect_native_accessible_names, compact_value};
use workbench::execution::{
    acquire_all, can_note_tunnel, executor_input, executor_outcome, fail_task, finish_invocation, invocation_resources,
    process_readiness, process_waited, settle_leases, transport_timed_out, tunnel_readiness, tunnel_waited, Readiness,
};
use workbench::generation::{
    apply_overlays, application_name, failed_marker, generation_transition_allowed, materialize_derived,
    materialized_marker, packed_path, record_state, validate_generation_id, validate_prefix, validate_relative,
    DataPackResourceTree, MaterializeStats, Materialization, Overlay,
};
use workbench::hook::pointer;
use workbench::invoke::{
    approve_invocation, authorize_invocation, begin_task, can_prepare_input, execution_mode, submit_async, take_resume_token, Begun,
    Invocation, ResumeToken,
};
use workbench::json::Json;
use workbench::lease::LeaseTable;
use workbench::relay::{archive_created, begin_archive, begin_files, lock_relay, manifest_stable, relay_request};
use workbench::rpc::{Called, Response, RpcError};
use workbench::schema::{
    CancelPolicy, CapabilityAuthority, CapabilityDescriptor, Effect, ExecutionKind, Executor, ExecutorEndpoint,
    GenerationState, HealthCheck, HealthStatus, IdempotencyContract, LeaseKind, LockMode, LockTemplate, Metadata,
    RetryPolicy, RollbackStrategy, SessionAuthority, SessionState, TaskState, WorkspaceSession,
};
use workbench::schema_check::{schema_report, value_matches_type};
use workbench::state::{Controller, WorkbenchState};
use workbench::task::TaskTable;

fn doc(text: &str) -> Json {
    decode(text.as_bytes()).unwrap()
}

fn answered(text: &str) -> Called {
    Called::Answered(Response::success("r", doc(text)))
}

fn metadata(id: &str) -> Metadata {
    Metadata { id: id.to_owned(), labels: Default::default(), created_at: 1, updated_at: 1 }
}

fn capability(name: &str, effect: Effect, authority: CapabilityAuthority) -> CapabilityDescriptor {
    CapabilityDescriptor {
        name: name.to_owned(),
        version: "2.0".to_owned(),
        input_schema: Json::obj(),
        output_schema: Json::obj(),
        required_executor_features: Vec::new(),
        locks: Vec::new(),
        idempotency: IdempotencyContract { key_fields: Vec::new(), retention_ms: 1_000 },
        timeout_ms: 1_000,
        execution_kind: ExecutionKind::Inline,
        retry: RetryPolicy { max_attempts: 2, retryable_errors: Vec::new(), backoff_ms: 0 },
        rollback: RollbackStrategy::Nothing,
        health_check: HealthCheck::Nothing,
        emitted_evidence: Vec::new(),
        effect,
        authority,
        priority: 1,
        max_concurrency: None,
        cancel_policy: CancelPolicy::Continue,
    }
}

fn controller() -> Controller {
    let state = WorkbenchState {
        controller_id: None,
        controllers: Vec::new(),
        executors: vec![Executor {
            api_version: "workbench.dev/v1".to_owned(),
            metadata: metadata("e"),
            endpoint: ExecutorEndpoint::Local { socket: "/x".to_owned() },
            capabilities: vec![
                capability("filesystem.read", Effect::ReadOnly, CapabilityAuthority::Nothing),
                capability("command.run", Effect::Mutating, CapabilityAuthority::WorkspaceDriver),
            ],
            allowed_roots: Vec::new(),
            health: HealthStatus::Ready,
        }],
        sessions: vec![WorkspaceSession {
            api_version: "workbench.dev/v1".to_owned(),
            metadata: metadata("w"),
            objective: "test".to_owned(),
            state: SessionState::Active,
            authority: Some(SessionAuthority {
                controller_id: "me".to_owned(),
                epoch: 1,
                pending_controller_id: None,
            }),
            observability: None,
        }],
        artifacts: Vec::new(),
        generations: Vec::new(),
        transactions: Vec::new(),
        agents: Vec::new(),
        handoffs: Vec::new(),
        approvals: Vec::new(),
        read_grants: Vec::new(),
        driver_handoff_requests: Vec::new(),
        agent_mutations: Vec::new(),
        leases: Vec::new(),
        lease_fences: Vec::new(),
        tasks: Vec::new(),
    };
    Controller::open_with_id(state, Some("me".to_owned()), 1, "fresh").unwrap().0
}

/// A session under an authority of an epoch.
fn sessions(epoch: u64) -> Vec<WorkspaceSession> {
    let mut all = controller().state.sessions;
    all[0].authority.as_mut().unwrap().epoch = epoch;
    all
}

const READ: &str = r#"{"executorId":"e","capability":"filesystem.read","workspaceSessionId":"w","owner":"o","idempotencyKey":"k","input":{"path":"/a"}}"#;

fn invocation(c: &Controller, params: &str) -> Result<Invocation, RpcError> {
    authorize_invocation(c, &doc(params), 2)
}

#[test]
fn an_invocation_is_authorized_by_its_session_and_its_contract() {
    let mut c = controller();
    let read = invocation(&c, READ).unwrap();
    assert!(read.readonly && read.authority.is_none());
    assert_eq!(read.input.get_str("_workspaceSessionId"), Some("w"));
    for (change, code) in [
        (("\"w\"", "\"x\""), "SESSION_NOT_FOUND"),
        (("\"e\"", "\"x\""), "EXECUTOR_NOT_FOUND"),
        (("filesystem.read", "filesystem.eat"), "CAPABILITY_NOT_FOUND"),
    ] {
        assert_eq!(invocation(&c, &READ.replace(change.0, change.1)).unwrap_err().code, code);
    }
    c.state.executors[0].capabilities[0].version = "1.9".to_owned();
    assert_eq!(invocation(&c, READ).unwrap_err().code, "PEER_CAPABILITY_VERSION_MISMATCH");
    c.state.sessions[0].authority.as_mut().unwrap().controller_id = "you".to_owned();
    assert_eq!(invocation(&c, READ).unwrap_err().message, "session is owned by you");
}

#[test]
fn mutating_capability_releases_driver_lock_before_persistence() {
    let mut c = controller();
    let run = r#"{"executorId":"e","capability":"command.run","workspaceSessionId":"w","owner":"agent","driverToken":"tok","idempotencyKey":"mutating-capability","input":{"cwd":"/","argv":["ls"],"resources":["gpu"]}}"#;
    assert!(invocation(&c, run).is_err());
    c.leases.acquire(LeaseKind::Driver, "workspace:w", "agent", 60_000, 1, "l", "tok").unwrap();
    let mut found = invocation(&c, run).unwrap();
    assert_eq!(found.authority.as_ref().unwrap().resource, "workspace:w");
    approve_invocation(&mut c.state.approvals, &mut found, &doc(run), 2).unwrap();
    let locks = invocation_resources(&c.state.executors[0].capabilities[1].locks, "command.run", false, &found.input);
    let locks = locks.unwrap();
    assert_eq!(locks, vec!["command:gpu"]);
    let fresh = vec![("lease_x".to_owned(), "tok_x".to_owned())];
    let held = acquire_all(&mut c.leases, &locks, "task_1", 1_000, 2, &fresh).unwrap();
    let busy = acquire_all(&mut c.leases, &locks, "task_2", 1_000, 2, &fresh);
    assert_eq!(busy.unwrap_err().code, "LEASE_ACTIVE");
    let sent = executor_input("me", &found, &held, 1, 2);
    assert_eq!(
        encode(sent.get("_authority").unwrap()),
        format!(
            r#"[{{"controllerId":"me","fence":{0},"resource":"workspace:w"}},{{"controllerId":"me","fence":{0},"resource":"command:gpu"}}]"#,
            (1u64 << 58) + 2 * 65_536 + 1
        )
    );
    let begun = begin_task(&mut c.tasks, &found, 2, &None, None, None, 2, "task_1").unwrap();
    assert!(matches!(begun, Begun::Running(_)));
    let called = answered(r#"{"exitCode":0}"#);
    settle_leases(&mut c.leases, &held, &called, 3);
    assert!(c.leases.get("command:gpu").is_none());
    let result = executor_outcome(called).unwrap();
    let done = finish_invocation(&mut c, &found, &sent, &result, "task_1", 4).unwrap();
    assert_eq!(done.state, TaskState::Succeeded);
    let again = begin_task(&mut c.tasks, &found, 2, &None, None, None, 5, "task_2").unwrap();
    assert!(matches!(again, Begun::Finished(_)));
}

#[test]
fn a_command_that_destroys_needs_an_approval_for_it() {
    let mut c = controller();
    c.leases.acquire(LeaseKind::Driver, "workspace:w", "agent", 60_000, 1, "l", "tok").unwrap();
    let run = r#"{"executorId":"e","capability":"command.run","workspaceSessionId":"w","owner":"agent","driverToken":"tok","idempotencyKey":"k","input":{"cwd":"/","argv":["rm","x"]}}"#;
    let mut found = invocation(&c, run).unwrap();
    assert!(approve_invocation(&mut c.state.approvals, &mut found, &doc(run), 2).is_err());
}

#[test]
fn an_outcome_that_is_not_known_keeps_its_locks() {
    let timeout = Called::Unreachable("deadline has elapsed".to_owned());
    assert!(transport_timed_out(&timeout));
    assert!(!transport_timed_out(&Called::Unreachable("refused".to_owned())));
    let mut leases = LeaseTable::new();
    let fresh = vec![("l".to_owned(), "t".to_owned())];
    let held = acquire_all(&mut leases, &vec!["command:gpu".to_owned()], "o", 1_000, 1, &fresh).unwrap();
    settle_leases(&mut leases, &held, &timeout, 2);
    assert!(leases.get("command:gpu").is_some());
    let (error, state) = executor_outcome(timeout).unwrap_err();
    assert_eq!(state, TaskState::OutcomeUnknown);
    let mut tasks = TaskTable::new();
    let c = controller();
    let found = invocation(&c, READ).unwrap();
    begin_task(&mut tasks, &found, 2, &None, None, None, 2, "task_1").unwrap();
    fail_task(&mut tasks, "task_1", &error, state, 3);
    assert_eq!(tasks.get("task_1").unwrap().state, TaskState::OutcomeUnknown);
}

#[test]
fn work_in_the_background_is_resumed_by_its_token_once() {
    assert!(execution_mode(&doc(r#"{"executionMode":"async"}"#), ExecutionKind::Inline).unwrap());
    assert!(!execution_mode(&doc("{}"), ExecutionKind::Inline).unwrap());
    assert!(execution_mode(&doc(r#"{"executionMode":"x"}"#), ExecutionKind::Inline).is_err());
    let c = controller();
    let found = invocation(&c, READ).unwrap();
    let mut tasks = TaskTable::new();
    let mut tokens: Vec<ResumeToken> = Vec::new();
    let mut active: usize = 0;
    let params = doc(READ);
    let started =
        submit_async(&mut tasks, &mut tokens, &mut active, 1, &found, &params, None, None, 2, "task_1", "resume_1").unwrap();
    assert_eq!((started.reused, active, tokens.len()), (false, 1, 1));
    assert!(take_resume_token(&mut tokens, &started.worker));
    assert!(!take_resume_token(&mut tokens, &started.worker));
    let other = READ.replace("\"k\"", "\"k2\"");
    let second = invocation(&c, &other).unwrap();
    let full = submit_async(&mut tasks, &mut tokens, &mut active, 1, &second, &doc(&other), None, None, 2, "task_2", "r2");
    assert!(full.is_err());
}

#[test]
fn readiness_wait_delegates_one_wait_to_the_executor() {
    let input = doc(r#"{"processId":"process-1","readinessTimeoutMs":2000}"#);
    let starting = doc(r#"{"id":"process-1","state":"running","readiness":{"state":"starting","attempts":0}}"#);
    match process_readiness(&input, starting).unwrap() {
        Readiness::Wait(params) => assert_eq!(encode(&params), r#"{"processId":"process-1","timeoutMs":2000}"#),
        other => panic!("{other:?}"),
    }
    let ready = process_waited(answered(r#"{"id":"process-1","readiness":{"state":"ready","attempts":2}}"#)).unwrap();
    assert_eq!(pointer(&ready, "readiness/state").unwrap().as_str(), Some("ready"));
    assert!(matches!(process_readiness(&input, ready).unwrap(), Readiness::Ready(_)));
    let gone = process_waited(Called::Unreachable("x".to_owned())).unwrap_err();
    assert_eq!((gone.code.as_str(), gone.retryable), ("EXECUTOR_DISCONNECTED", true));
}

#[test]
fn only_what_is_written_to_has_to_be_an_object() {
    let c = controller();
    assert!(can_prepare_input(&c, &doc(READ), 2));
    assert!(can_prepare_input(&c, &doc(&READ.replace(r#","input":{"path":"/a"}"#, "")), 2));
    let list = READ.replace(r#"{"path":"/a"}"#, "[1]");
    assert!(!can_prepare_input(&c, &doc(&list), 2));
    assert!(can_prepare_input(&c, &doc(&list.replace("\"w\"", "\"x\"")), 2));
    assert_eq!(invocation(&c, &list.replace("\"w\"", "\"x\"")).unwrap_err().code, "SESSION_NOT_FOUND");
    assert!(can_prepare_input(&c, &doc(&list.replace("filesystem.read", "command.run")), 2));
    assert!(can_prepare_input(&c, &doc("{}"), 2));

    let refused = || Called::Answered(Response::failure("r", RpcError::new("NO", "no")));
    let stalled = || Called::Answered(Response::failure("r", RpcError::transient("SLOW", "slow")));
    assert!(can_note_tunnel(&refused(), &answered("[]")) && !can_note_tunnel(&stalled(), &answered("[]")));
    assert!(can_note_tunnel(&stalled(), &answered("{}")) && can_note_tunnel(&stalled(), &refused()));
    assert_eq!(tunnel_waited(refused(), answered("[]")).unwrap_err().code, "NO");
    assert_eq!(tunnel_waited(answered("{}"), answered("[]")).unwrap_err().code, "TUNNEL_NOT_READY");
    let pending = tunnel_waited(stalled(), answered("null")).unwrap();
    assert_eq!(encode(&pending), r#"{"observedState":"pending","pendingReason":"slow","retryable":true}"#);
}

#[test]
fn tunnel_wait_returns_visible_pending_state_after_short_retryable_timeout() {
    let input = doc(r#"{"tunnelId":"signal","readinessTimeoutMs":25}"#);
    let starting = doc(r#"{"tunnelId":"signal","observedState":"starting"}"#);
    assert!(matches!(tunnel_readiness(&input, starting).unwrap(), Readiness::Wait(_)));
    let stalled = Called::Answered(Response::failure("r", RpcError::transient("BUILD_STALLED", "tunnel probe timed out")));
    let pending = tunnel_waited(stalled, answered(r#"{"tunnelId":"signal","observedState":"starting"}"#)).unwrap();
    assert_eq!(
        encode(&pending),
        r#"{"observedState":"pending","pendingReason":"tunnel probe timed out","retryable":true,"tunnelId":"signal"}"#
    );
}

#[test]
fn tunnel_wait_trusts_successful_readiness_over_a_transient_second_probe() {
    let waited = answered(r#"{"id":"tunnel-signal","readiness":{"state":"ready"}}"#);
    let shown = tunnel_waited(waited, answered(r#"{"tunnelId":"signal","state":"running","observedState":"starting"}"#));
    assert_eq!(shown.unwrap().get_str("observedState"), Some("ready"));
}

#[test]
fn an_archive_is_relayed_chunk_by_chunk() {
    let mut leases = LeaseTable::new();
    leases.acquire(LeaseKind::Driver, "workspace:relay-test", "relay-agent", 60_000, 1, "l", "tok").unwrap();
    let params = doc(
        r#"{"source":{"executorId":"source","path":"/s"},"destination":{"executorId":"destination","path":"/d"},"mode":"mirror","workspaceSessionId":"relay-test","owner":"relay-agent","driverToken":"tok"}"#,
    );
    let copy = doc(&encode(&params).replace("mirror", "copy"));
    assert_eq!(
        relay_request("me", &sessions(1), &leases, &copy, 2).unwrap_err().message,
        "Controller artifact relay currently requires mode=mirror"
    );
    let request = relay_request("me", &sessions(1), &leases, &params, 2).unwrap();
    assert!(archive_created(Err(RpcError::new("UNKNOWN_ACTION", "x"))).unwrap().is_none());
    assert_eq!(archive_created(Err(RpcError::new("OTHER", "x"))).unwrap_err().code, "OTHER");
    let archive = doc(r#"{"token":"a1","digest":"d1","archiveSize":10,"size":30,"files":2,"kind":"directory"}"#);
    let (mut transfer, _) = begin_archive("me", &mut leases, request, &archive, 2, "l2", "t2", "u").unwrap();
    assert_eq!(transfer.staging, "/d.workbench-relay-u");
    assert_eq!(lock_relay(&mut leases, "me", "/d", 2, "l3", "t3").unwrap_err().code, "LEASE_ACTIVE");
    transfer.prepared(Ok(Json::Null)).unwrap();
    assert_eq!(transfer.read_params().unwrap().get_u64("offset"), Some(0));
    let (write, bytes) = transfer.take_chunk(Ok(doc(r#"{"bytes":10,"data":"AAAA"}"#))).unwrap();
    assert_eq!((bytes, write.get_str("data")), (10, Some("AAAA")));
    transfer.wrote(Ok(Json::Null), bytes).unwrap();
    assert!(transfer.read_params().is_none());
    let result = transfer.committed(Ok(doc(r#"{"digest":"d1"}"#)), 5, 6).unwrap();
    assert_eq!(pointer(&result, "transfer/transferredBytes").unwrap().as_u64(), Some(10));
    let eof = transfer.committed(Err(RpcError::new("X", "y")), 5, 6);
    assert!(eof.is_err());
}

#[test]
fn a_transfer_without_progress_fails_where_it_stands() {
    let mut leases = LeaseTable::new();
    leases.acquire(LeaseKind::Driver, "workspace:w", "o", 60_000, 1, "l", "tok").unwrap();
    let params = doc(
        r#"{"source":{"executorId":"a","path":"/s"},"destination":{"executorId":"b","path":"/d"},"workspaceSessionId":"w","owner":"o","driverToken":"tok"}"#,
    );
    let request = relay_request("me", &sessions(1), &leases, &params, 2).unwrap();
    let archive = doc(r#"{"token":"a1","digest":"d1","archiveSize":10,"size":30,"files":2}"#);
    let (mut transfer, _) = begin_archive("me", &mut leases, request, &archive, 2, "l2", "t2", "u").unwrap();
    let e = transfer.take_chunk(Ok(doc(r#"{"bytes":0}"#))).unwrap_err();
    assert_eq!((e.code.as_str(), e.message.as_str()), ("ARTIFACT_TRANSFER_FAILED", "unexpected EOF while reading archive"));
    assert_eq!(e.details.get_str("stage"), Some("reading"));
    let request = relay_request("me", &sessions(1), &leases, &params, 2).unwrap();
    let missing = begin_archive("me", &mut leases, request, &doc(r#"{"token":"a","digest":"b"}"#), 2, "x", "y", "u");
    assert_eq!(missing.unwrap_err().message, "archive size is required");
}

#[test]
fn files_are_relayed_in_the_order_of_their_manifest() {
    let mut leases = LeaseTable::new();
    leases.acquire(LeaseKind::Driver, "workspace:w", "o", 60_000, 1, "l", "tok").unwrap();
    let params = doc(
        r#"{"source":{"executorId":"a","path":"/s"},"destination":{"executorId":"b","path":"/d"},"workspaceSessionId":"w","owner":"o","driverToken":"tok"}"#,
    );
    let request = relay_request("me", &sessions(1), &leases, &params, 2).unwrap();
    let manifest = doc(
        r#"{"digest":"d","entries":[{"kind":"directory","path":"x"},{"kind":"file","path":"x/a","size":3},{"kind":"link","path":"x/b"}]}"#,
    );
    assert!(manifest_stable(&manifest, &manifest, false).unwrap());
    let (mut files, _) = begin_files("me", &mut leases, request, &manifest, true, 2, "l2", "t2", "u").unwrap();
    let ask = files.read_params().unwrap().unwrap();
    assert_eq!((ask.get_str("relativePath"), ask.get_u64("offset")), (Some("x/a"), Some(0)));
    let (_, bytes) = files.take_chunk("x/a", &doc(r#"{"bytes":3,"data":"AAA="}"#)).unwrap();
    files.wrote(bytes);
    assert!(files.read_params().unwrap().is_none());
}

#[test]
fn generation_root_rejects_the_internal_generations_directory() {
    let e = materialize_derived("/d/generations", "g1", "/d/Baseline.app", None).unwrap_err();
    assert_eq!(e.code, "INVALID_GENERATION_ROOT");
    assert!(validate_generation_id("../x").is_err());
    validate_generation_id("g1").unwrap();
    assert!(validate_relative("../x").is_err());
    assert!(validate_relative("/x").is_err());
    validate_relative("a/b").unwrap();
    for prefix in ["a\\b", "../b", "/a", "a//b", "a/."] {
        let e = validate_prefix(prefix).unwrap_err();
        assert_eq!(e.code, "DATAPACK_PREFIX_INVALID");
        assert_eq!(e.message, format!("DataPack prefix is not a safe resource path: {prefix}"));
    }
    validate_prefix("").unwrap();
    validate_prefix("a/b").unwrap();
}

#[test]
fn materialize_normalizes_provenance_suffix_after_app() {
    match materialize_derived("/d/client", "generation-1", "/d/Example.app.validated-123", None).unwrap() {
        Materialization::Create { application_name } => assert_eq!(application_name, "Example.app"),
        other => panic!("{other:?}"),
    }
    assert_eq!(application_name("plain"), "plain");
    let mut stats = MaterializeStats::new();
    stats.count(workbench::generation::FileOutcome::Copied { size: 7 });
    let marker = materialized_marker("g1", "Example.app", "/d/Example.app", &None, stats, 5);
    match materialize_derived("/d/client", "g1", "/d/Example.app", Some(&marker)).unwrap() {
        Materialization::Reuse(g) => {
            assert_eq!(g.application_path, "/d/client/generations/g1/Example.app");
            assert_eq!((g.copied_files, g.copied_bytes, g.created_at), (1, 7, 5));
        }
        other => panic!("{other:?}"),
    }
    let failed = failed_marker("g1", "disk full", 5);
    assert_eq!(
        materialize_derived("/d/client", "g1", "/d/Example.app", Some(&failed)).unwrap_err().code,
        "GENERATION_EXISTS"
    );
}

#[test]
fn runtime_record_accepts_active_generation_state() {
    let marker = materialized_marker("active-generation", "Example.app", "/b", &None, MaterializeStats::new(), 5);
    let evidence = doc(r#"{"runtimeMarker":{"executorId":"mac-rust"}}"#);
    let marker = record_state(marker, "active-generation", "active", evidence, 6).unwrap();
    assert_eq!(marker.get_str("state"), Some("active"));
    assert_eq!(pointer(&marker, "evidence/runtimeMarker/executorId").unwrap().as_str(), Some("mac-rust"));
    assert!(record_state(Json::Null, "g", "nowhere", Json::Null, 6).is_err());
    assert!(generation_transition_allowed(&GenerationState::Reserved, &GenerationState::Materializing));
    assert!(!generation_transition_allowed(&GenerationState::Active, &GenerationState::Reserved));
}

#[test]
fn overlays_stay_inside_the_application() {
    let good = vec![Overlay { source: "/o".to_owned(), target_relative_path: "runtime".to_owned(), replace: true }];
    assert_eq!(apply_overlays("/app", &good).unwrap(), vec!["/app/runtime"]);
    let bad = vec![Overlay { source: "/o".to_owned(), target_relative_path: "../x".to_owned(), replace: false }];
    assert!(apply_overlays("/app", &bad).is_err());
}

fn packed(tree: &DataPackResourceTree, files: &[(&str, &str)], out: &mut Vec<PackResource>) {
    for (path, content) in files {
        if let Some(path) = packed_path(tree, path) {
            out.push(PackResource { path, content: content.as_bytes().to_vec() });
        }
    }
}

fn office(runtime: &str) -> Vec<PackResource> {
    let office = DataPackResourceTree {
        root_relative: "resources/local_webcontents/apps/doubao-office".to_owned(),
        prefix: String::new(),
        exclude_source_maps: false,
        exclude_root_files: vec!["doubao_office.pak".to_owned()],
    };
    let biz = DataPackResourceTree {
        root_relative: "resources/local_webcontents/biz".to_owned(),
        prefix: "biz".to_owned(),
        exclude_source_maps: true,
        exclude_root_files: Vec::new(),
    };
    let mut out = Vec::new();
    packed(
        &office,
        &[
            ("doubao_office.pak", "stale-pack"),
            ("index.html", "office"),
            ("static/v/w/formula.js", "equation"),
            ("static/v/w/runtime.js", runtime),
        ],
        &mut out,
    );
    packed(&biz, &[("static/js/entry.js", "flow"), ("static/js/entry.js.map", "source-map")], &mut out);
    out
}

#[test]
fn office_pack_uses_final_overlay_tree_and_flow_biz_resources() {
    let result = pack_chromium_datapack(office("selected-bear"), "win", "x64", "doubao-office", None, None, &Vec::new());
    let result = result.unwrap();
    assert_eq!(result.entries, 4);
    assert_eq!(result.sha256, format!("sha256:{}", sha256_bytes(&result.bytes)));
    let packed = &result.bytes;
    assert_eq!(u32::from_le_bytes(packed[0..4].try_into().unwrap()), 5);
    let from = u32::from_le_bytes(packed[14..18].try_into().unwrap()) as usize;
    let to = u32::from_le_bytes(packed[20..24].try_into().unwrap()) as usize;
    let manifest = decode(&packed[from..to]).unwrap();
    let paths: Vec<String> =
        manifest.get_array("entries").unwrap().iter().map(|e| e.get_text("path").unwrap()).collect();
    let has = |p: &str| paths.iter().any(|x| x == p);
    assert!(has("static/v/w/runtime.js") && has("static/v/w/formula.js") && has("biz/static/js/entry.js"));
    assert!(!has("biz/static/js/entry.js.map") && !has("doubao_office.pak"));
    let entries = parse_datapack_entries(packed, "base.pak").unwrap();
    assert_eq!(entries.len(), 4);
    for e in &entries {
        let content = &packed[e.offset as usize..(e.offset + e.length) as usize];
        if e.path == "static/v/w/formula.js" {
            assert_eq!(content, b"equation");
        }
    }
    assert!(parse_datapack_entries(&vec![1, 2, 3], "broken.pak").is_err());

    let full =
        pack_chromium_datapack(office("selected-bear-v2-longer"), "win", "x64", "doubao-office", None, None, &Vec::new())
            .unwrap();
    let base = BasePack { path: "base.pak".to_owned(), bytes: result.bytes.clone() };
    let incremental = pack_chromium_datapack(
        office("selected-bear-v2-longer"),
        "win",
        "x64",
        "doubao-office",
        Some(base),
        Some(&result.sha256),
        &vec!["static/v/w".to_owned()],
    )
    .unwrap();
    assert_eq!(incremental.bytes, full.bytes);
    assert_eq!(incremental.sha256, full.sha256);
    assert_eq!(incremental.content_hash, full.content_hash);
    assert!(full.content_hash.starts_with("sha256:") && full.content_hash.len() == 71);
    assert_ne!(full.content_hash, full.sha256);
    let base = BasePack { path: "base.pak".to_owned(), bytes: result.bytes };
    let wrong =
        pack_chromium_datapack(office("x"), "win", "x64", "doubao-office", Some(base), Some("sha256:0"), &Vec::new());
    assert!(wrong.is_err());
    assert!(path_matches_prefix("static/v/w/a.js", &vec!["static/v/w".to_owned()]));
    assert!(!path_matches_prefix("static/v/wx/a.js", &vec!["static/v/w".to_owned()]));
}

#[test]
fn evidence_is_cut_to_what_is_kept() {
    let mut output = doc(r#"{"a":[{"nativeEvaluations":[1,2,3],"b":1}]}"#);
    assert!(compact_value(&mut output));
    assert_eq!(encode(&output), r#"{"a":[{"b":1,"nativeObservationCount":3}]}"#);
    assert!(!compact_value(&mut output));
    let mut names = Vec::new();
    collect_native_accessible_names(&doc(r#"{"title":"Main","children":[{"title":"Save"},{"title":"Save"}]}"#), &mut names, 128);
    assert_eq!(names, vec!["Main", "Save"]);
    assert!(artifact_from_result("filesystem.read", &Json::obj(), &Json::obj(), "w", "e", "t", 1).is_none());
}

#[test]
fn the_kinds_of_values_are_told_apart() {
    assert!(value_matches_type(&doc("1"), "integer") && value_matches_type(&doc("1.5"), "number"));
    assert!(!value_matches_type(&doc("1.5"), "integer"));
    assert!(value_matches_type(&doc("null"), "null") && !value_matches_type(&doc("1"), "string"));
    let low = schema_report(&doc(r#"{"minimum":2}"#), &doc("1"), "$");
    assert_eq!(low.settle(&Vec::new()).unwrap_err().message, "$ is below minimum 2");
    let report = schema_report(&doc(r#"{"minimum":2.5}"#), &doc("1"), "$");
    assert_eq!(report.bounds.len(), 1);
    assert_eq!(report.settle(&vec![Some("2.5".to_owned())]).unwrap_err().message, "$ is below minimum 2.5");
    let report = schema_report(&doc(r#"{"maximum":2.5}"#), &doc("1"), "$");
    report.settle(&vec![None]).unwrap();
    let zeros = doc(r#"{"enum":[[0.0],"x"]}"#);
    schema_report(&zeros, &doc("[-0.0]"), "$").settle(&Vec::new()).unwrap();
    schema_report(&zeros, &doc("[0.0]"), "$").settle(&Vec::new()).unwrap();
    assert_eq!(
        schema_report(&zeros, &doc("[0]"), "$").settle(&Vec::new()).unwrap_err().message,
        "$ value is not in enum"
    );
    assert!(doc("-0.0").equals(&doc("0.0")) && !doc("-0.0").same(&doc("0.0")));
    assert!(!doc("-0.5").equals(&doc("0.5")));
    assert!(doc(r#"{"a":{"b":[-0.0]}}"#).equals(&doc(r#"{"a":{"b":[0.0]}}"#)));
    assert!(!doc(r#"{"a":0.0}"#).equals(&doc(r#"{"b":0.0}"#)));
}

#[test]
fn locks_are_rendered_before_they_are_taken() {
    let locks = vec![LockTemplate { key: "cdp:${port}".to_owned(), mode: LockMode::Exclusive }];
    assert_eq!(
        invocation_resources(&locks, "ui.click", false, &doc(r#"{"port":1}"#)).unwrap(),
        vec!["cdp:1"]
    );
    assert_eq!(invocation_resources(&locks, "ui.click", false, &doc("{}")).unwrap_err().code, "INVALID_LOCK_INPUT");
}

#[test]
fn tunnels_are_asked_for_where_they_are_offered() {
    let mut executor = controller().state.executors.remove(0);
    assert!(!workbench::snapshot::lists_tunnels(&executor));
    executor.capabilities.push(capability("tunnel.list", Effect::ReadOnly, CapabilityAuthority::Nothing));
    assert!(workbench::snapshot::lists_tunnels(&executor));
}

#[test]
fn only_resources_that_nobody_holds_are_taken() {
    let mut leases = LeaseTable::new();
    let name = |n: &str| n.to_owned();
    let fresh = vec![(name("l1"), name("t1")), (name("l2"), name("t2"))];
    leases.acquire(LeaseKind::Driver, "b", "other", 1_000, 1, "l", "t").unwrap();
    let busy = acquire_all(&mut leases, &vec![name("a"), name("b")], "me", 1_000, 2, &fresh).unwrap_err();
    assert_eq!(busy.code, "LEASE_ACTIVE");
    assert!(leases.get("a").is_none());
    assert_eq!(leases.get("b").unwrap().owner, "other");
    let twice = acquire_all(&mut leases, &vec![name("a"), name("a")], "me", 1_000, 2, &fresh).unwrap_err();
    assert_eq!(twice.code, "LEASE_ACTIVE");
    assert!(leases.get("a").is_none());
    let held = acquire_all(&mut leases, &vec![name("a"), name("b")], "me", 1_000, 1_001, &fresh).unwrap();
    let shown: Vec<(&str, &str)> = held.iter().map(|l| (l.resource.as_str(), l.owner.as_str())).collect();
    assert_eq!(shown, vec![("a", "me"), ("b", "me")]);
    assert_eq!((held[0].fence, held[1].fence), (3, 2));
}

#[test]
fn a_relay_carries_the_epoch_of_its_session() {
    let mut leases = LeaseTable::new();
    leases.acquire(LeaseKind::Driver, "workspace:w", "o", 60_000, 1, "l", "tok").unwrap();
    let params = doc(
        r#"{"source":{"executorId":"a","path":"/s"},"destination":{"executorId":"b","path":"/d"},"workspaceSessionId":"w","owner":"o","driverToken":"tok"}"#,
    );
    let fence = |all: &Vec<WorkspaceSession>| {
        let request = relay_request("me", all, &leases, &params, 2).unwrap();
        match &request.authority {
            Json::Array(items) => items[0].get_u64("fence").unwrap(),
            other => panic!("not a list: {other:?}"),
        }
    };
    assert_eq!(fence(&sessions(3)), (3 << 58) + 2 * 65_536 + 1);
    assert_eq!(fence(&Vec::new()), 2 * 65_536 + 1);
    assert!(fence(&sessions(4)) > fence(&sessions(3)));
}

#[test]
fn why_nothing_is_packed_does_not_rest_on_what_files_hold() {
    let file = |path: &str, text: &str| PackResource { path: path.to_owned(), content: text.as_bytes().to_vec() };
    for text in ["", "some text"] {
        let twice = vec![file("b", text), file("a", text), file("b", text)];
        let e = select_resources(twice, &None, None, &Vec::new()).unwrap_err();
        assert_eq!((e.code.as_str(), e.message.as_str()), ("OFFICE_PACK_DUPLICATE_PATH", "duplicate packed resource path: b"));
    }
    assert_eq!(select_resources(Vec::new(), &None, None, &Vec::new()).unwrap_err().code, "OFFICE_PACK_EMPTY");
    let sorted = select_resources(vec![file("b", "1"), file("a", "2")], &None, None, &Vec::new()).unwrap();
    let shown: Vec<(&str, &[u8])> = sorted.iter().map(|r| (r.path.as_str(), r.content.as_slice())).collect();
    assert_eq!(shown, vec![("a", "2".as_bytes()), ("b", "1".as_bytes())]);
}
