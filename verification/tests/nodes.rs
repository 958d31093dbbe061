use workbench::codec::{decode, encode};
use workbench::controller::{
    check_executor, controller_call, doctor_report, executor_call, register_controller, register_executor,
    registered_executor, remove_executor, shown_check, transition_agent, Check,
};
use workbench::driver::{
    acquire_lease, cancel_driver, driver_handoff_status, lease_status, offer_lease, request_driver, take_driver,
    workspace_is_draining,
};
use workbench::json::Json;
use workbench::lease::{
    executor_execution_fence, lease_order_rank, map_lease_error, release_acquired, violates_lease_order, LeaseError,
    LeaseTable,
};
use workbench::port::{drop_port, list_ports, next_port, no_port, port_available, port_range};
use workbench::read_grant::{
    approve_read_grant, check_approval, list_read_grants, request_read_grant, resolve_read_grant, revoke_read_grant,
};
use workbench::rpc::{Called, Response, RpcError};
use workbench::runs::{
    call_peer_until_success, finish_elsewhere, get_elsewhere, list_runs, local_answer, merge_events, query_answer,
    query_limit, requested_cursor, retention_cutoff, run_page, start_run, NodeAnswer, RETENTION_MS,
};
use workbench::schema::{
    AgentInstance, AgentState, ControllerPeer, DriverHandoffState, Executor, ExecutorEndpoint, HealthStatus, LeaseKind,
    Metadata, Observation, ReadGrantState, Run, SessionAuthority, SessionState, WorkspaceSession,
};
use workbench::session::{
    accept_session, begin_session_handoff, finish_session_handoff, offered_session, prepare_session,
    route_session_action, routed_result, store_session, transition_session, Accepted, Route,
};
use workbench::snapshot::{shown_processes, shown_tunnels, tunnels_are_nameable};
use workbench::status::endpoint_json;
use workbench::task::TaskTable;

fn doc(text: &str) -> Json {
    decode(text.as_bytes()).unwrap()
}

fn local() -> ExecutorEndpoint {
    ExecutorEndpoint::Local { socket: "/run/x.sock".to_owned() }
}

fn answered(text: &str) -> Called {
    Called::Answered(Response::success("r", doc(text)))
}

fn refused(code: &str, message: &str) -> Called {
    Called::Answered(Response::failure("r", RpcError::new(code, message)))
}

fn metadata(id: &str) -> Metadata {
    Metadata { id: id.to_owned(), labels: Default::default(), created_at: 1, updated_at: 1 }
}

fn peer(id: &str) -> ControllerPeer {
    ControllerPeer {
        api_version: "workbench.dev/v1".to_owned(),
        metadata: metadata(id),
        endpoint: local(),
        health: HealthStatus::Ready,
    }
}

fn session(id: &str, owner: &str, epoch: u64) -> WorkspaceSession {
    WorkspaceSession {
        api_version: "workbench.dev/v1".to_owned(),
        metadata: metadata(id),
        objective: "test".to_owned(),
        state: SessionState::Active,
        authority: Some(SessionAuthority {
            controller_id: owner.to_owned(),
            epoch,
            pending_controller_id: None,
        }),
        observability: None,
    }
}

fn observation(node: &str, timestamp: u64, event_id: u64) -> Observation {
    Observation {
        event_id,
        run_id: Some("run-shared".to_owned()),
        timestamp,
        node_id: node.to_owned(),
        role: "controller".to_owned(),
        kind: "test".to_owned(),
        name: "event".to_owned(),
        status: "completed".to_owned(),
        duration_ms: None,
        span_id: None,
        parent_span_id: None,
        request_id: None,
        task_id: None,
        process_id: None,
        connection_id: None,
        attributes: Json::obj(),
    }
}

fn run(id: &str, at: u64) -> Run {
    start_run(&doc(r#"{"targetSummary":"t"}"#), at, id).unwrap()
}

#[test]
fn registers_and_calls_a_peer_controller_independently_of_transport_role() {
    let mut peers = Vec::new();
    let status = r#"{"peer":"ready","controller":{"id":"peer-b","status":"ready"}}"#;
    let wrong = register_controller(&mut peers, &doc(r#"{"controllerId":"wrong-peer"}"#), local(), answered(status), 5);
    let wrong = wrong.unwrap_err();
    assert_eq!(wrong.code, "CONTROLLER_IDENTITY_MISMATCH");
    assert_eq!(wrong.message, "endpoint reported Controller peer-b, expected wrong-peer");
    assert!(peers.is_empty());
    let i = register_controller(&mut peers, &doc(r#"{"controllerId":"peer-b"}"#), local(), answered(status), 5).unwrap();
    assert_eq!(peers[i].metadata.id, "peer-b");
    assert_eq!(peers[i].metadata.created_at, 5);
    let (at, action, params) =
        controller_call(&peers, &doc(r#"{"controllerId":"peer-b","action":"ping","params":{}}"#)).unwrap();
    assert_eq!((at, action.as_str(), encode(&params).as_str()), (0, "ping", "{}"));
    assert_eq!(
        controller_call(&peers, &doc(r#"{"controllerId":"x","action":"ping"}"#)).unwrap_err().code,
        "CONTROLLER_NOT_FOUND"
    );
    let silent = register_controller(&mut peers, &doc(r#"{"controllerId":"c"}"#), local(), answered("{}"), 5);
    assert_eq!(silent.unwrap_err().code, "CONTROLLER_INVALID");
    let gone =
        register_controller(&mut peers, &doc(r#"{"controllerId":"c"}"#), local(), Called::Unreachable("no".to_owned()), 5);
    let gone = gone.unwrap_err();
    assert_eq!((gone.code.as_str(), gone.retryable), ("CONTROLLER_UNAVAILABLE", true));
}

#[test]
fn executor_registration_rejects_an_endpoint_with_another_identity() {
    let mut executors: Vec<Executor> = Vec::new();
    let status = r#"{"executorId":"executor-b","status":"ready","capabilities":[],"allowedRoots":[]}"#;
    let e = register_executor(
        &mut executors,
        &doc(r#"{"executorId":"wrong-executor"}"#),
        local(),
        answered(status),
        Ok(Vec::new()),
        Ok(Vec::new()),
        1,
    )
    .unwrap_err();
    assert_eq!(e.code, "EXECUTOR_IDENTITY_MISMATCH");
    assert!(executors.is_empty());
    let params = doc(r#"{"executorId":"executor-b"}"#);
    let bad = register_executor(
        &mut executors,
        &params,
        local(),
        answered(status),
        Err("missing field `name`".to_owned()),
        Ok(Vec::new()),
        1,
    );
    assert_eq!(bad.unwrap_err().code, "EXECUTOR_INVALID");
    let roots = Ok(vec!["/w".to_owned()]);
    register_executor(&mut executors, &params, local(), answered(status), Ok(Vec::new()), roots, 1).unwrap();
    assert_eq!(executors[0].allowed_roots, vec!["/w"]);
    assert_eq!(registered_executor(&executors, "executor-b").unwrap(), 0);
    assert_eq!(registered_executor(&executors, "x").unwrap_err().message, "unknown executor: x");
    remove_executor(&mut executors, &params).unwrap();
    assert_eq!(remove_executor(&mut executors, &params).unwrap_err().code, "EXECUTOR_NOT_FOUND");
}

#[test]
fn a_call_to_an_executor_carries_the_fences_of_the_leases_it_claims() {
    let mut executors: Vec<Executor> = Vec::new();
    let params = doc(r#"{"executorId":"e"}"#);
    register_executor(&mut executors, &params, local(), answered(r#"{"executorId":"e"}"#), Ok(Vec::new()), Ok(Vec::new()), 1)
        .unwrap();
    let mut leases = LeaseTable::new();
    let held = doc(r#"{"resource":"port:e:1","owner":"o"}"#);
    acquire_lease(&mut leases, &held, LeaseKind::Resource, 1, "lease_1", "tok").unwrap();
    let call = doc(r#"{"executorId":"e","action":"a","params":{"x":1},"leaseResource":"port:e:1","owner":"o","token":"tok"}"#);
    let (_, action, sent) = executor_call("me", &executors, &leases, &call, 2).unwrap();
    assert_eq!(action, "a");
    assert_eq!(
        encode(&sent),
        r#"{"_authority":[{"controllerId":"me","fence":1,"resource":"port:e:1"}],"x":1}"#
    );
    let wrong = doc(r#"{"executorId":"e","action":"a","leases":[{"resource":"port:e:1","owner":"o","token":"no"}]}"#);
    assert!(executor_call("me", &executors, &leases, &wrong, 2).is_err());
}

#[test]
fn the_doctor_reports_every_executor() {
    let mut executors: Vec<Executor> = Vec::new();
    let params = doc(r#"{"executorId":"e"}"#);
    register_executor(&mut executors, &params, local(), answered(r#"{"executorId":"e"}"#), Ok(Vec::new()), Ok(Vec::new()), 1)
        .unwrap();
    let checks =
        vec![check_executor(answered("{}")), check_executor(refused("X", "y")), check_executor(Called::Unreachable("z".to_owned()))];
    assert!(matches!(checks[1], Check::Failed(Some(_))));
    let shown: Vec<Json> = checks.iter().map(|c| shown_check(&executors[0], c, Json::Null)).collect();
    assert_eq!(
        encode(&doctor_report("me", &checks, shown)),
        r#"{"checks":[{"capabilities":0,"executorId":"e","status":"ready"},{"error":null,"executorId":"e","status":"failed"},{"error":"z","executorId":"e","status":"offline"}],"controller":{"id":"me","status":"ready"},"healthy":false}"#
    );
    assert_eq!(
        encode(&doctor_report("me", &Vec::new(), Vec::new())),
        r#"{"checks":[],"controller":{"id":"me","status":"ready"},"healthy":true}"#
    );
}

#[test]
fn observability_query_merges_peer_events_and_marks_offline_nodes_stale() {
    let events = vec![observation("node-a", 1, 7), observation("node-b", 1, 3), observation("node-a", 1, 7)];
    assert_eq!(merge_events(&events, 20), vec![0, 1]);
    assert_eq!(merge_events(&events, 1), vec![1]);
    let mixed = vec![
        observation("b", 5, 1), observation("a", 5, 2), observation("a", 4, 9), observation("b", 6, 1), observation("a", 5, 1),
    ];
    assert_eq!(merge_events(&mixed, 20), vec![2, 4, 1, 0]);
    assert_eq!(merge_events(&mixed, 2), vec![1, 0]);
    let answers = vec![
        NodeAnswer { node_id: "node-b".to_owned(), previous: 0, called: answered(r#"{"cursor":3}"#) },
        NodeAnswer { node_id: "node-offline".to_owned(), previous: 2, called: Called::Unreachable("gone".to_owned()) },
    ];
    assert_eq!(
        encode(&query_answer("node-a", Vec::new(), 7, &answers)),
        r#"{"cursor":7,"cursors":{"node-a":7,"node-b":3,"node-offline":2},"events":[],"nodes":[{"cursor":7,"nodeId":"node-a","stale":false},{"cursor":3,"nodeId":"node-b","stale":false},{"cursor":2,"nodeId":"node-offline","stale":true}]}"#
    );
    assert_eq!(
        encode(&local_answer("node-a", Vec::new(), 7)),
        r#"{"cursor":7,"events":[],"nodeId":"node-a","stale":false}"#
    );
    let params = doc(r#"{"cursor":4,"cursors":{"node-b":9}}"#);
    assert_eq!(requested_cursor(&params, "node-a", true), Some(4));
    assert_eq!(requested_cursor(&params, "node-b", false), Some(9));
    assert_eq!(requested_cursor(&params, "node-c", false), None);
}

#[test]
fn runs_of_several_controllers_are_listed_once_and_newest_first() {
    let runs = vec![run("a", 1), run("b", 3), run("a", 2), run("c", 3)];
    let ids = |v: Vec<Run>| v.iter().map(|r| r.run_id.clone()).collect::<Vec<_>>().join(",");
    assert_eq!(ids(list_runs(&runs, true, &None, 0, 10)), "b,c,a");
    assert_eq!(ids(list_runs(&runs, false, &None, 0, 10)), "b,c,a,a");
    assert_eq!(ids(list_runs(&runs, true, &None, 1, 1)), "c");
    assert_eq!(ids(list_runs(&runs, true, &Some("completed".to_owned()), 0, 10)), "");
    let page = run_page(&doc(r#"{"limit":9000,"offset":3}"#));
    assert_eq!((page.limit, page.offset, page.fetch), (500, 3, 500));
    assert_eq!((run_page(&doc("{}")).limit, run_page(&doc(r#"{"limit":0}"#)).limit), (100, 1));
    assert_eq!((query_limit(0, 1000), query_limit(5000, 1000), query_limit(7, 1000)), (1, 1000, 7));
    assert_eq!((retention_cutoff(RETENTION_MS + 5), retention_cutoff(5)), (5, 0));
}

#[test]
fn a_run_that_is_elsewhere_is_asked_for_there() {
    let params = doc(r#"{"runId":"r","status":"completed"}"#);
    assert_eq!(
        encode(&finish_elsewhere(&params, "r").unwrap()),
        r#"{"businessOutcome":null,"localOnly":true,"runId":"r","status":"completed"}"#
    );
    assert!(finish_elsewhere(&doc(r#"{"localOnly":true}"#), "r").is_none());
    assert_eq!(encode(&get_elsewhere(&params, "r").unwrap()), r#"{"localOnly":true,"runId":"r"}"#);
    assert_eq!(get_elsewhere(&doc(r#"{"localOnly":true}"#), "r").unwrap_err().message, "run not found");
    let calls = vec![Called::Unreachable("x".to_owned()), refused("RUN_NOT_FOUND", "no"), answered("1"), answered("2")];
    assert_eq!(encode(&call_peer_until_success(&calls).unwrap()), "1");
    assert_eq!(
        call_peer_until_success(&Vec::new()).unwrap_err().message,
        "run was not found on any connected Controller"
    );
}

#[test]
fn session_handoff_moves_authority_and_routes_through_old_home() {
    let mut sessions = Vec::new();
    let mut grants = Vec::new();
    let mut fresh = session("session-1", "node-a", 1);
    fresh.authority = None;
    let (prepared, revoked) = prepare_session("node-a", &sessions, &grants, fresh).unwrap();
    assert_eq!(prepared.authority.as_ref().unwrap().controller_id, "node-a");
    store_session(&mut sessions, &mut grants, prepared, &revoked, 2);
    let forged = prepare_session("node-a", &sessions, &grants, session("session-1", "node-a", 9));
    assert_eq!(forged.unwrap_err().code, "INVALID_AUTHORITY");
    let foreign = prepare_session("node-a", &sessions, &grants, session("session-1", "node-b", 1));
    assert_eq!(foreign.unwrap_err().message, "session session-1 is owned by controller node-b");

    let peers = vec![peer("node-b")];
    let params = doc(r#"{"sessionId":"session-1","targetControllerId":"node-b"}"#);
    assert_eq!(
        begin_session_handoff("node-a", &mut sessions, &Vec::new(), &Vec::new(), &params).unwrap_err().message,
        "target not registered"
    );
    let (target, at) = begin_session_handoff("node-a", &mut sessions, &peers, &Vec::new(), &params).unwrap();
    assert_eq!((target, at), (0, 0));
    let pending = sessions[0].authority.as_ref().unwrap();
    assert_eq!((pending.pending_controller_id.as_deref(), pending.epoch), (Some("node-b"), 1));
    let offered = offered_session(sessions[0].clone(), "node-b", 3);
    assert_eq!(offered.authority.as_ref().unwrap().epoch, 2);

    let mut there = Vec::new();
    assert!(matches!(accept_session("node-b", &mut there, offered.clone()).unwrap(), Accepted::Stored));
    assert!(matches!(accept_session("node-b", &mut there, offered.clone()).unwrap(), Accepted::Already(0)));
    assert_eq!(accept_session("node-c", &mut there, offered.clone()).unwrap_err().code, "INVALID_AUTHORITY");
    let mut stale = offered.clone();
    stale.authority.as_mut().unwrap().epoch = 1;
    assert_eq!(accept_session("node-b", &mut there, stale).unwrap_err().code, "STALE_AUTHORITY_EPOCH");

    finish_session_handoff(&mut sessions, offered, answered("{}")).unwrap();
    assert_eq!(sessions[0].authority.as_ref().unwrap().controller_id, "node-b");
    let id = Some("session-1".to_owned());
    assert!(matches!(
        route_session_action("node-a", &sessions, &peers, "task.submit", &id).unwrap(),
        Route::Peer(0)
    ));
    assert!(matches!(route_session_action("node-b", &there, &Vec::new(), "task.submit", &id).unwrap(), Route::Here));
    assert_eq!(routed_result(Called::Unreachable("down".to_owned())).unwrap_err().message, "down");
    let i = transition_session(&mut sessions, &doc(r#"{"sessionId":"session-1"}"#), SessionState::Completed, 9).unwrap();
    assert_eq!((sessions[i].state.clone(), sessions[i].metadata.updated_at), (SessionState::Completed, 9));
}

#[test]
fn a_driver_is_asked_for_offered_and_taken() {
    let mut requests = Vec::new();
    let mut leases = LeaseTable::new();
    let tasks = TaskTable::new();
    let own = doc(r#"{"resource":"workspace:w","owner":"a"}"#);
    let lease = take_driver(&mut leases, &own, 1, "lease_1", "tok_a").unwrap();
    assert_eq!(lease.fence, 1);
    let ask = doc(r#"{"workspaceSessionId":"w","owner":"b"}"#);
    let asked = request_driver(&mut requests, &mut leases, &tasks, &Vec::new(), &ask, 2, "h1").unwrap();
    assert_eq!(asked.previous_owner.as_deref(), Some("a"));
    assert_eq!(
        request_driver(&mut requests, &mut leases, &tasks, &Vec::new(), &doc(r#"{"workspaceSessionId":"w","owner":"a"}"#), 2, "h2")
            .unwrap_err()
            .code,
        "ALREADY_DRIVER"
    );
    let shown = driver_handoff_status(&mut requests, &mut leases, &tasks, &Vec::new(), &ask, 3).unwrap().unwrap();
    assert_eq!(shown.state, DriverHandoffState::Ready);
    assert!(workspace_is_draining(&requests, "w", "a", 3));
    assert!(!workspace_is_draining(&requests, "w", "b", 3));
    cancel_driver(&mut requests, &mut leases, &ask, 4).unwrap();
    assert_eq!(requests[0].state, DriverHandoffState::Cancelled);
    assert_eq!(cancel_driver(&mut requests, &mut leases, &ask, 5).unwrap_err().code, "DRIVER_HANDOFF_NOT_FOUND");

    let offer = doc(r#"{"resource":"workspace:w","owner":"a","token":"tok_a","target":"b"}"#);
    assert_eq!(offer_lease(&mut leases, &offer, 6).unwrap().handoff_to.as_deref(), Some("b"));
    assert!(take_driver(&mut leases, &doc(r#"{"resource":"workspace:w","owner":"c"}"#), 7, "x", "y").is_err());
    let taken = take_driver(&mut leases, &doc(r#"{"resource":"workspace:w","owner":"b"}"#), 7, "lease_2", "tok_b").unwrap();
    assert_eq!((taken.owner.as_str(), taken.fence), ("b", 2));
    assert_eq!(lease_status(&leases, &own).unwrap().unwrap().owner, "b");
}

#[test]
fn leases_are_taken_from_the_last_kind_to_the_first() {
    assert!(lease_order_rank("workspace:w") < lease_order_rank("runtime:x"));
    assert!(lease_order_rank("runtime:x") < lease_order_rank("acceptance:e:1"));
    let mut leases = LeaseTable::new();
    take_driver(&mut leases, &doc(r#"{"resource":"workspace:w","owner":"a"}"#), 1, "l", "t").unwrap();
    assert!(violates_lease_order(&leases.snapshot(), "a", "runtime:x"));
    assert!(!violates_lease_order(&leases.snapshot(), "b", "runtime:x"));
    let held = leases.snapshot();
    release_acquired(&mut leases, &held, 2);
    assert!(leases.get("workspace:w").is_none());
    assert_eq!(executor_execution_fence(0, 5, 3), 3 * 65_536 + 5);
    assert_eq!(executor_execution_fence(0, u64::MAX, 0), 65_535);
    assert_eq!(map_lease_error(LeaseError::NotFound).code, "LEASE_NOT_FOUND");
    assert_eq!(
        map_lease_error(LeaseError::Active { owner: "a".to_owned(), expires_at: 9 }).code,
        "LEASE_ACTIVE"
    );
}

#[test]
fn a_port_is_leased_only_while_it_is_free() {
    assert_eq!(port_range(&doc("{}")).unwrap(), (20_000, 40_000));
    for bad in [r#"{"start":0}"#, r#"{"end":70000}"#, r#"{"start":9,"end":8}"#] {
        assert_eq!(port_range(&doc(bad)).unwrap_err().message, "invalid port range");
    }
    let mut leases = LeaseTable::new();
    let params = doc("{}");
    let (port, lease) = next_port(&mut leases, "e", "o", &params, 7, 9, 1, "l1", "t1").unwrap();
    assert_eq!((port, lease.resource.as_str()), (7, "port:e:7"));
    let (next, _) = next_port(&mut leases, "e", "p", &params, 7, 9, 1, "l2", "t2").unwrap();
    assert_eq!(next, 8);
    assert_eq!(list_ports(&leases.snapshot()).len(), 2);
    drop_port(&mut leases, &lease, 2);
    assert!(leases.get("port:e:7").is_none());
    assert!(port_available(&answered(r#"{"available":true}"#)));
    assert!(!port_available(&answered("{}")));
    assert!(!port_available(&Called::Unreachable("x".to_owned())));
    assert_eq!(no_port(7, 9).message, "no available port in 7..=9");
}

#[test]
fn a_grant_to_read_is_requested_approved_once_and_revoked() {
    let mut grants = Vec::new();
    let params = doc(r#"{"workspaceSessionId":"w","executorId":"e","requestedRoot":"~/x","requestedBy":"agent"}"#);
    let (executor, ask) = resolve_read_grant(&params).unwrap();
    assert_eq!((executor.as_str(), encode(&ask).as_str()), ("e", r#"{"requestedRoot":"~/x"}"#));
    let i = request_read_grant(&mut grants, &params, &doc(r#"{"realRoot":"/home/u/x"}"#), 1, "g1").unwrap();
    assert_eq!((grants[i].real_root.as_str(), grants[i].capabilities.len()), ("/home/u/x", 5));
    let approve = doc(r#"{"grantId":"g1","approvedBy":"human"}"#);
    assert_eq!(check_approval(&grants, &approve).unwrap(), 0);
    approve_read_grant(&mut grants, &approve, 2).unwrap();
    assert_eq!(grants[0].state, ReadGrantState::Approved);
    assert_eq!(approve_read_grant(&mut grants, &approve, 3).unwrap_err().code, "INVALID_READ_GRANT_STATE");
    assert_eq!(list_read_grants(&grants, &doc(r#"{"executorId":"e"}"#)), vec![0]);
    assert!(list_read_grants(&grants, &doc(r#"{"executorId":"x"}"#)).is_empty());
    revoke_read_grant(&mut grants, &doc(r#"{"grantId":"g1"}"#), 4).unwrap();
    assert_eq!((grants[0].state.clone(), grants[0].revoked_at), (ReadGrantState::Revoked, Some(4)));
    assert_eq!(
        revoke_read_grant(&mut grants, &doc(r#"{"grantId":"x"}"#), 4).unwrap_err().message,
        "unknown read grant: x"
    );
}

#[test]
fn agents_change_their_state_by_name() {
    let mut agents = vec![AgentInstance {
        id: "a".to_owned(),
        workspace_session_id: "w".to_owned(),
        executor_id: "e".to_owned(),
        role: "coder".to_owned(),
        provider: "p".to_owned(),
        state: AgentState::Starting,
        metadata: Json::Null,
    }];
    transition_agent(&mut agents, &doc(r#"{"agentId":"a"}"#), AgentState::Running).unwrap();
    assert_eq!(agents[0].state, AgentState::Running);
    assert_eq!(
        transition_agent(&mut agents, &doc(r#"{"agentId":"b"}"#), AgentState::Running).unwrap_err().code,
        "AGENT_NOT_FOUND"
    );
}

#[test]
fn what_executors_run_is_shown_with_their_names() {
    assert!(tunnels_are_nameable(&answered(r#"{"tunnels":[{"id":"t"}]}"#)));
    assert!(!tunnels_are_nameable(&answered(r#"{"tunnels":[1]}"#)));
    let shown = shown_tunnels("e", &answered(r#"{"tunnels":[{"id":"t"}]}"#));
    assert_eq!(shown.len(), 1);
    assert_eq!(shown[0].get_str("executorId"), Some("e"));
    let down = shown_processes("e", &Called::Unreachable("x".to_owned()));
    assert_eq!(down.get_str("executorId"), Some("e"));
    assert_eq!(encode(&endpoint_json(&local())), r#"{"socket":"/run/x.sock","transport":"local"}"#);
}

#[test]
fn the_epoch_of_a_session_leads_the_fences_of_its_executors() {
    assert_eq!(executor_execution_fence(1, 0, 0), 1 << 58);
    assert_eq!(executor_execution_fence(2, 5, 1_700_000_000_000), (2 << 58) + 1_700_000_000_000 * 65_536 + 5);
    assert!(executor_execution_fence(2, 1, 1_000) > executor_execution_fence(1, 60_000, 2_000_000_000_000));
    assert!(executor_execution_fence(1, 1, 1_001) > executor_execution_fence(1, 9, 1_000));
    assert!(executor_execution_fence(1, 2, 1_000) > executor_execution_fence(1, 1, 1_000));
    assert_eq!(executor_execution_fence(63, 0, 0), executor_execution_fence(u64::MAX, 0, 0));
    assert_eq!(executor_execution_fence(0, 0, u64::MAX), ((1 << 42) - 1) * 65_536);
    assert_eq!(executor_execution_fence(u64::MAX, u64::MAX, u64::MAX), u64::MAX);
}
