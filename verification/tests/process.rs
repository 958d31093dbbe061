use workbench::codec::decode;
use workbench::json::Json;
use workbench::probe::{
    log_is_ready, ps_identity, ps_is_ended, readiness_once, stat_identity, stat_is_ended, tasklist_has, Probe, ProbeAnswer,
    Walk,
};
use workbench::process::{
    begin_stop, check_start, log_tail, restart_of, started, starting_phase, wait_ready, Probed, ProcessRecord, ProcessStart,
    ProcessState, ProcessTable, ReadinessState, ReadyWait, Stop,
};

fn doc(text: &str) -> Json {
    decode(text.as_bytes()).unwrap()
}

fn start(id: &str, readiness: Option<Json>, restartable: bool, metadata: Json) -> ProcessStart {
    ProcessStart {
        id: id.to_owned(),
        cwd: "/work".to_owned(),
        argv: vec!["sleep".to_owned(), "30".to_owned()],
        env: Vec::new(),
        log_path: "/work/log".to_owned(),
        readiness,
        restartable,
        metadata,
    }
}

fn record(readiness: Option<Json>) -> ProcessRecord {
    started(start("p", readiness, false, doc(r#"{"kind": "tunnel"}"#)), 42, Some("boot:7".to_owned()), 10, 1_000)
}

#[test]
fn persisted_pid_identity_is_revalidated_and_never_signals_a_reused_pid() {
    let mut r = record(None);
    let born = Some("boot:7".to_owned());
    r.observe(true, &born, Some(10), 1_001);
    assert!(r.identity_verified);
    r.birth_identity = None;
    r.observed_at = Some(0);
    r.observe(true, &born, Some(10), 1_002);
    assert_eq!(begin_stop(&r).unwrap_err().code, "PROCESS_IDENTITY_UNKNOWN");
    assert!(!r.identity_verified);
    r.birth_identity = Some("previous-process".to_owned());
    r.observe(true, &born, Some(10), 1_003);
    assert_eq!(r.state, ProcessState::Failed);
    assert_eq!(r.phase, "FAILED");
    assert_eq!(begin_stop(&r).unwrap(), Stop::Settled);
}

#[test]
fn persisted_zombie_is_failed_and_restartable_without_signaling_it() {
    for identity in [Some("boot:7".to_owned()), None] {
        let mut r = started(start("z", None, true, Json::Null), 42, identity, 0, 1);
        r.observe(false, &None, None, 2);
        assert_eq!(r.state, ProcessState::Failed);
        assert_eq!(begin_stop(&r).unwrap(), Stop::Settled);
        let again = restart_of(r).unwrap();
        assert_eq!(again.argv, vec!["sleep".to_owned(), "30".to_owned()]);
    }
    assert_eq!(restart_of(record(None)).unwrap_err().code, "PROCESS_NOT_RESTARTABLE");
}

#[test]
fn tunnel_readiness_is_reprobed_after_a_previous_success() {
    let mut r = record(Some(doc(r#"{"type": "file", "path": "/marker", "timeoutMs": 0}"#)));
    let born = Some("boot:7".to_owned());
    assert!(r.observe(true, &born, Some(10), 1_001));
    r.settle(Probed::Ready, 1_001);
    assert_eq!(r.readiness.state, ReadinessState::Ready);
    assert_eq!(r.phase, "READY");
    assert!(r.observe(true, &born, Some(10), 1_002));
    r.settle(Probed::NotReady, 1_002);
    assert_eq!(r.readiness.state, ReadinessState::Failed);
    assert_eq!(r.readiness.attempts, 2);
}

#[test]
fn all_readiness_requires_every_probe() {
    let spec = doc(r#"{"type": "all", "probes": [
        {"type": "file", "path": "/log"},
        {"type": "log", "pattern": "compiler done"}
    ]}"#);
    let mut answers = Vec::new();
    match readiness_once(&spec, &answers) {
        Walk::Ask(Probe::File(Some(path))) => assert_eq!(path, "/log"),
        other => panic!("not asked: {other:?}"),
    }
    answers.push(ProbeAnswer::Yes);
    match readiness_once(&spec, &answers) {
        Walk::Ask(Probe::Log(pattern)) => {
            assert!(log_is_ready(&pattern, &b"compiler done\n".to_vec(), 0));
            answers.push(ProbeAnswer::Yes);
        }
        other => panic!("not asked: {other:?}"),
    }
    assert!(matches!(readiness_once(&spec, &answers), Walk::Settled(true)));
    assert!(matches!(readiness_once(&spec, &vec![ProbeAnswer::No]), Walk::Settled(false)));
    for (text, message) in [
        (r#"{"type": "all"}"#, "all probes are required"),
        (r#"{"type": "all", "probes": []}"#, "all requires at least one probe"),
        (r#"{"type": "tcp"}"#, "tcp port is required"),
        (r#"{"type": "log"}"#, "log pattern is required"),
        (r#"{"type": "smoke"}"#, "unsupported readiness type: smoke"),
        ("{}", "unsupported readiness type: "),
    ] {
        match readiness_once(&doc(text), &Vec::new()) {
            Walk::Failed(e) => assert_eq!((e.code.as_str(), e.message.as_str()), ("INVALID_READINESS", message)),
            other => panic!("accepted {text}: {other:?}"),
        }
    }
    match readiness_once(&doc(r#"{"type": "tcp", "port": 80}"#), &Vec::new()) {
        Walk::Ask(Probe::Tcp(address)) => assert_eq!(address, "127.0.0.1:80"),
        other => panic!("not asked: {other:?}"),
    }
}

#[test]
fn process_readiness_ignores_log_output_from_a_previous_run() {
    let log = b"compiler done\nmore\n".to_vec();
    assert!(log_is_ready("^compiler done$", &log, 0));
    assert!(!log_is_ready("^compiler done$", &log, 14));
    assert!(!log_is_ready("^compiler$", &log, 0));
    assert!(log_is_ready("piler d", &log, 0));
    assert!(!log_is_ready("more", &log, 900));
    assert!(!log_is_ready("^", &log, 0));
}

#[test]
fn process_start_returns_pending_and_get_advances_readiness() {
    let spec = doc(r#"{"type": "log", "pattern": "^ready$", "timeoutMs": 2000}"#);
    let mut r = started(start("r", Some(spec), false, Json::Null), 42, Some("b".to_owned()), 10, 1_000);
    assert_eq!(r.readiness.state, ReadinessState::Pending);
    assert_eq!(r.readiness_deadline_at, Some(3_000));
    assert_eq!(r.phase, starting_phase());
    assert!(r.observe(true, &Some("b".to_owned()), Some(16), 1_100));
    assert_eq!(r.phase, "BUILDING");
    assert!(matches!(wait_ready(&r, false), ReadyWait::Again));
    r.settle(Probed::Ready, 1_100);
    assert!(r.readiness.attempts > 0);
    assert!(matches!(wait_ready(&r, true), ReadyWait::Ready));
}

#[test]
fn a_wait_ends_with_what_went_wrong() {
    let code = |r: &ProcessRecord, late: bool| match wait_ready(r, late) {
        ReadyWait::Failed(e) => e.code,
        other => panic!("goes on: {other:?}"),
    };
    let mut r = record(Some(doc(r#"{"type":"log","pattern":"x"}"#)));
    assert_eq!(code(&r, true), "BUILD_STALLED");
    r.observe(true, &Some("boot:7".to_owned()), Some(11), 1_001);
    assert_eq!(code(&r, true), "READINESS_MARKER_MISSING");
    r.settle(Probed::Invalid, 1_002);
    assert_eq!(code(&r, false), "READINESS_MARKER_MISSING");
    r.observe(false, &None, None, 1_003);
    assert_eq!(code(&r, false), "PROCESS_EXITED");
}

#[test]
fn a_process_is_started_once() {
    let mut r = record(None);
    let argv = vec!["sleep".to_owned()];
    assert_eq!(check_start("p", &Vec::new(), None).unwrap_err().code, "INVALID_PARAMS");
    assert!(check_start("p", &argv, None).is_ok());
    assert_eq!(check_start("p", &argv, Some(&r)).unwrap_err().code, "PROCESS_IDENTITY_UNKNOWN");
    r.observe(true, &Some("boot:7".to_owned()), None, 2);
    assert_eq!(check_start("p", &argv, Some(&r)).unwrap_err().code, "PROCESS_ALREADY_RUNNING");
    assert_eq!(begin_stop(&r).unwrap(), Stop::Signal(42));
    r.stopped(3);
    assert!(check_start("p", &argv, Some(&r)).is_ok());
}

#[test]
fn process_records_survive_table_restart() {
    let mut table = ProcessTable::new();
    for id in ["b", "a", "c"] {
        table.insert(started(start(id, None, false, Json::Null), 1, None, 0, 1));
    }
    let ids: Vec<&str> = table.records.iter().map(|r| r.id.as_str()).collect();
    assert_eq!(ids, vec!["a", "b", "c"]);
    table.insert(started(start("b", None, true, Json::Null), 2, None, 0, 2));
    assert_eq!(table.records.len(), 3);
    assert_eq!(table.records[table.find("b").unwrap()].pid, 2);
    let i = table.update_metadata("b", doc(r#"{"kind":"tunnel","desiredState":"stopped"}"#), 9).unwrap();
    assert_eq!(table.records[i].metadata.get_str("desiredState"), Some("stopped"));
    assert_eq!(table.find("z").unwrap_err().message, "unknown process: z");
    assert!(table.update_metadata("z", Json::Null, 9).is_err());
}

#[test]
fn identities_are_read_from_the_system() {
    let stat = "42 (a ) b) S 1 2 3 4 5 6 7 8 9 10 11 12 13 14 15 16 17 18 777 20 21";
    assert_eq!(stat_identity(stat, "boot-id\n").as_deref(), Some("boot-id:777"));
    assert!(!stat_is_ended(stat));
    assert!(stat_is_ended("42 (x) Z 1 2"));
    assert_eq!(stat_identity("42 (x) Z 1 2", "b"), None);
    assert_eq!(stat_identity("no bracket", "b"), None);
    assert_eq!(ps_identity(true, " Mon Jan  1 10:00:00 2026 S+\n").as_deref(), Some("Mon Jan 1 10:00:00 2026"));
    assert_eq!(ps_identity(true, "Mon Z"), None);
    assert_eq!(ps_identity(false, "Mon S"), None);
    assert!(ps_is_ended("  Z+"));
    assert!(!ps_is_ended("S"));
    assert!(tasklist_has(true, "\"x.exe\",\"42\",\"Console\"", 42));
    assert!(!tasklist_has(true, "\"x.exe\",\"421\"", 42));
}

#[test]
fn the_end_of_a_log_is_shown() {
    let tail = log_tail("p", "/log", "a\nb\r\nc\n", 2);
    assert_eq!(tail, doc(r#"{"lines":["b","c"],"path":"/log","processId":"p"}"#));
    assert_eq!(log_tail("p", "/log", "a", 9).get_array("lines").unwrap().len(), 1);
}
