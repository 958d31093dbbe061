use workbench::application::{
    conflict_roots, merge_json, outer_application_root, patch_chromium_local_state, process_snapshot,
    processes_for_snapshot_roots, same_application_root, select_application_pid, Choice, PathFact,
};
use workbench::cdp::{
    capture_text, captured, captured_bytes, check_method, document_request, evaluate_params, evaluated, open_received_at,
    read_document, read_message_text, request_text, select_first_page, select_page, Message,
};
use workbench::codec::{decode, encode};
use workbench::hook::pointer;
use workbench::json::Json;
use workbench::launch::{
    check_conflicts, check_launch, check_signing, failed_output, inspection, launch_command, launch_time, sign_command,
    signal_target, signed_result, Launch, LaunchLook, LaunchStep, SigningUnit,
};
use workbench::windows::{
    choose_executable, command_line, find_package, has_exe_extension, inspect_script, launch_arguments, looks_into,
    package_candidates, package_document_types, package_identifier, terminate_script, window_inspection, DirectorySearch,
    Entry,
};

fn doc(text: &str) -> Json {
    decode(text.as_bytes()).unwrap()
}

fn fact(path: &str, value: &str) -> PathFact {
    PathFact { path: path.to_owned(), value: value.to_owned() }
}

fn strings(items: &[&str]) -> Vec<String> {
    items.iter().map(|s| s.to_string()).collect()
}

fn choice(roots: &[&str], canonical: Vec<PathFact>, identifiers: Vec<PathFact>, orphans: bool) -> Choice {
    Choice {
        roots: strings(roots),
        canonical,
        identifiers,
        include_orphan_repair: orphans,
        bundle_identifier: "example.target".to_owned(),
    }
}

#[test]
fn extracts_open_timestamp_for_fresh_target_selection() {
    assert_eq!(
        open_received_at("example://workspace/item/id?kind=file&openReceivedAt=1786990651541&viewId=2"),
        Some(1_786_990_651_541)
    );
    assert_eq!(open_received_at("example://workspace/item/id?kind=file"), None);
    assert_eq!(open_received_at("example://workspace/item/id?openReceivedAt=bad"), None);
}

#[test]
fn helper_executables_resolve_to_the_outer_application_bundle() {
    let executable = "/state/g/Demo.app/Contents/Helpers/Browser.app/Contents/Frameworks/F.framework/Helpers/Repair.app/Contents/MacOS/Repair";
    assert_eq!(outer_application_root(executable).unwrap(), "/state/g/Demo.app");
    assert_eq!(outer_application_root("/bin/sh"), None);
}

#[test]
fn process_selection_does_not_touch_unselected_extensions() {
    let processes = vec![
        doc(r#"{"pid": 1, "command": "/state/Target.app/Contents/MacOS/Target"}"#),
        doc(r#"{"pid": 2, "command": "/state/Target.app/Contents/Helpers/Repair"}"#),
        doc(r#"{"pid": 3, "command": "/Applications/Other.app/Contents/PlugIns/finder.appex/Contents/MacOS/finder"}"#),
    ];
    let selected =
        processes_for_snapshot_roots(&processes, &choice(&["/state/Target.app"], Vec::new(), Vec::new(), false));
    assert_eq!(selected.len(), 2);
    assert!(selected.iter().all(|item| item.get_u64("pid") != Some(3)));
}

#[test]
fn process_selection_matches_a_generation_through_current_symlink() {
    let processes = vec![doc(r#"{"pid": 42, "command": "/t/current/Doubao.app/Contents/MacOS/Doubao"}"#)];
    let canonical = vec![
        fact("/t/current/Doubao.app", "/t/generation-a/Doubao.app"),
        fact("/t/generation-a/Doubao.app", "/t/generation-a/Doubao.app"),
    ];
    assert!(same_application_root(&canonical, "/t/generation-a/Doubao.app", "/t/current/Doubao.app"));
    assert!(!same_application_root(&Vec::new(), "/t/generation-a/Doubao.app", "/t/current/Doubao.app"));
    let selected =
        processes_for_snapshot_roots(&processes, &choice(&["/t/generation-a/Doubao.app"], canonical, Vec::new(), false));
    assert_eq!(selected.len(), 1);
}

#[test]
fn orphaned_repair_helpers_count_where_asked_for() {
    let processes = vec![doc(
        r#"{"pid": 9, "command": "/old/X.app/Contents/Browser Helper (Repair).app/Contents/MacOS/Repair"}"#,
    )];
    let same = || vec![fact("/old/X.app", "example.target")];
    assert_eq!(processes_for_snapshot_roots(&processes, &choice(&["/new/X.app"], Vec::new(), same(), true)).len(), 1);
    assert_eq!(processes_for_snapshot_roots(&processes, &choice(&["/new/X.app"], Vec::new(), same(), false)).len(), 0);
    let roots = conflict_roots(&processes, "/new/X.app/Contents/MacOS/X", &same(), "example.target").unwrap();
    assert_eq!(roots, strings(&["/new/X.app", "/old/X.app"]));
    assert_eq!(
        conflict_roots(&processes, "/bin/x", &same(), "example.target").unwrap_err().code,
        "APPLICATION_INVALID"
    );
}

#[test]
fn application_pid_selection_ignores_nested_helpers() {
    let executable = "/state/Target.app/Contents/MacOS/Target";
    let processes = vec![
        doc(r#"{"pid": 42, "command": "/state/Target.app/Contents/Helpers/Worker.app/Contents/MacOS/Worker"}"#),
        doc(r#"{"pid": 43, "command": "/state/Target.app/Contents/MacOS/Target"}"#),
    ];
    assert_eq!(select_application_pid(&processes, executable), Some(43));
}

#[test]
fn application_pid_selection_rejects_helper_only_processes() {
    let executable = "/state/Target.app/Contents/MacOS/Target";
    let processes =
        vec![doc(r#"{"pid": 42, "command": "/state/Target.app/Contents/Helpers/Worker.app/Contents/MacOS/Worker"}"#)];
    assert_eq!(select_application_pid(&processes, executable), None);
}

#[test]
fn file_launch_uses_launch_services_with_outer_application() {
    let (program, args) = launch_command(
        "/Applications/Writer.app",
        "/Applications/Writer.app/Contents/MacOS/Writer",
        &Some("/tmp/example.data".to_owned()),
        &strings(&["--example"]),
    );
    assert_eq!(program, "/usr/bin/open");
    assert_eq!(
        args,
        strings(&["-n", "-a", "/Applications/Writer.app", "/tmp/example.data", "--args", "--example"])
    );
}

#[test]
fn application_only_launch_executes_the_outer_binary() {
    let executable = "/Applications/Writer.app/Contents/MacOS/Writer";
    let (program, args) = launch_command("/Applications/Writer.app", executable, &None, &strings(&["--example"]));
    assert_eq!(program, executable);
    assert_eq!(args, strings(&["--example"]));
}

#[test]
fn macos_chromium_local_state_patch_preserves_existing_preferences() {
    let stored = br#"{"existing":{"keep":true},"feature":{"shortcut":{"other":{"key":"A"}}}}"#.to_vec();
    let state = patch_chromium_local_state(
        &Some(stored),
        &doc(r#"{"feature": {"shortcut": {"launcher": {"key": ""}}}}"#),
        "/profile/Local State",
    )
    .unwrap();
    assert_eq!(pointer(&state, "existing/keep").unwrap().as_bool(), Some(true));
    assert_eq!(pointer(&state, "feature/shortcut/other/key").unwrap().as_str(), Some("A"));
    assert_eq!(pointer(&state, "feature/shortcut/launcher/key").unwrap().as_str(), Some(""));
}

#[test]
fn windows_chromium_local_state_patch_preserves_existing_preferences() {
    let stored = br#"{"existing": true, "saman": {"other": 1}}"#.to_vec();
    let state = patch_chromium_local_state(
        &Some(stored),
        &doc(r#"{"saman": {"use_file_resource": true, "hotfix": {"is_enabled": false}}}"#),
        "/profile/Local State",
    )
    .unwrap();
    assert_eq!(
        encode(&state),
        r#"{"existing":true,"saman":{"hotfix":{"is_enabled":false},"other":1,"use_file_resource":true}}"#
    );
    let patch = doc("{}");
    let code = |stored: &[u8], patch: &Json| {
        patch_chromium_local_state(&Some(stored.to_vec()), patch, "/p").unwrap_err().code
    };
    assert_eq!(code(b"[]", &patch), "PROFILE_INVALID");
    assert_eq!(code(b"nothing", &patch), "PROFILE_INVALID");
    assert_eq!(code(b"{}", &Json::Null), "INVALID_PARAMS");
    assert_eq!(patch_chromium_local_state(&None, &doc(r#"{"a":1}"#), "/p").unwrap(), doc(r#"{"a":1}"#));
    let mut target = doc(r#"{"a":{"b":1}}"#);
    merge_json(&mut target, &doc(r#"{"a":[2]}"#));
    assert_eq!(target, doc(r#"{"a":[2]}"#));
}

#[test]
fn electron_package_identity_and_associations_are_normalized() {
    let package = doc(r#"{
        "version": "1.2.3",
        "build": {
            "appId": "com.example.desktop",
            "fileAssociations": [{"ext": [".docx", "txt"]}]
        }
    }"#);
    assert_eq!(package_identifier(&package), Some(Json::text("com.example.desktop")));
    assert_eq!(
        package_document_types(&package),
        vec![doc(r#"{"CFBundleTypeExtensions": ["docx", "txt"], "LSItemContentTypes": []}"#)]
    );
    assert_eq!(package_identifier(&doc(r#"{"appId":"x"}"#)), Some(Json::text("x")));
    assert!(package_document_types(&doc(r#"{"build":{"fileAssociations":[{"name":"n"}]}}"#)).is_empty());
    let native = doc(r#"{"fileVersion":"9","productVersion":"8","signatureValid":true}"#);
    let told = workbench::windows::inspection("/app", "/app/x.exe", &None, &native, &None);
    assert_eq!(told.get_str("version"), Some("8"));
    let told = workbench::windows::inspection("/app", "/app/x.exe", &Some(package), &native, &None);
    assert_eq!(told.get_str("version"), Some("1.2.3"));
    assert_eq!(pointer(&told, "signature/valid").unwrap().as_bool(), Some(true));
}

#[test]
fn files_of_windows_applications_are_found() {
    assert_eq!(package_candidates("/app").len(), 3);
    let files = strings(&["/app/package.json", "/app/resources/package.json"]);
    assert_eq!(find_package("/app", &files).as_deref(), Some("/app/resources/package.json"));
    assert_eq!(find_package("/other", &files), None);
    assert!(has_exe_extension("Setup.EXE"));
    assert!(!has_exe_extension(".exe"));
    assert!(!has_exe_extension("exe"));
    assert!(looks_into(3) && !looks_into(4));
    let found = strings(&["C:\\a\\b\\x.exe", "C:\\a\\longer.exe", "C:\\a\\y.exe"]);
    assert_eq!(choose_executable(&found), Some(2));
    assert_eq!(choose_executable(&Vec::new()), None);
    let mut search = DirectorySearch::new("/r", "web");
    assert_eq!(search.next().as_deref(), Some("/r"));
    let entry = |path: &str, name: &str, is_dir: bool| Entry { path: path.into(), name: name.into(), is_dir };
    assert_eq!(search.take(&vec![entry("/r/a", "a", true), entry("/r/web", "web", false)]), None);
    assert_eq!(search.next().as_deref(), Some("/r/a"));
    assert_eq!(search.take(&vec![entry("/r/a/web", "web", true)]).as_deref(), Some("/r/a/web"));
    assert_eq!(search.next(), None);
}

#[test]
fn windows_command_lines_are_quoted() {
    assert_eq!(command_line("C:\\x y.exe", &strings(&["a\"b", ""])), "\"C:\\x y.exe\" \"a\\\"b\" \"\"");
    let args = launch_arguments(&strings(&["-x"]), &Some("/p".into()), true, Some(9222), &Some("f".into())).unwrap();
    assert_eq!(args, strings(&["-x", "--user-data-dir=/p", "--remote-debugging-port=9222", "f"]));
    assert_eq!(
        launch_arguments(&Vec::new(), &None, true, None, &None).unwrap_err().message,
        "chromiumLocalStatePatch requires userDataDir"
    );
    assert!(terminate_script("it's.exe").starts_with("$name='it''s.exe'; $items="));
    assert_eq!(inspect_script("@TARGET@|@EXPECTED@|@OUTPUT@", "a'b", "t", "o"), "a''b|t|o");
    let told = window_inspection("/a", "/a/x", doc(r#"{"processes":[{"pid":1},{},{"pid":2}]}"#), 5);
    assert_eq!(told.get("pids"), Some(&doc("[1,2]")));
}

#[test]
fn signing_stays_inside_the_application() {
    let unit = |path: &str| SigningUnit {
        path: path.to_owned(),
        identifier: Some("id".to_owned()),
        entitlements: None,
        options_runtime: true,
        requirements: None,
    };
    assert_eq!(check_signing("me", true, false).unwrap_err().code, "SIGNING_IDENTITY_NOT_ALLOWED");
    assert!(check_signing("-", false, false).is_ok());
    let args = sign_command(&unit("/A.app/F"), "/A.app", "-", &None).unwrap();
    assert_eq!(args, strings(&["--force", "--sign", "-", "--options", "runtime", "--identifier", "id", "/A.app/F"]));
    assert_eq!(
        sign_command(&unit("/A.appx/F"), "/A.app", "-", &None).unwrap_err().message,
        "/A.appx/F is outside /A.app"
    );
    let told = signed_result("/A.app", &strings(&["/A.app/F"]), "-", 7);
    assert_eq!(told.get_str("identity"), Some("ad-hoc"));
    let told = inspection("/A.app", &doc(r#"{"CFBundleVersion":"3"}"#), false, &None);
    assert_eq!(told.get_str("build"), Some("3"));
    assert_eq!(failed_output("X", &b"out".to_vec(), &b" err\n".to_vec()).message, "err");
    assert_eq!(failed_output("X", &b"out\n".to_vec(), &Vec::new()).message, "out");
}

#[test]
fn a_launch_goes_on_until_it_is_ready() {
    let args = strings(&["--use-mock-keychain"]);
    assert_eq!(check_launch(&Vec::new(), Some(1), false).unwrap_err().code, "UNSAFE_CREDENTIAL_MODE");
    assert!(check_launch(&args, Some(1), true).is_ok());
    assert!(check_launch(&Vec::new(), None, false).is_ok());
    let conflicts = process_snapshot("  1 /A.app/x\n2 /B.app/y z\nnoise\n3\n");
    assert_eq!(conflicts.len(), 2);
    assert_eq!(conflicts[1], doc(r#"{"command":"/B.app/y z","pid":2}"#));
    let found = vec![doc(r#"{"pid":1,"applicationRoot":"/A.app"}"#), doc(r#"{"pid":2,"applicationRoot":"/A.app"}"#)];
    let refused = check_conflicts(&found, false).unwrap_err();
    assert_eq!(refused.message, "2 conflicting process(es) across 1 application bundle(s) are running");
    assert!(check_conflicts(&found, true).is_ok());
    assert_eq!(signal_target(&found[0]), Some(1));
    assert_eq!(signal_target(&doc(r#"{"pid":4294967295}"#)), None);
    assert_eq!(signal_target(&doc("{}")), None);
    assert_eq!((launch_time(None), launch_time(Some(1))), (10_000, 60_000));
    let mut launch = Launch {
        application: "/A.app".into(),
        executable: "/A.app/x".into(),
        args,
        file: None,
        port: Some(9222),
        launcher_pid: None,
        terminated: found,
        pid: None,
        cdp: None,
    };
    let look = |pid: Option<u64>, cdp: Option<Json>, late: bool| LaunchLook { failure: None, pid, cdp, late };
    assert!(matches!(launch.look(look(Some(5), None, false)), LaunchStep::Again));
    assert!(matches!(launch.look(look(Some(6), None, true)), LaunchStep::Late));
    assert_eq!(launch.late_error(&Vec::new()).code, "APPLICATION_READINESS_TIMEOUT");
    assert!(matches!(launch.look(look(None, Some(doc("{}")), false)), LaunchStep::Ready));
    assert_eq!(launch.result(9).get_u64("pid"), Some(5));
    let gone = LaunchLook { failure: Some("exit status: 1".into()), pid: None, cdp: None, late: false };
    match launch.look(gone) {
        LaunchStep::Failed(e) => assert_eq!(e.code, "APPLICATION_EXITED"),
        other => panic!("goes on: {other:?}"),
    }
}

#[test]
fn the_latest_page_is_asked() {
    let pages = doc(r#"[
        {"type":"page","url":"x://a?openReceivedAt=5","webSocketDebuggerUrl":"ws://localhost:1/a"},
        {"type":"page","url":"x://a?openReceivedAt=9","webSocketDebuggerUrl":"ws://localhost:1/b"},
        {"type":"worker","url":"x://a?openReceivedAt=99"},
        {"type":"page","url":"y://c"}
    ]"#);
    assert_eq!(select_page(&pages, Some("x://")).unwrap().1, "ws://localhost:1/b");
    assert_eq!(select_first_page(&pages, None).unwrap().1, "ws://127.0.0.1:1/a");
    assert_eq!(select_page(&pages, Some("y://")).unwrap_err().code, "CDP_TARGET_INVALID");
    assert_eq!(select_page(&pages, Some("z://")).unwrap_err().code, "CDP_TARGET_NOT_FOUND");
    assert_eq!(select_page(&Json::Null, None).unwrap_err().code, "CDP_TARGET_NOT_FOUND");
    assert_eq!(
        request_text("Runtime.evaluate", &evaluate_params("1+1")),
        r#"{"id":1,"method":"Runtime.evaluate","params":{"awaitPromise":true,"expression":"1+1","returnByValue":true}}"#
    );
    let page = doc(r#"{"url":"u"}"#);
    assert!(matches!(read_message_text(r#"{"id":2}"#, &page, 1), Message::Other));
    match read_message_text(r#"{"id":1,"error":{"code":7}}"#, &page, 1) {
        Message::Failed(e) => assert_eq!(e.message, "{\"code\":7}"),
        other => panic!("not refused: {other:?}"),
    }
    match read_message_text(r#"{"id":1,"result":{"exceptionDetails":"x"}}"#, &page, 1) {
        Message::Failed(e) => assert_eq!((e.code.as_str(), e.message.as_str()), ("CDP_EVALUATION_FAILED", "\"x\"")),
        other => panic!("not refused: {other:?}"),
    }
    assert!(matches!(read_message_text("no", &page, 1), Message::Failed(_)));
    match read_message_text(r#"{"id":1,"result":{"result":{"value":2}}}"#, &page, 3) {
        Message::Answer(a) => {
            assert_eq!(evaluated(&a, 4), doc(r#"{"evaluatedAt":4,"target":{"url":"u"},"value":2}"#))
        }
        other => panic!("no answer: {other:?}"),
    }
    assert!(check_method("Input.insertText").is_ok());
    assert_eq!(check_method("Browser.close").unwrap_err().code, "CDP_METHOD_NOT_ALLOWED");
}

#[test]
fn pictures_are_decoded() {
    let response = doc(r#"{"result":{"data":"aGk="},"target":"t"}"#);
    assert_eq!(capture_text(&response).unwrap(), "aGk=");
    assert_eq!(captured_bytes(&response).unwrap(), b"hi".to_vec());
    assert_eq!(captured_bytes(&doc(r#"{"result":{}}"#)).unwrap_err().message, "screenshot data is missing");
    assert_eq!(captured_bytes(&doc(r#"{"result":{"data":"*"}}"#)).unwrap_err().code, "CDP_INVALID_RESPONSE");
    assert_eq!(captured(&response, "/p", 2, 5), doc(r#"{"bytes":2,"capturedAt":5,"path":"/p","target":"t"}"#));
    assert!(document_request(9222, "/json").starts_with("GET /json HTTP/1.1\r\nHost: 127.0.0.1:9222\r\n"));
    assert_eq!(read_document(&b"HTTP/1.1 200 OK\r\n\r\n[1]".to_vec()).unwrap(), doc("[1]"));
    assert_eq!(read_document(&b"HTTP/1.1".to_vec()).unwrap_err().message, "missing HTTP response body");
    assert_eq!(read_document(&b"\r\n\r\nx".to_vec()).unwrap_err().code, "CDP_INVALID_RESPONSE");
}
