use workbench::codec::decode;
use workbench::hook::pointer;
use workbench::json::Json;
use workbench::schema::{TaskFailure, TaskState};
use workbench::task::{TaskError, TaskTable};
use workbench::task_requests::{
    begin_cancel, can_submit, finish_cancel, no_process, submit_task, transition_task, wait_step, wait_timeout_ms,
    Cancellation, Wait,
};

fn doc(text: &str) -> Json {
    decode(text.as_bytes()).unwrap()
}

fn text_at<'a>(j: &'a Json, path: &str) -> &'a str {
    pointer(j, path).unwrap().as_str().unwrap()
}

#[test]
fn persistence_snapshot_redacts_nested_task_secrets_without_mutating_live_input() {
    let mut table = TaskTable::new();
    let (task, _) = table.submit(
        "s",
        "e",
        "artifact.build",
        doc(r#"{"driverLeaseToken":"secret","nested":{"api_secret":"hidden"},"argv":["--notify-token","token_value"],"stdout":"prefix token_embedded suffix","safe":"kept"}"#),
        "build",
        1,
        "task_1",
    );
    table.transition(&task.id, TaskState::Running, None, None, 2).unwrap();
    table
        .transition(
            &task.id,
            TaskState::Failed,
            None,
            Some(TaskFailure {
                code: "FAILED".into(),
                message: "leaked token_value".into(),
                retryable: false,
                details: Json::Null,
            }),
            3,
        )
        .unwrap();
    let persisted = table.persistence_snapshot();
    assert_eq!(text_at(&persisted[0].input, "driverLeaseToken"), "<redacted>");
    assert_eq!(text_at(&persisted[0].input, "nested/api_secret"), "<redacted>");
    assert_eq!(text_at(&persisted[0].input, "argv/1"), "<redacted>");
    assert_eq!(text_at(&persisted[0].input, "stdout"), "<redacted>");
    assert_eq!(text_at(&persisted[0].input, "safe"), "kept");
    assert_eq!(persisted[0].error.as_ref().unwrap().message, "<redacted>");
    assert_eq!(text_at(&table.get(&task.id).unwrap().input, "driverLeaseToken"), "secret");
}

#[test]
fn submission_is_idempotent_and_transitions_are_checked() {
    let mut table = TaskTable::new();
    let now: u64 = 1_000;
    let (first, reused) = table.submit("s", "e", "artifact.build", Json::Null, "same", now, "task_a");
    assert!(!reused);
    let (second, reused) = table.submit("s", "e", "artifact.build", Json::Null, "same", now, "task_b");
    assert!(reused);
    assert_eq!(first.id, second.id);
    table.transition(&first.id, TaskState::Running, None, None, now).unwrap();
    table.transition(&first.id, TaskState::Succeeded, Some(Json::Bool(true)), None, now).unwrap();
    assert!(table.get(&first.id).unwrap().state.terminal());

    let (different_capability, reused) = table.submit("s", "e", "artifact.transfer", Json::Null, "same", now, "task_c");
    assert!(!reused);
    assert_ne!(different_capability.id, first.id);

    let removed = table.prune_terminal_before(now + 1);
    assert_eq!(removed.len(), 1);
    let (resubmitted, reused) = table.submit("s", "e", "artifact.build", Json::Null, "same", now, "task_d");
    assert!(!reused);
    assert_ne!(resubmitted.id, first.id);
}

#[test]
fn restart_marks_inflight_tasks_outcome_unknown_and_retryable() {
    let mut table = TaskTable::new();
    let (task, _) = table.submit("s", "e", "artifact.build", Json::Null, "build", 1, "task_1");
    table.transition(&task.id, TaskState::Running, None, None, 2).unwrap();
    let recovered = table.recover_orphans(3);
    assert_eq!(recovered.len(), 1);
    assert_eq!(recovered[0].state, TaskState::OutcomeUnknown);
    assert!(recovered[0].error.as_ref().unwrap().retryable);
}

#[test]
fn retention_keeps_active_tasks_and_evicts_oldest_terminal_tasks() {
    let mut table = TaskTable::new();
    let (first, _) = table.submit("s", "e", "filesystem.read", Json::Null, "first", 1, "task_1");
    table.transition(&first.id, TaskState::Running, None, None, 2).unwrap();
    table.transition(&first.id, TaskState::Succeeded, Some(doc(r#"{"value": "old"}"#)), None, 3).unwrap();
    let (second, _) = table.submit("s", "e", "filesystem.read", Json::Null, "second", 4, "task_2");
    table.transition(&second.id, TaskState::Running, None, None, 5).unwrap();
    table.transition(&second.id, TaskState::Succeeded, Some(doc(r#"{"value": "new"}"#)), None, 6).unwrap();
    let (running, _) = table.submit("s", "e", "command.run", Json::Null, "running", 7, "task_3");

    let sizes = vec![100, 100, 100];
    let removed = table.prune_retention(8, u64::MAX, 2, usize::MAX, &sizes);
    assert_eq!(removed.len(), 1);
    assert_eq!(removed[0].id, first.id);
    assert!(table.get(&second.id).is_some());
    assert!(table.get(&running.id).is_some());
}

#[test]
fn retention_takes_the_smaller_identity_of_two_and_no_more_than_it_has_to() {
    let mut table = TaskTable::new();
    for (id, key) in [("task_b", "1"), ("task_a", "2"), ("task_c", "3")] {
        table.submit("s", "e", "c", Json::Null, key, 1, id);
        table.transition(id, TaskState::Running, None, None, 2).unwrap();
        table.transition(id, TaskState::Succeeded, None, None, 3).unwrap();
    }
    let removed = table.prune_retention(4, u64::MAX, 2, usize::MAX, &vec![10, 10, 10]);
    assert_eq!(removed.iter().map(|t| t.id.as_str()).collect::<Vec<_>>(), vec!["task_a"]);
    assert!(table.prune_retention(4, u64::MAX, 2, 20, &vec![10, 10]).is_empty());
    assert_eq!(table.prune_retention(4, u64::MAX, 2, 19, &vec![10, 10])[0].id, "task_b");
    assert_eq!(table.tasks[0].id, "task_c");
}

#[test]
fn stored_tasks_of_one_identity_keep_their_keys() {
    let stored = |id: &str, capability: &str, key: &str| {
        let mut table = TaskTable::new();
        table.submit("s", "e", capability, Json::Null, key, 1, id).0
    };
    let mut table = TaskTable::from_tasks(vec![
        stored("task_1", "old", "a"),
        stored("task_1", "new", "b"),
        stored("task_2", "new", "b"),
    ]);
    assert_eq!(table.tasks.len(), 2);
    assert_eq!(table.get("task_1").unwrap().capability, "new");
    let (task, reused) = table.submit("s", "e", "old", Json::Null, "a", 2, "task_3");
    assert_eq!((task.id.as_str(), task.capability.as_str(), reused), ("task_1", "new", true));
    let (task, reused) = table.submit("s", "e", "new", Json::Null, "b", 2, "task_3");
    assert_eq!((task.id.as_str(), reused), ("task_2", true));

    let old = doc(r#"{"workspaceSessionId":"s","executorId":"e","capability":"old","idempotencyKey":"a"}"#);
    assert!(table.answers("s", "e", "old", "a") && can_submit(&table, &old));
    table.transition("task_1", TaskState::Cancelled, None, None, 3).unwrap();
    assert_eq!(table.prune_terminal_before(4).len(), 1);
    assert!(!table.answers("s", "e", "old", "a") && !can_submit(&table, &old));
    assert!(table.answers("s", "e", "new", "b") && table.answers("s", "e", "other", "a"));
    assert!(can_submit(&table, &doc("{}")));
}

#[test]
fn a_task_that_is_over_does_not_go_back() {
    let mut table = TaskTable::new();
    let (task, _) = table.submit("s", "e", "c", Json::Null, "k", 1, "task_1");
    table.transition(&task.id, TaskState::Running, None, None, 2).unwrap();
    table.transition(&task.id, TaskState::Succeeded, None, None, 3).unwrap();
    let error = table.transition(&task.id, TaskState::Running, None, None, 4).unwrap_err();
    assert_eq!(error, TaskError::InvalidTransition { from: TaskState::Succeeded, to: TaskState::Running });
    assert_eq!(table.transition("task_9", TaskState::Running, None, None, 4).unwrap_err(), TaskError::NotFound);
    assert!(table.retry(&task.id, 5).is_err());
    let events: Vec<u64> = table.get(&task.id).unwrap().events.iter().map(|e| e.sequence).collect();
    assert_eq!(events, vec![1, 2, 3]);
}

#[test]
fn tasks_are_submitted_waited_for_and_cancelled_on_request() {
    let mut table = TaskTable::new();
    let params = doc(r#"{"workspaceSessionId":"s","executorId":"e","capability":"process.start","input":{"processId":"p"},"idempotencyKey":"one"}"#);
    let (task, reused) = submit_task(&mut table, &params, None, None, 1, "task_1").unwrap();
    assert!(!reused);
    assert_eq!(
        submit_task(&mut table, &doc("{}"), None, None, 1, "task_2").unwrap_err().code,
        "INVALID_PARAMS"
    );
    assert!(matches!(wait_step(&table, &task.id, false).unwrap(), Wait::Again));
    let late = wait_step(&table, &task.id, true).unwrap_err();
    assert_eq!((late.code.as_str(), late.message.as_str()), ("TASK_WAIT_TIMEOUT", "task task_1 did not finish before timeout"));
    assert_eq!(wait_timeout_ms(&doc("{}")), 30_000);
    assert_eq!(wait_timeout_ms(&doc(r#"{"timeoutMs": 5}"#)), 5);

    let moved = transition_task(&mut table, &doc(r#"{"taskId":"task_1","state":"running"}"#), TaskState::Running, 2);
    assert_eq!(moved.unwrap().state, TaskState::Running);
    match begin_cancel(&mut table, &doc(r#"{"taskId":"task_1","_operatorAuthorized":true}"#), 3).unwrap() {
        Cancellation::Stop { asked, task, process_id } => {
            assert_eq!((asked.id.as_str(), asked.state), ("task_1", TaskState::CancelRequested));
            assert_eq!(task.state, TaskState::Cancelling);
            assert_eq!(process_id.as_deref(), Some("p"));
        }
        _ => panic!("a running process is to be stopped"),
    }
    let failed = finish_cancel(&mut table, "task_1", Err(no_process()), 4).unwrap();
    assert_eq!(failed.state, TaskState::FailedToCancel);
    assert!(matches!(wait_step(&table, "task_1", false).unwrap(), Wait::Over(0)));
}

#[test]
fn a_task_that_ended_is_shown_as_it_is_to_the_one_who_cancels_it() {
    let mut table = TaskTable::new();
    table.submit("s", "e", "process.start", Json::Null, "k", 1, "task_1");
    table.transition("task_1", TaskState::Running, None, None, 2).unwrap();
    table.transition("task_1", TaskState::Succeeded, None, None, 3).unwrap();
    match begin_cancel(&mut table, &doc(r#"{"taskId":"task_1","_operatorAuthorized":true}"#), 9).unwrap() {
        Cancellation::Ended(task) => assert_eq!((task.state, task.updated_at), (TaskState::Succeeded, 3)),
        _ => panic!("an ended task is not cancelled"),
    }
    assert_eq!(table.get("task_1").unwrap().events.len(), 3);
}

#[test]
fn the_keys_of_kept_tasks_are_found_after_a_prune() {
    let mut table = TaskTable::new();
    for (id, key) in [("task_1", "a"), ("task_2", "b"), ("task_3", "c")] {
        table.submit("s", "e", "c", Json::Null, key, 1, id);
    }
    table.transition("task_2", TaskState::Cancelled, None, None, 2).unwrap();
    let removed = table.prune_terminal_before(10);
    assert_eq!(removed.iter().map(|t| t.id.as_str()).collect::<Vec<_>>(), vec!["task_2"]);
    for (id, key) in [("task_1", "a"), ("task_3", "c")] {
        let (task, reused) = table.submit("s", "e", "c", Json::Null, key, 3, "task_9");
        assert_eq!((task.id.as_str(), reused), (id, true));
    }
    let (task, reused) = table.submit("s", "e", "c", Json::Null, "b", 3, "task_4");
    assert_eq!((task.id.as_str(), reused), ("task_4", false));
}
