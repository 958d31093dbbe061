use workbench::codec::decode;
use workbench::json::Json;
use workbench::resource::{ResourceReply, Resources};
use workbench::schema::Lease;

fn doc(text: &str) -> Json {
    decode(text.as_bytes()).unwrap()
}

fn lease(reply: ResourceReply) -> Lease {
    match reply {
        ResourceReply::Lease(l) => l,
        other => panic!("not a lease: {other:?}"),
    }
}

fn grant(resource: &str, owner: &str, token: &str) -> Json {
    Json::obj().plus("owner", Json::text(owner)).plus("resource", Json::text(resource)).plus("token", Json::text(token))
}

#[test]
fn controllers_share_arbitration_and_old_tokens_cannot_release_new_lease() {
    let mut state = Resources::new();
    let a = doc(r#"{"resource":"tunnel:e:t", "owner":"controller-a/session/agent"}"#);
    let first = lease(state.command("resource.lease.acquire", &a, 1_000, "lease_1", "token_1").unwrap());
    let other = doc(r#"{"resource":"tunnel:e:t", "owner":"controller-b/session/agent"}"#);
    assert!(state.command("resource.lease.acquire", &other, 1_001, "lease_2", "token_2").is_err());
    let held = grant("tunnel:e:t", "controller-a/session/agent", &first.token);
    let wanted = vec!["tunnel:e:t".to_owned()];
    let permit = state.begin(&wanted, &vec![held.clone()], 1_002).unwrap();
    assert!(state.command("resource.lease.release", &held, 1_003, "lease_3", "token_3").is_err());
    assert!(state.begin(&wanted, &vec![held.clone()], 1_004).is_err());
    state.finish(&permit);
    state.command("resource.lease.release", &held, 1_005, "lease_4", "token_4").unwrap();
    let second = lease(state.command("resource.lease.acquire", &a, 1_006, "lease_5", "token_5").unwrap());
    assert!(second.fence > first.fence);
    assert!(state.command("resource.lease.release", &held, 1_007, "lease_6", "token_6").is_err());
    assert!(state.begin(&wanted, &vec![held], 1_008).is_err());
}

#[test]
fn expired_lease_cannot_be_taken_over_while_the_operation_is_active() {
    let mut state = Resources::new();
    let own = doc(r#"{"resource":"r", "owner":"a", "ttlMs":10}"#);
    let first = lease(state.command("resource.lease.acquire", &own, 100, "lease_1", "token_1").unwrap());
    let held = grant("r", "a", &first.token);
    let wanted = vec!["r".to_owned()];
    let permit = state.begin(&wanted, &vec![held.clone()], 101).unwrap();
    let other = doc(r#"{"resource":"r", "owner":"b"}"#);
    assert_eq!(
        state.command("resource.lease.acquire", &other, 2_000_000, "lease_2", "token_2").unwrap_err().code,
        "RESOURCE_BUSY"
    );
    state.finish(&permit);
    assert!(state.begin(&wanted, &vec![held], 2_000_000).is_err());
    assert!(state.command("resource.lease.acquire", &other, 2_000_000, "lease_3", "token_3").is_ok());
}

#[test]
fn restart_retains_leases_and_quarantines_uncertain_operations() {
    let mut state = Resources::new();
    let own = doc(r#"{"resource":"a", "owner":"one"}"#);
    let first = lease(state.command("resource.lease.acquire", &own, 100, "lease_1", "token_1").unwrap());
    let held = grant("a", "one", &first.token);
    let wanted = vec!["a".to_owned()];
    let permit = state.begin(&wanted, &vec![held], 101).unwrap();
    let uncertain = state.uncertain();
    let mut reopened = Resources::open(state.table.leases, state.table.fences, uncertain);
    assert_eq!(
        reopened.begin(&wanted, &Vec::new(), 102).unwrap_err().code,
        "RESOURCE_RECOVERY_REQUIRED"
    );
    assert!(!permit.is_empty());
}

#[test]
fn tokens_are_not_shown_to_those_who_ask_for_leases() {
    let mut state = Resources::new();
    let own = doc(r#"{"resource":"r", "owner":"a"}"#);
    let first = lease(state.command("resource.lease.acquire", &own, 1, "lease_1", "token_1").unwrap());
    assert_eq!((first.token.as_str(), first.fence), ("token_1", 1));
    match state.command("resource.lease.list", &doc("{}"), 2, "x", "y").unwrap() {
        ResourceReply::Leases(all) => {
            assert_eq!(all.iter().map(|l| (l.id.as_str(), l.token.as_str())).collect::<Vec<_>>(), vec![("lease_1", "")]);
        }
        other => panic!("not a list: {other:?}"),
    }
    match state.command("resource.lease.status", &doc(r#"{"resource":"r"}"#), 2, "x", "y").unwrap() {
        ResourceReply::Status { lease: Some(l), active, quarantined } => {
            assert_eq!((l.id.as_str(), l.token.as_str(), active, quarantined), ("lease_1", "", false, false));
        }
        other => panic!("not a status: {other:?}"),
    }
    let held = grant("r", "a", "token_1");
    state.command("resource.lease.release", &held, 3, "x", "y").unwrap();
    let second = lease(state.command("resource.lease.acquire", &own, 4, "lease_2", "token_2").unwrap());
    assert_eq!(second.fence, 2);
    assert!(state.command("resource.lease.release", &held, 5, "x", "y").is_err());
    assert!(state.command("resource.lease.renew", &held, 5, "x", "y").is_err());
    assert_eq!(state.table.get("r").unwrap().token, "token_2");
}
