use workbench::codec::encode;
use workbench::fabric::{
    validate_allow_root, validate_identity, FabricArchitecture, FabricConnection, FabricManifest, FabricNode, FabricPlatform,
};

fn node(id: &str, platform: FabricPlatform, alias: Option<&str>) -> FabricNode {
    FabricNode {
        id: id.to_owned(),
        platform,
        architecture: if platform == FabricPlatform::Macos {
            FabricArchitecture::Aarch64
        } else {
            FabricArchitecture::X86_64
        },
        connection: alias.map(|a| FabricConnection { ssh_alias: a.to_owned() }),
        allow_roots: vec!["/srv/workspace".to_owned()],
    }
}

fn manifest(nodes: Vec<FabricNode>) -> FabricManifest {
    FabricManifest {
        api_version: "distributed-workbench.dev/v1".to_owned(),
        kind: "Fabric".to_owned(),
        initiator_node: "laptop".to_owned(),
        nodes,
    }
}

#[test]
fn allow_roots_reject_broad_or_relative_paths() {
    for root in ["/", "~", "$HOME", "${user.home}", "C:\\", "relative/path"] {
        assert!(validate_allow_root(root).is_err(), "accepted {root}");
    }
    for root in ["/srv/workspace", "${user.home}/Code", "D:\\Workspace"] {
        validate_allow_root(root).unwrap();
    }
}

#[test]
fn each_fault_of_a_manifest_is_named() {
    let laptop = || node("laptop", FabricPlatform::Macos, None);
    assert!(manifest(vec![laptop(), node("a", FabricPlatform::Linux, Some("a"))]).check().is_ok());
    let fault = |m: FabricManifest| m.check().unwrap_err();
    let mut m = manifest(vec![laptop()]);
    m.api_version = "v2".to_owned();
    assert_eq!(fault(m), "apiVersion must be distributed-workbench.dev/v1");
    let mut m = manifest(vec![laptop()]);
    m.kind = "Mesh".to_owned();
    assert_eq!(fault(m), "kind must be Fabric");
    assert_eq!(fault(manifest(Vec::new())), "nodes must not be empty");
    assert_eq!(fault(manifest(vec![laptop(), laptop()])), "duplicate node id: laptop");
    assert_eq!(
        fault(manifest(vec![laptop(), node("a", FabricPlatform::Linux, None)])),
        "remote node a needs connection.sshAlias"
    );
    assert_eq!(
        fault(manifest(vec![laptop(), node("a", FabricPlatform::Linux, Some("a b"))])),
        "invalid node identity or SSH alias: a b"
    );
    let mut odd = laptop();
    odd.architecture = FabricArchitecture::X86_64;
    assert_eq!(
        fault(manifest(vec![odd])),
        "node laptop uses an unsupported release platform/architecture combination"
    );
    let mut bare = laptop();
    bare.allow_roots.clear();
    assert_eq!(fault(manifest(vec![bare])), "node laptop needs at least one allowRoot");
    let mut wide = laptop();
    wide.allow_roots.push("~".to_owned());
    assert_eq!(fault(manifest(vec![wide])), "node laptop: allowRoot must be a narrow non-root path: ~");
    let mut m = manifest(vec![laptop()]);
    m.initiator_node = "desk".to_owned();
    m.nodes[0].connection = Some(FabricConnection { ssh_alias: "l".to_owned() });
    assert_eq!(fault(m), "initiatorNode does not reference a node");
    assert!(validate_identity("").is_err());
    assert!(validate_identity("node-1.a_b").is_ok());
}

#[test]
fn every_two_nodes_are_connected_and_windows_is_dialed() {
    let m = manifest(vec![
        node("win", FabricPlatform::Windows, Some("w")),
        node("laptop", FabricPlatform::Macos, None),
        node("b", FabricPlatform::Linux, Some("bb")),
        node("a", FabricPlatform::Linux, Some("aa")),
    ]);
    assert!(m.check().is_ok());
    let links: Vec<(String, String)> = m.plan().into_iter().map(|l| (l.dialer, l.peer)).collect();
    let expected = [
        ("laptop", "win"),
        ("laptop", "b"),
        ("laptop", "a"),
        ("b", "win"),
        ("a", "win"),
        ("a", "b"),
    ];
    let expected: Vec<(String, String)> = expected.iter().map(|(d, p)| (d.to_string(), p.to_string())).collect();
    assert_eq!(links, expected);
    let plan = encode(&m.plan_document());
    assert!(plan.contains(r#""kind":"FabricPlan""#));
    assert!(plan.contains(r#"{"dialer":"a","peer":"b","sshAlias":"bb"}"#));
    assert!(plan.contains(r#"{"allowRoots":["/srv/workspace"],"architecture":"aarch64","connection":null,"id":"laptop","platform":"macos"}"#));
}
