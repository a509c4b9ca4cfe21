use cargo_rpmstatus::graph::{build, DepKind};
use cargo_rpmstatus::metadata::{MetaDep, MetaInput, MetaPackage};
use cargo_rpmstatus::version::Version;
use cargo_rpmstatus::RpmError;

fn pkg(id: &str, name: &str, major: u64) -> MetaPackage {
    MetaPackage {
        id: id.to_string(),
        name: name.to_string(),
        version: Version::new(major, 0, 0, String::new(), String::new()),
        source: Some("registry".to_string()),
        manifest_path: format!("/src/{}/Cargo.toml", name),
        license: Some("MIT".to_string()),
        repository: None,
    }
}

fn dep(from: &str, to: &str, kind: DepKind) -> MetaDep {
    MetaDep {
        from: from.to_string(),
        to: to.to_string(),
        kind,
        optional: false,
        target: None,
    }
}

#[test]
fn build_produces_nodes_edges_and_root() {
    let meta = MetaInput {
        packages: vec![pkg("a 1", "a", 1), pkg("b 1", "b", 1), pkg("c 1", "c", 1)],
        deps: vec![
            dep("a 1", "b 1", DepKind::Normal),
            dep("b 1", "c 1", DepKind::Normal),
        ],
        root: Some("a 1".to_string()),
    };
    let g = build(&meta, true, &None).unwrap();
    assert_eq!(g.nodes.len(), 3);
    assert_eq!(g.edges.len(), 2);
    assert_eq!(g.root, 0);
    assert_eq!(g.nodes[0].name, "a");
    assert!(g.nodes[0].rpminfo.is_none());
    assert_eq!(g.edges[0].from, 0);
    assert_eq!(g.edges[0].to, 1);
    assert_eq!(g.edges[1].from, 1);
    assert_eq!(g.edges[1].to, 2);
}

#[test]
fn development_edges_follow_the_filter() {
    let meta = MetaInput {
        packages: vec![pkg("a 1", "a", 1), pkg("b 1", "b", 1)],
        deps: vec![dep("a 1", "b 1", DepKind::Development)],
        root: Some("a 1".to_string()),
    };
    let with_dev = build(&meta, true, &None).unwrap();
    assert_eq!(with_dev.edges.len(), 1);
    let without_dev = build(&meta, false, &None).unwrap();
    assert_eq!(without_dev.edges.len(), 0);
}

#[test]
fn duplicate_identifier_is_rejected() {
    let meta = MetaInput {
        packages: vec![pkg("a 1", "a", 1), pkg("a 1", "a", 1)],
        deps: vec![],
        root: Some("a 1".to_string()),
    };
    assert!(matches!(
        build(&meta, true, &None),
        Err(RpmError::GraphBuild(_))
    ));
}

#[test]
fn unknown_edge_endpoint_is_rejected() {
    let meta = MetaInput {
        packages: vec![pkg("a 1", "a", 1)],
        deps: vec![dep("a 1", "missing 1", DepKind::Normal)],
        root: Some("a 1".to_string()),
    };
    assert!(matches!(
        build(&meta, true, &None),
        Err(RpmError::GraphBuild(_))
    ));
}

#[test]
fn missing_root_is_rejected() {
    let meta = MetaInput {
        packages: vec![pkg("a 1", "a", 1)],
        deps: vec![],
        root: None,
    };
    assert!(matches!(
        build(&meta, true, &None),
        Err(RpmError::GraphBuild(_))
    ));
    let meta2 = MetaInput {
        packages: vec![pkg("a 1", "a", 1)],
        deps: vec![],
        root: Some("b 1".to_string()),
    };
    assert!(matches!(
        build(&meta2, true, &None),
        Err(RpmError::GraphBuild(_))
    ));
}

#[test]
fn package_selector_picks_the_root() {
    let meta = MetaInput {
        packages: vec![pkg("a 1", "a", 1), pkg("b 1", "b", 1)],
        deps: vec![dep("a 1", "b 1", DepKind::Normal)],
        root: Some("a 1".to_string()),
    };
    let g = build(&meta, true, &Some("b".to_string())).unwrap();
    assert_eq!(g.root, 1);
    assert!(matches!(
        build(&meta, true, &Some("zzz".to_string())),
        Err(RpmError::GraphBuild(_))
    ));
}

#[test]
fn ambiguous_selector_is_rejected() {
    let meta = MetaInput {
        packages: vec![pkg("a 1", "a", 1), pkg("a 2", "a", 2)],
        deps: vec![],
        root: Some("a 1".to_string()),
    };
    assert!(matches!(
        build(&meta, true, &Some("a".to_string())),
        Err(RpmError::GraphBuild(_))
    ));
}

#[test]
fn parallel_edges_are_kept_distinct() {
    let meta = MetaInput {
        packages: vec![pkg("a 1", "a", 1), pkg("b 1", "b", 1)],
        deps: vec![
            dep("a 1", "b 1", DepKind::Normal),
            dep("a 1", "b 1", DepKind::Development),
        ],
        root: Some("a 1".to_string()),
    };
    let g = build(&meta, true, &None).unwrap();
    assert_eq!(g.edges.len(), 2);
    assert_eq!(g.edges[0].kind, DepKind::Normal);
    assert_eq!(g.edges[1].kind, DepKind::Development);
}
