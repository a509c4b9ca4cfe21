use cargo_rpmstatus::db::{PkgInfo, PkgStatus};
use cargo_rpmstatus::fedora::{
    annotation_jobs, apply_annotations, rpm_info_from, Pkg, PackagingProgress, RpmInfo,
    WorkerEvent,
};
use cargo_rpmstatus::graph::{build, DepKind};
use cargo_rpmstatus::metadata::{MetaDep, MetaInput, MetaPackage};
use cargo_rpmstatus::version::Version;
use cargo_rpmstatus::RpmError;

fn meta_pkg(id: &str, name: &str) -> MetaPackage {
    MetaPackage {
        id: id.to_string(),
        name: name.to_string(),
        version: Version::new(1, 0, 0, String::new(), String::new()),
        source: None,
        manifest_path: String::new(),
        license: None,
        repository: None,
    }
}

fn small_graph(n: usize) -> cargo_rpmstatus::graph::Graph {
    let packages: Vec<MetaPackage> = (0..n)
        .map(|i| meta_pkg(&format!("p{} 1", i), &format!("p{}", i)))
        .collect();
    let deps: Vec<MetaDep> = (1..n)
        .map(|i| MetaDep {
            from: "p0 1".to_string(),
            to: format!("p{} 1", i),
            kind: DepKind::Normal,
            optional: false,
            target: None,
        })
        .collect();
    let meta = MetaInput {
        packages,
        deps,
        root: Some("p0 1".to_string()),
    };
    build(&meta, true, &None).unwrap()
}

fn rpm(version: &str) -> RpmInfo {
    RpmInfo {
        in_rawhide: true,
        outdated: false,
        compatible: false,
        exact_match: true,
        version: version.to_string(),
    }
}

#[test]
fn every_node_receives_exactly_one_status() {
    let mut g = small_graph(4);
    // results arrive in an arbitrary order and are matched by identifier
    let events = vec![
        WorkerEvent::Done(2, rpm("1.0.2")),
        WorkerEvent::Done(0, rpm("1.0.0")),
        WorkerEvent::Done(3, rpm("1.0.3")),
        WorkerEvent::Done(1, rpm("1.0.1")),
    ];
    apply_annotations(&mut g, &events).unwrap();
    for (i, node) in g.nodes.iter().enumerate() {
        let info = node.rpminfo.as_ref().unwrap();
        assert_eq!(info.version, format!("1.0.{}", i));
    }
}

#[test]
fn worker_failure_is_the_sole_reported_failure() {
    let mut g = small_graph(3);
    let events = vec![
        WorkerEvent::Done(1, rpm("1.0.0")),
        WorkerEvent::Failed(None, RpmError::IndexUnavailable("no database".to_string())),
        WorkerEvent::Done(2, rpm("1.0.0")),
    ];
    let err = apply_annotations(&mut g, &events).unwrap_err();
    assert!(matches!(err, RpmError::IndexUnavailable(m) if m == "no database"));
    // nothing was applied
    assert!(g.nodes.iter().all(|n| n.rpminfo.is_none()));
}

#[test]
fn duplicate_or_missing_results_are_rejected() {
    let mut g = small_graph(2);
    let twice = vec![
        WorkerEvent::Done(0, rpm("1.0.0")),
        WorkerEvent::Done(0, rpm("1.0.0")),
    ];
    assert!(matches!(
        apply_annotations(&mut g, &twice),
        Err(RpmError::WorkerFailed(_))
    ));
    let short = vec![WorkerEvent::Done(0, rpm("1.0.0"))];
    assert!(matches!(
        apply_annotations(&mut g, &short),
        Err(RpmError::WorkerFailed(_))
    ));
    let unknown = vec![
        WorkerEvent::Done(0, rpm("1.0.0")),
        WorkerEvent::Done(5, rpm("1.0.0")),
    ];
    assert!(matches!(
        apply_annotations(&mut g, &unknown),
        Err(RpmError::WorkerFailed(_))
    ));
    assert!(g.nodes.iter().all(|n| n.rpminfo.is_none()));
}

#[test]
fn jobs_enumerate_every_node_once() {
    let g = small_graph(3);
    let jobs = annotation_jobs(&g);
    assert_eq!(jobs.len(), 3);
    for (i, job) in jobs.iter().enumerate() {
        assert_eq!(job.idx, i);
        assert_eq!(job.name, format!("p{}", i));
    }
}

#[test]
fn verdicts_translate_into_records() {
    let found = rpm_info_from(PkgInfo {
        status: PkgStatus::Found,
        version: "1.2.3".to_string(),
    });
    assert!(found.in_rawhide && found.exact_match && !found.outdated && !found.compatible);
    assert_eq!(found.version, "1.2.3");

    let missing = rpm_info_from(PkgInfo {
        status: PkgStatus::NotFound,
        version: String::new(),
    });
    assert!(!missing.in_rawhide && !missing.outdated && !missing.compatible);
    assert_eq!(missing.version, "");

    let outdated = rpm_info_from(PkgInfo {
        status: PkgStatus::Outdated,
        version: "0.9.0".to_string(),
    });
    assert!(outdated.in_rawhide && outdated.outdated && !outdated.exact_match);
}

#[test]
fn packaging_status_maps_records_to_progress() {
    let mut node = Pkg::new(
        "a 1".to_string(),
        "a".to_string(),
        Version::new(1, 0, 0, String::new(), String::new()),
        None,
        String::new(),
        None,
        None,
    );
    assert_eq!(node.packaging_status(), PackagingProgress::Missing);
    assert!(!node.in_fedora());
    assert!(node.show_dependencies());

    node.rpminfo = Some(RpmInfo {
        in_rawhide: true,
        outdated: false,
        compatible: false,
        exact_match: true,
        version: "1.0.0".to_string(),
    });
    assert_eq!(node.packaging_status(), PackagingProgress::Available);
    assert!(node.in_fedora());
    assert!(!node.show_dependencies());

    node.rpminfo = Some(RpmInfo {
        in_rawhide: true,
        outdated: true,
        compatible: false,
        exact_match: false,
        version: "0.9.0".to_string(),
    });
    assert_eq!(node.packaging_status(), PackagingProgress::NeedsUpdate);
    assert!(node.show_dependencies());

    node.rpminfo = Some(RpmInfo {
        in_rawhide: true,
        outdated: false,
        compatible: true,
        exact_match: false,
        version: "1.0.0".to_string(),
    });
    assert_eq!(node.packaging_status(), PackagingProgress::Available);
    assert!(!node.show_dependencies());
}

#[test]
fn icons_share_a_display_width() {
    // two columns each in a terminal: two spaces, or one wide glyph
    assert_eq!(PackagingProgress::Available.icon(), "  ");
    assert_eq!(PackagingProgress::NeedsUpdate.icon(), "⌛");
    assert_eq!(PackagingProgress::Missing.icon(), "🔴");
}

#[test]
fn error_text_names_the_failure() {
    let e = RpmError::Query("no such table: packages".to_string());
    assert_eq!(
        e.text(),
        "package index query failed: no such table: packages"
    );
    assert!(matches!(e.clone_value(), RpmError::Query(m) if m == "no such table: packages"));
}
