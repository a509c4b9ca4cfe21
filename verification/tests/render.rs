use cargo_rpmstatus::args::{Charset, RpmArgs};
use cargo_rpmstatus::fedora::{Pkg, RpmInfo};
use cargo_rpmstatus::graph::{DepKind, Edge, Graph};
use cargo_rpmstatus::tree::{format_pkg, parse_format, render};
use cargo_rpmstatus::version::Version;
use cargo_rpmstatus::RpmError;

fn node(name: &str, major: u64) -> Pkg {
    Pkg::new(
        format!("{} {}", name, major),
        name.to_string(),
        Version::new(major, 0, 0, String::new(), String::new()),
        None,
        String::new(),
        None,
        None,
    )
}

fn missing() -> Option<RpmInfo> {
    Some(RpmInfo {
        in_rawhide: false,
        outdated: false,
        compatible: false,
        exact_match: false,
        version: String::new(),
    })
}

fn exact(version: &str) -> Option<RpmInfo> {
    Some(RpmInfo {
        in_rawhide: true,
        outdated: false,
        compatible: false,
        exact_match: true,
        version: version.to_string(),
    })
}

fn edge(from: usize, to: usize) -> Edge {
    Edge {
        from,
        to,
        kind: DepKind::Normal,
        optional: false,
        target: None,
    }
}

fn chain_graph() -> Graph {
    let mut app = node("app", 1);
    app.rpminfo = missing();
    let mut lib = node("lib", 2);
    lib.rpminfo = missing();
    let mut base = node("base", 3);
    base.rpminfo = missing();
    Graph {
        nodes: vec![app, lib, base],
        edges: vec![edge(0, 1), edge(1, 2)],
        root: 0,
    }
}

#[test]
fn indent_tree_draws_the_chain() {
    let g = chain_graph();
    let args = RpmArgs::default();
    let lines = render(&args, &g).unwrap();
    assert_eq!(
        lines,
        vec!["app v1.0.0", "└── lib v2.0.0", "    └── base v3.0.0"]
    );
}

#[test]
fn ascii_charset_uses_plain_branches() {
    let g = chain_graph();
    let mut args = RpmArgs::default();
    args.charset = Charset::Ascii;
    let lines = render(&args, &g).unwrap();
    assert_eq!(
        lines,
        vec!["app v1.0.0", "`-- lib v2.0.0", "    `-- base v3.0.0"]
    );
}

#[test]
fn flat_layouts() {
    let g = chain_graph();
    let mut args = RpmArgs::default();
    args.no_indent = true;
    let lines = render(&args, &g).unwrap();
    assert_eq!(lines, vec!["app v1.0.0", "lib v2.0.0", "base v3.0.0"]);

    let mut args = RpmArgs::default();
    args.prefix_depth = true;
    let lines = render(&args, &g).unwrap();
    assert_eq!(lines, vec!["0 app v1.0.0", "1 lib v2.0.0", "2 base v3.0.0"]);
}

#[test]
fn satisfied_node_hides_its_children() {
    let mut g = chain_graph();
    g.nodes[1].rpminfo = exact("2.0.0");
    let args = RpmArgs::default();
    let lines = render(&args, &g).unwrap();
    // lib is packaged at an exact version: its subtree stays closed
    assert_eq!(lines, vec!["app v1.0.0", "└── lib v2.0.0"]);

    // unless truncation is disabled
    let mut all_args = RpmArgs::default();
    all_args.all = true;
    let lines = render(&all_args, &g).unwrap();
    assert_eq!(
        lines,
        vec!["app v1.0.0", "└── lib v2.0.0", "    └── base v3.0.0"]
    );
}

#[test]
fn repeated_node_is_expanded_once() {
    let mut shared = node("shared", 4);
    shared.rpminfo = missing();
    let mut g = Graph {
        nodes: vec![node("app", 1), node("one", 2), node("two", 3), shared],
        edges: vec![edge(0, 1), edge(0, 2), edge(1, 3), edge(2, 3)],
        root: 0,
    };
    for i in 0..3 {
        g.nodes[i].rpminfo = missing();
    }
    let args = RpmArgs::default();
    let lines = render(&args, &g).unwrap();
    assert_eq!(
        lines,
        vec![
            "app v1.0.0",
            "├── one v2.0.0",
            "│   └── shared v4.0.0",
            "└── two v3.0.0",
            "    └── shared v4.0.0 (*)",
        ]
    );
}

#[test]
fn cyclic_graph_terminates() {
    let mut a = node("a", 1);
    a.rpminfo = missing();
    let mut b = node("b", 2);
    b.rpminfo = missing();
    let g = Graph {
        nodes: vec![a, b],
        edges: vec![edge(0, 1), edge(1, 0)],
        root: 0,
    };
    let args = RpmArgs::default();
    let lines = render(&args, &g).unwrap();
    assert_eq!(lines, vec!["a v1.0.0", "└── b v2.0.0", "    └── a v1.0.0 (*)"]);

    let mut all_args = RpmArgs::default();
    all_args.all = true;
    let lines = render(&all_args, &g).unwrap();
    assert_eq!(
        lines,
        vec!["a v1.0.0", "└── b v2.0.0", "    └── a v1.0.0 (cycle)"]
    );
}

#[test]
fn unknown_token_fails_before_output() {
    let g = chain_graph();
    let mut args = RpmArgs::default();
    args.format = "{x}".to_string();
    assert!(matches!(render(&args, &g), Err(RpmError::FormatTemplate(_))));
    args.format = "{p".to_string();
    assert!(matches!(render(&args, &g), Err(RpmError::FormatTemplate(_))));
    args.format = "}p{".to_string();
    assert!(matches!(render(&args, &g), Err(RpmError::FormatTemplate(_))));
}

#[test]
fn format_tokens_substitute_fields() {
    let fmt = parse_format("{p} [{l}] {s}").unwrap();
    let mut p = node("thing", 1);
    p.license = Some("MIT".to_string());
    p.rpminfo = missing();
    assert_eq!(format_pkg(&fmt, &p), "thing v1.0.0 [MIT] 🔴");

    let fmt = parse_format("{r}").unwrap();
    p.repository = Some("https://example.org/thing".to_string());
    assert_eq!(format_pkg(&fmt, &p), "https://example.org/thing");
}

#[test]
fn duplicates_mode_inverts_from_each_duplicate() {
    let mut app = node("app", 1);
    app.rpminfo = missing();
    let mut foo1 = node("foo", 2);
    foo1.rpminfo = missing();
    let mut foo2 = node("foo", 3);
    foo2.rpminfo = missing();
    let g = Graph {
        nodes: vec![app, foo1, foo2],
        edges: vec![edge(0, 1), edge(0, 2)],
        root: 0,
    };
    let mut args = RpmArgs::default();
    args.duplicates = true;
    let lines = render(&args, &g).unwrap();
    assert_eq!(
        lines,
        vec![
            "foo v2.0.0",
            "└── app v1.0.0",
            "foo v3.0.0",
            "└── app v1.0.0 (*)",
        ]
    );
}
