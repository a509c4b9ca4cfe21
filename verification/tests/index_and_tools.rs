use std::str::FromStr;

use cargo_rpmstatus::args::{Charset, RpmArgs};
use cargo_rpmstatus::db::{
    database_expired, primary_location, release_segment, repodata_url, repomd_url,
    IndexConnection, PkgStatus, RepomdEntry,
};
use cargo_rpmstatus::metadata::{host_from_report, metadata_args};
use cargo_rpmstatus::version::Version;
use cargo_rpmstatus::RpmError;

#[test]
fn release_segment_for_rawhide_and_branched() {
    assert_eq!(release_segment("rawhide"), "rawhide");
    assert_eq!(release_segment("rawhide-20240101"), "rawhide");
    assert_eq!(release_segment("f39"), "f39-build");
}

#[test]
fn repository_urls() {
    assert_eq!(
        repomd_url("rawhide"),
        "https://kojipkgs.fedoraproject.org/repos/rawhide/latest/x86_64/repodata/repomd.xml"
    );
    assert_eq!(
        repodata_url("f39-build", "abc-primary.sqlite.bz2"),
        "https://kojipkgs.fedoraproject.org/repos/f39-build/latest/x86_64/repodata/abc-primary.sqlite.bz2"
    );
}

#[test]
fn primary_database_is_located() {
    let entries = vec![
        RepomdEntry {
            data_type: "filelists".to_string(),
            href: "repodata/xyz-filelists.xml.gz".to_string(),
        },
        RepomdEntry {
            data_type: "primary_db".to_string(),
            href: "repodata/abc-primary.sqlite.bz2".to_string(),
        },
    ];
    assert_eq!(
        primary_location(&entries).unwrap(),
        "abc-primary.sqlite.bz2"
    );
    let only_filelists = vec![RepomdEntry {
        data_type: "filelists".to_string(),
        href: "repodata/xyz-filelists.xml.gz".to_string(),
    }];
    assert!(primary_location(&only_filelists).is_none());
}

#[test]
fn refresh_after_one_day() {
    assert!(!database_expired(86399));
    assert!(database_expired(86400));
}

#[test]
fn charset_parses() {
    assert!(matches!(Charset::parse("utf8"), Ok(Charset::Utf8)));
    assert!(matches!(Charset::parse("ascii"), Ok(Charset::Ascii)));
    assert_eq!(Charset::parse("latin1"), Err("invalid charset"));
    // the standard trait delegates to the named parser
    assert!(matches!(Charset::from_str("utf8"), Ok(Charset::Utf8)));
    assert!(matches!(Charset::from_str("ascii"), Ok(Charset::Ascii)));
    assert!(Charset::from_str("latin1").is_err());
}

#[test]
fn metadata_args_default_selection() {
    let args = RpmArgs::default();
    let v = metadata_args(&args, "x86_64-unknown-linux-gnu");
    assert_eq!(
        v,
        vec![
            "metadata",
            "--format-version",
            "1",
            "--filter-platform",
            "x86_64-unknown-linux-gnu",
        ]
    );
}

#[test]
fn metadata_args_carry_the_selection() {
    let mut args = RpmArgs::default();
    args.quiet = true;
    args.features = Some("tls json".to_string());
    args.all_targets = true;
    args.manifest_path = Some("/work/Cargo.toml".to_string());
    args.verbose = 2;
    args.locked = true;
    args.unstable_flags = vec!["direct-minimal-versions".to_string()];
    let v = metadata_args(&args, "host-triple");
    assert_eq!(
        v,
        vec![
            "metadata",
            "--format-version",
            "1",
            "-q",
            "--features",
            "tls json",
            "--manifest-path",
            "/work/Cargo.toml",
            "-v",
            "-v",
            "--locked",
            "-Z",
            "direct-minimal-versions",
        ]
    );
}

#[test]
fn host_line_is_found_and_trimmed() {
    let report = "rustc 1.77.0\nbinary: rustc\nhost: x86_64-unknown-linux-gnu \nrelease: 1.77.0\n";
    assert_eq!(
        host_from_report(report).unwrap(),
        "x86_64-unknown-linux-gnu"
    );
    assert!(host_from_report("rustc 1.77.0\nrelease: 1.77.0\n").is_none());
    assert_eq!(host_from_report("host: abc\r\n").unwrap(), "abc");
}

#[test]
fn unopenable_index_reports_unavailable() {
    let r = IndexConnection::new("/nonexistent-dir-for-sure/primary_db.sqlite");
    assert!(matches!(r, Err(RpmError::IndexUnavailable(_))));
}

#[test]
fn search_finds_packages_in_a_real_index() {
    let path = "/tmp/cargo_rpmstatus_test_index.sqlite";
    {
        let conn = rusqlite::Connection::open(path).unwrap();
        conn.execute("DROP TABLE IF EXISTS packages", []).unwrap();
        conn.execute("CREATE TABLE packages (name TEXT, version TEXT)", [])
            .unwrap();
        let rows = [
            ("rust-serde-devel", "1.0.188"),
            ("rust-serde_json-devel", "1.0.113"),
            ("rust-itoa-devel", "0.4.3"),
        ];
        for (name, version) in rows {
            conn.execute(
                "INSERT INTO packages (name, version) VALUES (?1, ?2)",
                [name, version],
            )
            .unwrap();
        }
    }
    let mut db = IndexConnection::new(path).unwrap();
    let target = Version::new(1, 0, 100, String::new(), String::new());
    let info = db.search("serde", &target).unwrap();
    assert_eq!(info.status, PkgStatus::Found);
    assert_eq!(info.version, "1.0.188");

    let info = db
        .search("serde", &Version::new(2, 0, 0, String::new(), String::new()))
        .unwrap();
    assert_eq!(info.status, PkgStatus::Outdated);

    let info = db
        .search(
            "notacrate",
            &Version::new(1, 0, 0, String::new(), String::new()),
        )
        .unwrap();
    assert_eq!(info.status, PkgStatus::NotFound);

    let info = db
        .search(
            "itoa",
            &Version::new(0, 4, 5, String::new(), String::new()),
        )
        .unwrap();
    assert_eq!(info.status, PkgStatus::Compatible);
    assert_eq!(info.version, "0.4.3");
}

#[test]
fn underscore_names_are_mangled_before_the_prefix_match() {
    // The name-mangling convention writes `-` in place of `_`, so the query
    // pattern for serde_json is rust-serde-json%. An index entry that kept
    // the underscore is therefore not matched: the mangling is applied on
    // the query side, not on the stored names.
    let path = "/tmp/cargo_rpmstatus_test_underscore.sqlite";
    {
        let conn = rusqlite::Connection::open(path).unwrap();
        conn.execute("DROP TABLE IF EXISTS packages", []).unwrap();
        conn.execute("CREATE TABLE packages (name TEXT, version TEXT)", [])
            .unwrap();
        conn.execute(
            "INSERT INTO packages (name, version) VALUES (?1, ?2)",
            ["rust-serde_json-devel", "1.0.113"],
        )
        .unwrap();
        conn.execute(
            "INSERT INTO packages (name, version) VALUES (?1, ?2)",
            ["rust-serde-json-devel", "1.0.113"],
        )
        .unwrap();
    }
    let mut db = IndexConnection::new(path).unwrap();
    let target = Version::new(1, 0, 113, String::new(), String::new());
    let info = db.search("serde_json", &target).unwrap();
    assert_eq!(info.status, PkgStatus::Found);
    assert_eq!(info.version, "1.0.113");

    let path2 = "/tmp/cargo_rpmstatus_test_underscore_only.sqlite";
    {
        let conn = rusqlite::Connection::open(path2).unwrap();
        conn.execute("DROP TABLE IF EXISTS packages", []).unwrap();
        conn.execute("CREATE TABLE packages (name TEXT, version TEXT)", [])
            .unwrap();
        conn.execute(
            "INSERT INTO packages (name, version) VALUES (?1, ?2)",
            ["rust-serde_json-devel", "1.0.113"],
        )
        .unwrap();
    }
    let mut db = IndexConnection::new(path2).unwrap();
    let info = db.search("serde_json", &target).unwrap();
    assert_eq!(info.status, PkgStatus::NotFound);
}

#[test]
fn query_on_missing_table_reports_query_error() {
    let path = "/tmp/cargo_rpmstatus_test_empty.sqlite";
    let mut db = IndexConnection::new(path).unwrap();
    let target = Version::new(1, 0, 0, String::new(), String::new());
    assert!(matches!(
        db.search("serde", &target),
        Err(RpmError::Query(_))
    ));
}
