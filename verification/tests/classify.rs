use cargo_rpmstatus::db::{evaluate_candidates, is_compatible, query_pattern, PkgStatus};
use cargo_rpmstatus::version::{normalize, Version};
use semver::VersionReq;

fn ver(major: u64, minor: u64, patch: u64) -> Version {
    Version::new(major, minor, patch, String::new(), String::new())
}

fn strings(items: &[&str]) -> Vec<String> {
    items.iter().map(|s| s.to_string()).collect()
}

#[test]
fn is_compatible_with_tilde() {
    // The - character is not allowed in RPM versions and is therefore replaced by
    // the ~ character when packaging with rust2rpm.
    // cf. https://docs.fedoraproject.org/en-US/packaging-guidelines/Rust/#_package_versioning
    assert!(is_compatible(
        "1.0.0~alpha.9",
        &VersionReq::parse("1.0.0-alpha.9").unwrap()
    )
    .unwrap());
}

#[test]
fn is_compatible_follows_semver() {
    assert!(is_compatible("0.1.1", &VersionReq::parse("0.1.0").unwrap()).unwrap());
    assert!(!is_compatible("0.1.0", &VersionReq::parse("0.1.1").unwrap()).unwrap());
    assert!(is_compatible("1.1.0", &VersionReq::parse("1").unwrap()).unwrap());
}

#[test]
fn older_patch_same_major_is_compatible() {
    // An older candidate with the same major version satisfies the relaxed
    // requirement, so it is recorded as compatible, not as outdated.
    let info = evaluate_candidates(&ver(1, 0, 100), &strings(&["1.0.6"])).unwrap();
    assert_eq!(info.status, PkgStatus::Compatible);
    assert_eq!(info.version, "1.0.6");
}

#[test]
fn first_exact_match_wins() {
    let info = evaluate_candidates(&ver(1, 0, 100), &strings(&["1.0.106", "1.0.150"])).unwrap();
    assert_eq!(info.status, PkgStatus::Found);
    assert_eq!(info.version, "1.0.106");
}

#[test]
fn zero_major_relaxed_rules() {
    let newer_patch = evaluate_candidates(&ver(0, 4, 1), &strings(&["0.4.3"])).unwrap();
    assert_eq!(newer_patch.status, PkgStatus::Found);
    assert_eq!(newer_patch.version, "0.4.3");

    let older_patch = evaluate_candidates(&ver(0, 4, 5), &strings(&["0.4.3"])).unwrap();
    assert_eq!(older_patch.status, PkgStatus::Compatible);
    assert_eq!(older_patch.version, "0.4.3");

    let other_minor = evaluate_candidates(&ver(0, 5, 0), &strings(&["0.4.3"])).unwrap();
    assert_eq!(other_minor.status, PkgStatus::Outdated);
    assert_eq!(other_minor.version, "0.4.3");
}

#[test]
fn zero_zero_requires_exact_triple() {
    let same = evaluate_candidates(&ver(0, 0, 3), &strings(&["0.0.3"])).unwrap();
    assert_eq!(same.status, PkgStatus::Found);
    let other = evaluate_candidates(&ver(0, 0, 3), &strings(&["0.0.4"])).unwrap();
    assert_eq!(other.status, PkgStatus::Outdated);
}

#[test]
fn tilde_normalizes_to_hyphen() {
    assert_eq!(normalize("1.0.0~alpha.9"), "1.0.0-alpha.9");
}

#[test]
fn plus_suffix_stripped_and_padded() {
    assert_eq!(normalize("4+20231122+dfsg"), "4.0.0");
    let info = evaluate_candidates(&ver(4, 0, 0), &strings(&["4+20231122+dfsg"])).unwrap();
    assert_eq!(info.status, PkgStatus::Found);
    assert_eq!(info.version, "4+20231122+dfsg");
}

#[test]
fn normalize_pads_missing_components() {
    assert_eq!(normalize("1.2"), "1.2.0");
    assert_eq!(normalize("7"), "7.0.0");
    assert_eq!(normalize("1.2.3"), "1.2.3");
    assert_eq!(normalize("1~beta"), "1.0.0-beta");
}

#[test]
fn no_candidates_means_not_found() {
    let info = evaluate_candidates(&ver(1, 0, 0), &strings(&[])).unwrap();
    assert_eq!(info.status, PkgStatus::NotFound);
    assert_eq!(info.version, "");
}

#[test]
fn first_outdated_candidate_is_kept() {
    let info = evaluate_candidates(&ver(2, 0, 0), &strings(&["0.9.0", "0.8.0"])).unwrap();
    assert_eq!(info.status, PkgStatus::Outdated);
    assert_eq!(info.version, "0.9.0");
}

#[test]
fn unparsable_candidates_are_skipped() {
    let info =
        evaluate_candidates(&ver(1, 0, 100), &strings(&["not.a.version!", "1.0.200"])).unwrap();
    assert_eq!(info.status, PkgStatus::Found);
    assert_eq!(info.version, "1.0.200");
}

#[test]
fn later_compatible_replaces_earlier_compatible() {
    let info = evaluate_candidates(&ver(1, 5, 0), &strings(&["1.1.0", "1.2.0"])).unwrap();
    assert_eq!(info.status, PkgStatus::Compatible);
    assert_eq!(info.version, "1.2.0");
}

#[test]
fn query_pattern_mangles_name() {
    assert_eq!(query_pattern("serde_json"), "rust-serde-json%");
    assert_eq!(query_pattern("serde"), "rust-serde%");
}

#[test]
fn version_text_round_trip() {
    let v = Version::new(12, 0, 3, String::new(), String::new());
    assert_eq!(v.to_text(), "12.0.3");
    let pre = Version::new(1, 0, 0, "alpha.9".to_string(), String::new());
    assert_eq!(pre.to_text(), "1.0.0-alpha.9");
    assert_eq!(pre.exact_req(), "1.0.0-alpha.9");
    let build = Version::new(2, 1, 4, String::new(), "c144a98".to_string());
    assert_eq!(build.to_text(), "2.1.4+c144a98");
    assert_eq!(build.exact_req(), "2.1.4");
}

#[test]
fn relaxed_requirement_follows_zero_rules() {
    assert_eq!(ver(2, 3, 4).relaxed_req(), "2");
    assert_eq!(ver(0, 4, 1).relaxed_req(), "0.4");
    assert_eq!(ver(0, 0, 7).relaxed_req(), "0.0.7");
}

#[test]
fn version_equality_and_copy() {
    let a = Version::new(1, 2, 3, "rc.1".to_string(), String::new());
    let b = a.clone_value();
    assert!(a.eq_value(&b));
    let c = Version::new(1, 2, 4, "rc.1".to_string(), String::new());
    assert!(!a.eq_value(&c));
}
