//! Package-index client and version-compatibility classification.
//!
//! Candidate version strings from the index are normalized and held against
//! two requirements derived from the target version: the exact requirement
//! and the relaxed (zero-version-aware) compatibility requirement.

use vstd::prelude::*;

use crate::version::{
    normalize, spec_exact_req, spec_normalize, spec_relaxed_req, Version,
};
use crate::RpmError;

verus! {

/// Whether semver accepts `ver` as a version string.
/// Named result of `semver::Version::parse`, which depends on the text alone.
pub uninterp spec fn semver_version_ok(ver: Seq<char>) -> bool;

/// Whether semver accepts `req` as a requirement string.
/// Named result of `semver::VersionReq::parse`, which depends on the text alone.
pub uninterp spec fn semver_req_ok(req: Seq<char>) -> bool;

/// Whether the version written `ver` satisfies the requirement written `req`.
/// Named result of `semver::VersionReq::matches`, which depends on the two
/// texts alone.
pub uninterp spec fn semver_match(req: Seq<char>, ver: Seq<char>) -> bool;

/// Whether the version written `ver` satisfies the already parsed
/// requirement `req`. Named result of `semver::VersionReq::matches`, which
/// depends on the requirement value and the text alone.
pub uninterp spec fn semver_value_match(req: semver::VersionReq, ver: Seq<char>) -> bool;

#[verifier::external_type_specification]
#[verifier::external_body]
pub struct ExVersionReq(semver::VersionReq);

/// Relies on `semver::Version::parse`: whether the text is a valid semantic
/// version; success depends on the text alone.
#[verifier::external_body]
fn version_parses(ver: &str) -> (r: bool)
    ensures
        r == semver_version_ok(ver@),
{
    semver::Version::parse(ver).is_ok()
}

/// Relies on `semver::VersionReq::parse`: whether the text is a valid
/// version requirement; success depends on the text alone.
#[verifier::external_body]
fn req_parses(req: &str) -> (r: bool)
    ensures
        r == semver_req_ok(req@),
{
    semver::VersionReq::parse(req).is_ok()
}

/// Relies on `semver::VersionReq::parse`, `semver::Version::parse` and
/// `semver::VersionReq::matches`: whether the version written `ver`
/// satisfies the requirement written `req`. The answer depends on the two
/// texts alone.
#[verifier::external_body]
fn req_matches(req: &str, ver: &str) -> (r: bool)
    requires
        semver_req_ok(req@),
        semver_version_ok(ver@),
    ensures
        r == semver_match(req@, ver@),
{
    match (semver::VersionReq::parse(req), semver::Version::parse(ver)) {
        (Ok(r), Ok(v)) => r.matches(&v),
        _ => false,
    }
}

/// Relies on `semver::Version::parse` and `semver::VersionReq::matches`, for
/// a requirement the caller already parsed: `None` exactly when the version
/// text does not parse, and the answer depends on the requirement value and
/// the text alone.
#[verifier::external_body]
fn req_value_matches(req: &semver::VersionReq, ver: &str) -> (r: Option<bool>)
    ensures
        r is Some <==> semver_version_ok(ver@),
        r is Some ==> r->0 == semver_value_match(*req, ver@),
{
    match semver::Version::parse(ver) {
        Ok(v) => Some(req.matches(&v)),
        Err(_) => None,
    }
}

/// How a package in the index relates to the version a project needs.
#[derive(Debug, Clone, Copy, PartialEq, Eq, Structural)]
pub enum PkgStatus {
    /// No entry in the index matches the package name.
    NotFound,
    /// Entries exist, but none satisfies even the relaxed requirement.
    Outdated,
    /// An entry satisfies the relaxed requirement but not the exact one.
    Compatible,
    /// An entry satisfies the exact requirement.
    Found,
}

/// The verdict for one package: its status and the repository version string
/// it was decided on (empty when no entry was found).
pub struct PkgInfo {
    pub status: PkgStatus,
    pub version: String,
}

/// The mathematical value of a [`PkgInfo`].
pub struct PkgInfoView {
    pub status: PkgStatus,
    pub version: Seq<char>,
}

impl View for PkgInfo {
    type V = PkgInfoView;

    open spec fn view(&self) -> PkgInfoView {
        PkgInfoView { status: self.status, version: self.version@ }
    }
}

impl PkgInfo {
    /// An equal copy of the verdict.
    pub fn clone_value(&self) -> (r: PkgInfo)
        ensures
            r == *self,
    {
        PkgInfo { status: self.status, version: self.version.clone() }
    }
}

/// One candidate applied to the verdict so far: an unparsable candidate is
/// skipped; an exact satisfier wins; a relaxed satisfier records
/// `Compatible`; otherwise the first candidate seen is kept as `Outdated`.
pub open spec fn spec_eval_step(
    exact: Seq<char>,
    relaxed: Seq<char>,
    acc: PkgInfoView,
    cand: Seq<char>,
) -> PkgInfoView {
    let norm = spec_normalize(cand);
    if !semver_version_ok(norm) {
        acc
    } else if semver_match(exact, norm) {
        PkgInfoView { status: PkgStatus::Found, version: cand }
    } else if semver_match(relaxed, norm) {
        PkgInfoView { status: PkgStatus::Compatible, version: cand }
    } else if acc.status is NotFound {
        PkgInfoView { status: PkgStatus::Outdated, version: cand }
    } else {
        acc
    }
}

/// The candidate scan from a verdict so far: candidates are taken in order
/// and the scan stops at the first exact satisfier.
pub open spec fn spec_eval_from(
    exact: Seq<char>,
    relaxed: Seq<char>,
    cands: Seq<Seq<char>>,
    acc: PkgInfoView,
) -> PkgInfoView
    decreases cands.len(),
{
    if cands.len() == 0 {
        acc
    } else if acc.status is Found {
        acc
    } else {
        spec_eval_from(exact, relaxed, cands.drop_first(), spec_eval_step(exact, relaxed, acc, cands.first()))
    }
}

/// The verdict over a whole candidate list, starting from `NotFound`.
pub open spec fn spec_evaluate(exact: Seq<char>, relaxed: Seq<char>, cands: Seq<Seq<char>>) -> PkgInfoView {
    spec_eval_from(
        exact,
        relaxed,
        cands,
        PkgInfoView { status: PkgStatus::NotFound, version: Seq::empty() },
    )
}

/// Classification is deterministic: the verdict is a function of the
/// requirement strings and the candidate list alone, and of nothing else;
/// candidate order enters only through the scan rules of [`spec_eval_from`].
pub proof fn lemma_classify_deterministic(
    exact: Seq<char>,
    relaxed: Seq<char>,
    cands: Seq<Seq<char>>,
    r1: PkgInfoView,
    r2: PkgInfoView,
)
    requires
        r1 == spec_evaluate(exact, relaxed, cands),
        r2 == spec_evaluate(exact, relaxed, cands),
    ensures
        r1 == r2,
{
}

/// Classifies the available repository version strings against the target
/// version: the semantics are those of [`spec_evaluate`] over the exact and
/// relaxed requirement strings of the target. Fails exactly when a
/// requirement string derived from the target is not a valid semver
/// requirement.
pub fn evaluate_candidates(target: &Version, candidates: &Vec<String>) -> (r: Result<PkgInfo, RpmError>)
    ensures
        (r is Ok) <==> (semver_req_ok(spec_exact_req(target@)) && semver_req_ok(
            spec_relaxed_req(target@),
        )),
        r is Ok ==> (r->Ok_0)@ == spec_evaluate(
            spec_exact_req(target@),
            spec_relaxed_req(target@),
            candidates@.map_values(|s: String| s@),
        ),
        r is Err ==> r->Err_0 is VersionParse,
{
    let exact = target.exact_req();
    if !req_parses(exact.as_str()) {
        return Err(RpmError::VersionParse(exact));
    }
    let relaxed = target.relaxed_req();
    if !req_parses(relaxed.as_str()) {
        return Err(RpmError::VersionParse(relaxed));
    }
    let ghost cands: Seq<Seq<char>> = candidates@.map_values(|s: String| s@);
    let mut info = PkgInfo { status: PkgStatus::NotFound, version: String::new() };
    let mut i: usize = 0;
    proof {
        assert(cands.skip(0) =~= cands);
        assert(info@ == (PkgInfoView { status: PkgStatus::NotFound, version: Seq::<char>::empty() }));
    }
    while i < candidates.len()
        invariant
            0 <= i <= candidates.len(),
            cands == candidates@.map_values(|s: String| s@),
            cands.len() == candidates.len(),
            exact@ == spec_exact_req(target@),
            relaxed@ == spec_relaxed_req(target@),
            semver_req_ok(exact@),
            semver_req_ok(relaxed@),
            !(info@.status is Found),
            spec_evaluate(exact@, relaxed@, cands) == spec_eval_from(
                exact@,
                relaxed@,
                cands.skip(i as int),
                info@,
            ),
        decreases candidates.len() - i,
    {
        proof {
            assert(cands.skip(i as int).first() == cands[i as int]);
            assert(cands.skip(i as int).drop_first() =~= cands.skip(i + 1));
        }
        let cand = &candidates[i];
        let norm = normalize(cand.as_str());
        if version_parses(norm.as_str()) {
            if req_matches(exact.as_str(), norm.as_str()) {
                let found = PkgInfo { status: PkgStatus::Found, version: cand.clone() };
                proof {
                    assert(spec_eval_from(exact@, relaxed@, cands.skip(i + 1), found@) == found@);
                }
                return Ok(found);
            } else if req_matches(relaxed.as_str(), norm.as_str()) {
                info = PkgInfo { status: PkgStatus::Compatible, version: cand.clone() };
            } else if info.status == PkgStatus::NotFound {
                info = PkgInfo { status: PkgStatus::Outdated, version: cand.clone() };
            }
        }
        i = i + 1;
    }
    Ok(info)
}

/// Whether the repository version string, after normalization, satisfies the
/// given requirement. Fails exactly when the normalized string is not a
/// valid semantic version.
pub fn is_compatible(rpmversion: &str, crateversion: &semver::VersionReq) -> (r: Result<bool, RpmError>)
    ensures
        (r is Ok) <==> semver_version_ok(spec_normalize(rpmversion@)),
        r is Ok ==> r->Ok_0 == semver_value_match(*crateversion, spec_normalize(rpmversion@)),
        r is Err ==> r->Err_0 is VersionParse,
{
    let norm = normalize(rpmversion);
    match req_value_matches(crateversion, norm.as_str()) {
        Some(b) => Ok(b),
        None => Err(RpmError::VersionParse(norm)),
    }
}

/// The SQL pattern for all index entries packaging the named crate:
/// the distribution prefixes crate names with `rust-` and writes `-` in
/// place of `_`, and the match is a prefix match.
pub open spec fn spec_query_pattern(name: Seq<char>) -> Seq<char> {
    seq!['r', 'u', 's', 't', '-'] + name.map_values(
        |c: char|
            if c == '_' {
                '-'
            } else {
                c
            },
    ) + seq!['%']
}

/// The query pattern for one crate name.
pub fn query_pattern(name: &str) -> (r: String)
    ensures
        r@ == spec_query_pattern(name@),
{
    let mut r = String::new();
    crate::text::push_char(&mut r, 'r');
    crate::text::push_char(&mut r, 'u');
    crate::text::push_char(&mut r, 's');
    crate::text::push_char(&mut r, 't');
    crate::text::push_char(&mut r, '-');
    let n = name.unicode_len();
    let mut i: usize = 0;
    while i < n
        invariant
            0 <= i <= n,
            n == name@.len(),
            r@ == seq!['r', 'u', 's', 't', '-'] + name@.take(i as int).map_values(
                |c: char|
                    if c == '_' {
                        '-'
                    } else {
                        c
                    },
            ),
        decreases n - i,
    {
        let c = name.get_char(i);
        proof {
            assert(name@.take(i + 1).map_values(
                |ch: char|
                    if ch == '_' {
                        '-'
                    } else {
                        ch
                    },
            ) =~= name@.take(i as int).map_values(
                |ch: char|
                    if ch == '_' {
                        '-'
                    } else {
                        ch
                    },
            ).push(
                if name@[i as int] == '_' {
                    '-'
                } else {
                    name@[i as int]
                },
            ));
        }
        if c == '_' {
            crate::text::push_char(&mut r, '-');
        } else {
            crate::text::push_char(&mut r, c);
        }
        i = i + 1;
    }
    proof {
        assert(name@.take(n as int) =~= name@);
    }
    crate::text::push_char(&mut r, '%');
    proof {
        assert(r@ =~= spec_query_pattern(name@));
    }
    r
}

/// One connection to the local package-index database. A connection is owned
/// by one caller; it is never shared across worker threads.
pub struct IndexConnection {
    sock: rusqlite::Connection,
}

impl IndexConnection {
    /// Opens the package-index database at `db_path`.
    pub fn new(db_path: &str) -> (r: Result<IndexConnection, RpmError>)
        ensures
            r is Err ==> r->Err_0 is IndexUnavailable,
    {
        match crate::sqlite::open_database(db_path) {
            Ok(sock) => Ok(IndexConnection { sock }),
            Err(e) => Err(RpmError::IndexUnavailable(e)),
        }
    }

    /// Looks the package up in the index and classifies the versions found
    /// against the target version.
    pub fn search(&mut self, package: &str, version: &Version) -> (r: Result<PkgInfo, RpmError>)
        ensures
            r is Ok ==> exists|cands: Seq<Seq<char>>|
                (r->Ok_0)@ == spec_evaluate(
                    spec_exact_req(version@),
                    spec_relaxed_req(version@),
                    cands,
                ),
            r is Err ==> (r->Err_0 is Query || r->Err_0 is VersionParse),
    {
        self.search_generic("SELECT version FROM packages WHERE name LIKE ?1;", package, version)
    }

    /// Runs the given one-parameter query with the package's name pattern and
    /// classifies the version strings it returns against the target version.
    pub fn search_generic(&mut self, query: &str, package: &str, version: &Version) -> (r: Result<
        PkgInfo,
        RpmError,
    >)
        ensures
            r is Ok ==> exists|cands: Seq<Seq<char>>|
                (r->Ok_0)@ == spec_evaluate(
                    spec_exact_req(version@),
                    spec_relaxed_req(version@),
                    cands,
                ),
            r is Err ==> (r->Err_0 is Query || r->Err_0 is VersionParse),
    {
        let pattern = query_pattern(package);
        match crate::sqlite::query_strings(&self.sock, query, pattern.as_str()) {
            Ok(candidates) => {
                let info = evaluate_candidates(version, &candidates)?;
                proof {
                    let cands = candidates@.map_values(|s: String| s@);
                    assert(info@ == spec_evaluate(
                        spec_exact_req(version@),
                        spec_relaxed_req(version@),
                        cands,
                    ));
                }
                Ok(info)
            },
            Err(e) => Err(RpmError::Query(e)),
        }
    }
}


/// One entry of the repository metadata index: the type of one data file
/// and where it lies, relative to the repository root.
pub struct RepomdEntry {
    pub data_type: String,
    pub href: String,
}

/// The release's path segment under the build repository: a rawhide release
/// is served under `rawhide`, every other release under `<release>-build`.
pub open spec fn spec_release_segment(s: Seq<char>) -> Seq<char> {
    if s.len() >= 7 && s.take(7) == seq!['r', 'a', 'w', 'h', 'i', 'd', 'e'] {
        seq!['r', 'a', 'w', 'h', 'i', 'd', 'e']
    } else {
        s + seq!['-', 'b', 'u', 'i', 'l', 'd']
    }
}

/// The release's path segment under the build repository.
pub fn release_segment(rpmrelease: &str) -> (r: String)
    ensures
        r@ == spec_release_segment(rpmrelease@),
{
    let n = rpmrelease.unicode_len();
    if n >= 7 && rpmrelease.get_char(0) == 'r' && rpmrelease.get_char(1) == 'a'
        && rpmrelease.get_char(2) == 'w' && rpmrelease.get_char(3) == 'h' && rpmrelease.get_char(4)
        == 'i' && rpmrelease.get_char(5) == 'd' && rpmrelease.get_char(6) == 'e' {
        proof {
            assert(rpmrelease@.take(7) =~= seq!['r', 'a', 'w', 'h', 'i', 'd', 'e']);
        }
        let r = String::from_str("rawhide");
        proof {
            reveal_strlit("rawhide");
            assert(r@ =~= seq!['r', 'a', 'w', 'h', 'i', 'd', 'e']);
        }
        r
    } else {
        proof {
            if rpmrelease@.len() >= 7 {
                assert(rpmrelease@.take(7) != seq!['r', 'a', 'w', 'h', 'i', 'd', 'e']);
            }
        }
        let mut r = rpmrelease.to_owned();
        r.append("-build");
        proof {
            reveal_strlit("-build");
            assert("-build"@ =~= seq!['-', 'b', 'u', 'i', 'l', 'd']);
            assert(r@ =~= rpmrelease@ + seq!['-', 'b', 'u', 'i', 'l', 'd']);
        }
        r
    }
}

/// The URL of the repository metadata index for one release segment.
pub open spec fn spec_repomd_url(segment: Seq<char>) -> Seq<char> {
    "https://kojipkgs.fedoraproject.org/repos/"@ + segment + "/latest/x86_64/repodata/repomd.xml"@
}

/// The URL of the repository metadata index for one release segment.
pub fn repomd_url(segment: &str) -> (r: String)
    ensures
        r@ == spec_repomd_url(segment@),
{
    let mut r = String::from_str("https://kojipkgs.fedoraproject.org/repos/");
    r.append(segment);
    r.append("/latest/x86_64/repodata/repomd.xml");
    proof {
        assert(r@ =~= spec_repomd_url(segment@));
    }
    r
}

/// The URL of one data file of the repository, from the release segment and
/// the file's location relative to the metadata directory.
pub open spec fn spec_repodata_url(segment: Seq<char>, location: Seq<char>) -> Seq<char> {
    "https://kojipkgs.fedoraproject.org/repos/"@ + segment + "/latest/x86_64/repodata/"@ + location
}

/// The URL of one data file of the repository.
pub fn repodata_url(segment: &str, location: &str) -> (r: String)
    ensures
        r@ == spec_repodata_url(segment@, location@),
{
    let mut r = String::from_str("https://kojipkgs.fedoraproject.org/repos/");
    r.append(segment);
    r.append("/latest/x86_64/repodata/");
    r.append(location);
    proof {
        assert(r@ =~= spec_repodata_url(segment@, location@));
    }
    r
}

/// A location with the metadata directory's own prefix dropped: the index
/// writes locations relative to the repository root.
pub open spec fn spec_strip_repodata(href: Seq<char>) -> Seq<char> {
    if href.len() >= 9 && href.take(9) == seq!['r', 'e', 'p', 'o', 'd', 'a', 't', 'a', '/'] {
        href.skip(9)
    } else {
        href
    }
}

/// Whether the entry names the primary package database.
pub open spec fn spec_is_primary(e: RepomdEntry) -> bool {
    e.data_type@ == "primary_db"@
}

/// The location of the primary package database among the index entries: the
/// first entry of the primary type, its location made relative to the
/// metadata directory.
pub open spec fn spec_primary_location(entries: Seq<RepomdEntry>) -> Option<Seq<char>>
    decreases entries.len(),
{
    if entries.len() == 0 {
        None
    } else if spec_is_primary(entries.first()) {
        Some(spec_strip_repodata(entries.first().href@))
    } else {
        spec_primary_location(entries.drop_first())
    }
}

fn strip_repodata(href: &str) -> (r: String)
    ensures
        r@ == spec_strip_repodata(href@),
{
    let n = href.unicode_len();
    if n >= 9 && href.get_char(0) == 'r' && href.get_char(1) == 'e' && href.get_char(2) == 'p'
        && href.get_char(3) == 'o' && href.get_char(4) == 'd' && href.get_char(5) == 'a'
        && href.get_char(6) == 't' && href.get_char(7) == 'a' && href.get_char(8) == '/' {
        proof {
            assert(href@.take(9) =~= seq!['r', 'e', 'p', 'o', 'd', 'a', 't', 'a', '/']);
        }
        let r = href.substring_char(9, n);
        proof {
            assert(r@ =~= href@.skip(9));
        }
        r.to_owned()
    } else {
        proof {
            if href@.len() >= 9 {
                assert(href@.take(9) != seq!['r', 'e', 'p', 'o', 'd', 'a', 't', 'a', '/']);
            }
        }
        href.to_owned()
    }
}

/// The location of the primary package database among the index entries.
pub fn primary_location(entries: &Vec<RepomdEntry>) -> (r: Option<String>)
    ensures
        (r is Some) <==> (spec_primary_location(entries@) is Some),
        r is Some ==> (r->0)@ == spec_primary_location(entries@)->0,
{
    let n = entries.len();
    let mut i: usize = 0;
    proof {
        assert(entries@.skip(0) =~= entries@);
    }
    while i < n
        invariant
            0 <= i <= n,
            n == entries@.len(),
            spec_primary_location(entries@) == spec_primary_location(entries@.skip(i as int)),
        decreases n - i,
    {
        proof {
            assert(entries@.skip(i as int).first() == entries@[i as int]);
            assert(entries@.skip(i as int).drop_first() =~= entries@.skip(i + 1));
        }
        if crate::text::str_eq(entries[i].data_type.as_str(), "primary_db") {
            return Some(strip_repodata(entries[i].href.as_str()));
        }
        i = i + 1;
    }
    proof {
        assert(entries@.skip(n as int) =~= Seq::<RepomdEntry>::empty());
    }
    None
}

/// Whether a cached copy of the index this old must be refreshed: a copy is
/// kept for one day.
pub fn database_expired(age_seconds: u64) -> (r: bool)
    ensures
        r == (age_seconds >= 86400),
{
    age_seconds >= 86400
}

} // verus!
