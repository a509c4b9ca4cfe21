//! Package nodes, their packaging annotation, and the annotation machinery
//! that classifies every node of a graph against the package index.

use vstd::prelude::*;

use crate::db::{IndexConnection, PkgInfo, PkgStatus};
use crate::db::{spec_evaluate, PkgInfoView};
use crate::graph::Graph;
use crate::text::push_char;
use crate::version::{spec_exact_req, spec_relaxed_req, Version};
use crate::RpmError;

verus! {

/// What the index holds for one package, as recorded on a graph node.
pub struct RpmInfo {
    /// An entry for the package exists in the index at all.
    pub in_rawhide: bool,
    /// Entries exist but none satisfies even the relaxed requirement.
    pub outdated: bool,
    /// An entry satisfies the relaxed requirement but not the exact one.
    pub compatible: bool,
    /// An entry satisfies the exact requirement.
    pub exact_match: bool,
    /// The repository version the verdict was decided on.
    pub version: String,
}

impl RpmInfo {
    /// An equal copy of the record.
    pub fn clone_value(&self) -> (r: RpmInfo)
        ensures
            r == *self,
    {
        RpmInfo {
            in_rawhide: self.in_rawhide,
            outdated: self.outdated,
            compatible: self.compatible,
            exact_match: self.exact_match,
            version: self.version.clone(),
        }
    }
}

/// One resolved package: a node of the dependency graph.
pub struct Pkg {
    /// The identifier, unique within one graph.
    pub id: String,
    pub name: String,
    pub version: Version,
    /// The upstream source descriptor, when the package is not a local path.
    pub source: Option<String>,
    pub manifest_path: String,
    pub license: Option<String>,
    pub repository: Option<String>,
    /// The packaging annotation, written once during annotation.
    pub rpminfo: Option<RpmInfo>,
}

pub(crate) fn clone_opt_string(o: &Option<String>) -> (r: Option<String>)
    ensures
        r == *o,
{
    match o {
        Some(s) => Some(s.clone()),
        None => None,
    }
}

/// How far packaging has progressed for one node.
#[derive(Debug, Clone, Copy, PartialEq, Eq, Structural)]
pub enum PackagingProgress {
    /// Packaged at the needed version, or at a compatible one.
    Available,
    /// Packaged, but at a version that needs a bump.
    NeedsUpdate,
    /// Not packaged at all.
    Missing,
}

/// The fixed-width glyph for one progress state. Each glyph occupies two
/// display columns in a terminal, so tree alignment is preserved.
pub open spec fn spec_icon(p: PackagingProgress) -> Seq<char> {
    match p {
        PackagingProgress::Available => seq![' ', ' '],
        PackagingProgress::NeedsUpdate => seq!['⌛'],
        PackagingProgress::Missing => seq!['🔴'],
    }
}

impl PackagingProgress {
    /// The glyph displaying this progress state.
    pub fn icon(&self) -> (r: String)
        ensures
            r@ == spec_icon(*self),
    {
        let mut r = String::new();
        match self {
            PackagingProgress::Available => {
                push_char(&mut r, ' ');
                push_char(&mut r, ' ');
                proof {
                    assert(r@ =~= seq![' ', ' ']);
                }
            },
            PackagingProgress::NeedsUpdate => {
                push_char(&mut r, '⌛');
                proof {
                    assert(r@ =~= seq!['⌛']);
                }
            },
            PackagingProgress::Missing => {
                push_char(&mut r, '🔴');
                proof {
                    assert(r@ =~= seq!['🔴']);
                }
            },
        }
        r
    }
}

/// Whether the index holds the package at all.
pub open spec fn spec_in_fedora(p: Pkg) -> bool {
    match p.rpminfo {
        Some(rpm) => rpm.in_rawhide,
        None => false,
    }
}

/// Whether a node's children still need to be shown: packaging work below a
/// node matters only while the node itself is not already satisfied at an
/// exact or best-possible compatible version.
pub open spec fn spec_show_dependencies(p: Pkg) -> bool {
    if !spec_in_fedora(p) {
        true
    } else {
        match p.rpminfo {
            Some(rpm) => !rpm.exact_match && (rpm.outdated || !rpm.compatible),
            None => true,
        }
    }
}

/// The progress state displayed for a node.
pub open spec fn spec_packaging_status(p: Pkg) -> PackagingProgress {
    match p.rpminfo {
        Some(rpm) => if rpm.in_rawhide {
            if rpm.compatible {
                PackagingProgress::Available
            } else if rpm.outdated {
                PackagingProgress::NeedsUpdate
            } else {
                PackagingProgress::Available
            }
        } else if rpm.outdated {
            PackagingProgress::NeedsUpdate
        } else {
            PackagingProgress::Missing
        },
        None => PackagingProgress::Missing,
    }
}

impl Pkg {
    /// A node from its resolved metadata, with no annotation yet.
    pub fn new(
        id: String,
        name: String,
        version: Version,
        source: Option<String>,
        manifest_path: String,
        license: Option<String>,
        repository: Option<String>,
    ) -> (r: Pkg)
        ensures
            r.id == id,
            r.name == name,
            r.version == version,
            r.source == source,
            r.manifest_path == manifest_path,
            r.license == license,
            r.repository == repository,
            r.rpminfo is None,
    {
        Pkg { id, name, version, source, manifest_path, license, repository, rpminfo: None }
    }

    /// An equal copy of the node.
    pub fn clone_value(&self) -> (r: Pkg)
        ensures
            r == *self,
    {
        Pkg {
            id: self.id.clone(),
            name: self.name.clone(),
            version: self.version.clone_value(),
            source: clone_opt_string(&self.source),
            manifest_path: self.manifest_path.clone(),
            license: clone_opt_string(&self.license),
            repository: clone_opt_string(&self.repository),
            rpminfo: match &self.rpminfo {
                Some(rpm) => Some(rpm.clone_value()),
                None => None,
            },
        }
    }

    /// Whether the index holds the package at all.
    pub fn in_fedora(&self) -> (r: bool)
        ensures
            r == spec_in_fedora(*self),
    {
        if let Some(rpm) = &self.rpminfo {
            rpm.in_rawhide
        } else {
            false
        }
    }

    /// Whether the node's children still need to be shown.
    pub fn show_dependencies(&self) -> (r: bool)
        ensures
            r == spec_show_dependencies(*self),
    {
        if !self.in_fedora() {
            return true;
        }
        if let Some(rpm) = &self.rpminfo {
            !rpm.exact_match && (rpm.outdated || !rpm.compatible)
        } else {
            true
        }
    }

    /// The progress state displayed for the node.
    pub fn packaging_status(&self) -> (r: PackagingProgress)
        ensures
            r == spec_packaging_status(*self),
    {
        if let Some(rpm) = &self.rpminfo {
            if rpm.in_rawhide {
                if rpm.compatible {
                    PackagingProgress::Available
                } else if rpm.outdated {
                    PackagingProgress::NeedsUpdate
                } else {
                    PackagingProgress::Available
                }
            } else if rpm.outdated {
                PackagingProgress::NeedsUpdate
            } else {
                PackagingProgress::Missing
            }
        } else {
            PackagingProgress::Missing
        }
    }
}

/// An index verdict translated into the record stored on a node.
pub fn rpm_info_from(info: PkgInfo) -> (r: RpmInfo)
    ensures
        r.in_rawhide == !(info.status is NotFound),
        r.outdated == (info.status is Outdated),
        r.compatible == (info.status is Compatible),
        r.exact_match == (info.status is Found),
        r.version@ == (if info.status is NotFound {
            Seq::<char>::empty()
        } else {
            info.version@
        }),
{
    let PkgInfo { status, version } = info;
    let in_rawhide = status != PkgStatus::NotFound;
    RpmInfo {
        in_rawhide,
        outdated: status == PkgStatus::Outdated,
        compatible: status == PkgStatus::Compatible,
        exact_match: status == PkgStatus::Found,
        version: if in_rawhide {
            version
        } else {
            String::new()
        },
    }
}

/// Whether the record `r` writes down exactly the verdict `info`.
pub open spec fn spec_records_verdict(r: RpmInfo, info: PkgInfoView) -> bool {
    &&& r.in_rawhide == !(info.status is NotFound)
    &&& r.outdated == (info.status is Outdated)
    &&& r.compatible == (info.status is Compatible)
    &&& r.exact_match == (info.status is Found)
    &&& r.version@ == (if info.status is NotFound {
        Seq::<char>::empty()
    } else {
        info.version
    })
}

/// Looks one package up in the index and produces its annotation record.
pub fn run_task(db: &mut IndexConnection, pkg: &Pkg) -> (r: Result<RpmInfo, RpmError>)
    ensures
        r is Ok ==> exists|cands: Seq<Seq<char>>|
            spec_records_verdict(
                r->Ok_0,
                #[trigger] spec_evaluate(
                    spec_exact_req(pkg.version@),
                    spec_relaxed_req(pkg.version@),
                    cands,
                ),
            ),
        r is Err ==> (r->Err_0 is Query || r->Err_0 is VersionParse),
{
    let info = db.search(pkg.name.as_str(), &pkg.version)?;
    let ghost info_view = info@;
    let ghost cands = choose|cands: Seq<Seq<char>>|
        info_view == spec_evaluate(spec_exact_req(pkg.version@), spec_relaxed_req(pkg.version@), cands);
    let rpm = rpm_info_from(info);
    proof {
        let spec_info = spec_evaluate(
            spec_exact_req(pkg.version@),
            spec_relaxed_req(pkg.version@),
            cands,
        );
        assert(spec_info == info_view);
        assert(spec_records_verdict(rpm, spec_info));
    }
    Ok(rpm)
}


/// One unit of annotation work: the node's index with the package name and
/// target version to look up.
pub struct WorkItem {
    pub idx: usize,
    pub name: String,
    pub version: Version,
}

/// The annotation work for a graph: one item per node, in node order.
pub fn annotation_jobs(g: &Graph) -> (r: Vec<WorkItem>)
    ensures
        r@.len() == g.nodes@.len(),
        forall|i: int|
            0 <= i < r@.len() ==> (#[trigger] r@[i]).idx == i && r@[i].name == g.nodes@[i].name
                && r@[i].version == g.nodes@[i].version,
{
    let n = g.nodes.len();
    let mut r: Vec<WorkItem> = Vec::new();
    let mut i: usize = 0;
    while i < n
        invariant
            0 <= i <= n,
            n == g.nodes@.len(),
            r@.len() == i,
            forall|j: int|
                0 <= j < i ==> (#[trigger] r@[j]).idx == j && r@[j].name == g.nodes@[j].name
                    && r@[j].version == g.nodes@[j].version,
        decreases n - i,
    {
        let item = WorkItem {
            idx: i,
            name: g.nodes[i].name.clone(),
            version: g.nodes[i].version.clone_value(),
        };
        r.push(item);
        i = i + 1;
    }
    r
}

/// One message from a worker: a computed record for a node, or a fatal
/// failure, with the node that was in flight when one was.
pub enum WorkerEvent {
    Done(usize, RpmInfo),
    Failed(Option<usize>, RpmError),
}

/// Whether the `k`-th worker message is a result for a known node that no
/// earlier message already answered.
pub open spec fn spec_event_ok(events: Seq<WorkerEvent>, k: int, n: int) -> bool {
    &&& events[k] is Done
    &&& events[k]->Done_0 < n
    &&& forall|j: int|
        0 <= j < k && (#[trigger] events[j]) is Done ==> events[j]->Done_0 != events[k]->Done_0
}

/// Whether a drained message list annotates a graph of `n` nodes completely:
/// one result per node, each for a distinct known node, and no failure.
pub open spec fn spec_events_ok(events: Seq<WorkerEvent>, n: int) -> bool {
    &&& events.len() == n
    &&& forall|k: int| 0 <= k < events.len() ==> #[trigger] spec_event_ok(events, k, n)
}

/// Whether some worker result names node `m`.
pub open spec fn spec_node_answered(events: Seq<WorkerEvent>, m: int) -> bool {
    exists|j: int|
        0 <= j < events.len() && (#[trigger] events[j]) is Done && events[j]->Done_0 == m
}

/// The node with its annotation written.
pub open spec fn spec_with_rpm(p: Pkg, rpm: RpmInfo) -> Pkg {
    Pkg {
        id: p.id,
        name: p.name,
        version: p.version,
        source: p.source,
        manifest_path: p.manifest_path,
        license: p.license,
        repository: p.repository,
        rpminfo: Some(rpm),
    }
}

/// How many entries of the sequence are true.
pub open spec fn spec_trues(s: Seq<bool>) -> nat
    decreases s.len(),
{
    if s.len() == 0 {
        0
    } else {
        spec_trues(s.drop_last()) + (if s.last() {
            1nat
        } else {
            0nat
        })
    }
}

pub(crate) proof fn lemma_trues_none(s: Seq<bool>)
    requires
        forall|i: int| 0 <= i < s.len() ==> !s[i],
    ensures
        spec_trues(s) == 0,
    decreases s.len(),
{
    if s.len() > 0 {
        lemma_trues_none(s.drop_last());
    }
}

pub(crate) proof fn lemma_trues_update(s: Seq<bool>, m: int)
    requires
        0 <= m < s.len(),
        !s[m],
    ensures
        spec_trues(s.update(m, true)) == spec_trues(s) + 1,
    decreases s.len(),
{
    if m == s.len() - 1 {
        assert(s.update(m, true).drop_last() =~= s.drop_last());
    } else {
        assert(s.update(m, true).drop_last() =~= s.drop_last().update(m, true));
        lemma_trues_update(s.drop_last(), m);
    }
}

pub(crate) proof fn lemma_trues_bound(s: Seq<bool>)
    ensures
        spec_trues(s) <= s.len(),
    decreases s.len(),
{
    if s.len() > 0 {
        lemma_trues_bound(s.drop_last());
    }
}

pub(crate) proof fn lemma_trues_full(s: Seq<bool>)
    requires
        spec_trues(s) == s.len(),
    ensures
        forall|i: int| 0 <= i < s.len() ==> s[i],
    decreases s.len(),
{
    if s.len() > 0 {
        lemma_trues_bound(s.drop_last());
        lemma_trues_full(s.drop_last());
        assert forall|i: int| 0 <= i < s.len() implies s[i] by {
            if i < s.len() - 1 {
                assert(s.drop_last()[i]);
            }
        }
    }
}

proof fn lemma_no_failed_when_ok(events: Seq<WorkerEvent>, upto: int, n: int)
    requires
        forall|j: int| 0 <= j < upto ==> #[trigger] spec_event_ok(events, j, n),
    ensures
        forall|k: int| 0 <= k < upto ==> !((#[trigger] events[k]) is Failed),
{
    assert forall|k: int| 0 <= k < upto implies !((#[trigger] events[k]) is Failed) by {
        assert(spec_event_ok(events, k, n));
    }
}


pub(crate) proof fn lemma_trues_monotone(a: Seq<bool>, b: Seq<bool>)
    requires
        a.len() == b.len(),
        forall|i: int| 0 <= i < a.len() && a[i] ==> b[i],
    ensures
        spec_trues(a) <= spec_trues(b),
    decreases a.len(),
{
    if a.len() > 0 {
        assert forall|i: int| 0 <= i < a.drop_last().len() && a.drop_last()[i]
            implies b.drop_last()[i] by {
            assert(a[i]);
        }
        lemma_trues_monotone(a.drop_last(), b.drop_last());
    }
}

/// Checks a drained list of worker results against a graph of `n` nodes:
/// each result must name a distinct known node, no worker may have failed,
/// and there must be one result per node. A worker's failure is handed back
/// unchanged; when the results pass, every node is named by some result.
pub fn check_events(events: &Vec<WorkerEvent>, n: usize) -> (r: Result<(), RpmError>)
    ensures
        (r is Ok) <==> spec_events_ok(events@, n as int),
        r is Ok ==> forall|m: int| 0 <= m < n ==> #[trigger] spec_node_answered(events@, m),
        forall|k: int|
            0 <= k < events@.len() && (#[trigger] events@[k]) is Failed && (forall|j: int|
                0 <= j < k ==> #[trigger] spec_event_ok(events@, j, n as int)) ==> (r is Err
                && r->Err_0 == events@[k]->Failed_1),
{
    let mut seen: Vec<bool> = Vec::new();
    let mut i: usize = 0;
    while i < n
        invariant
            0 <= i <= n,
            seen@.len() == i,
            forall|m: int| 0 <= m < i ==> !(#[trigger] seen@[m]),
        decreases n - i,
    {
        seen.push(false);
        i = i + 1;
    }
    proof {
        lemma_trues_none(seen@);
    }
    let mut k: usize = 0;
    while k < events.len()
        invariant
            0 <= k <= events@.len(),
            seen@.len() == n,
            forall|j: int| 0 <= j < k ==> #[trigger] spec_event_ok(events@, j, n as int),
            forall|m: int|
                0 <= m < n ==> ((#[trigger] seen@[m]) <==> exists|j: int|
                    0 <= j < k && (#[trigger] events@[j]) is Done && events@[j]->Done_0 == m),
            spec_trues(seen@) == k,
        decreases events@.len() - k,
    {
        match &events[k] {
            WorkerEvent::Failed(_, e) => {
                proof {
                    lemma_no_failed_when_ok(events@, k as int, n as int);
                    assert(!spec_event_ok(events@, k as int, n as int));
                }
                return Err(e.clone_value());
            },
            WorkerEvent::Done(idx, _) => {
                let idx: usize = *idx;
                if idx >= n {
                    proof {
                        lemma_no_failed_when_ok(events@, k as int, n as int);
                        assert(!spec_event_ok(events@, k as int, n as int));
                    }
                    return Err(RpmError::WorkerFailed(String::from_str(
                        "a result names an unknown node",
                    )));
                }
                if seen[idx] {
                    proof {
                        lemma_no_failed_when_ok(events@, k as int, n as int);
                        assert(!spec_event_ok(events@, k as int, n as int));
                    }
                    return Err(RpmError::WorkerFailed(String::from_str(
                        "two results name one node",
                    )));
                }
                proof {
                    lemma_trues_update(seen@, idx as int);
                    assert(spec_event_ok(events@, k as int, n as int));
                }
                seen[idx] = true;
            },
        }
        k = k + 1;
    }
    proof {
        lemma_no_failed_when_ok(events@, events@.len() as int, n as int);
    }
    if events.len() != n {
        return Err(RpmError::WorkerFailed(String::from_str(
            "the number of results differs from the number of nodes",
        )));
    }
    proof {
        lemma_trues_full(seen@);
        assert(spec_events_ok(events@, n as int));
        assert forall|m: int| 0 <= m < n implies #[trigger] spec_node_answered(events@, m) by {
            assert(seen@[m]);
        }
    }
    Ok(())
}

/// Applies a drained list of worker results to the graph: every result goes
/// to the node it names, never by arrival order. Succeeds exactly when the
/// results are one per node, each for a distinct known node, and no worker
/// failed; a worker's failure is handed back unchanged; on any failure the
/// graph is left untouched.
#[verifier::rlimit(100)]
pub fn apply_annotations(g: &mut Graph, events: &Vec<WorkerEvent>) -> (r: Result<(), RpmError>)
    requires
        forall|i: int| 0 <= i < old(g).nodes@.len() ==> (#[trigger] old(g).nodes@[i]).rpminfo is None,
    ensures
        final(g).edges == old(g).edges,
        final(g).root == old(g).root,
        final(g).nodes@.len() == old(g).nodes@.len(),
        r is Err ==> *final(g) == *old(g),
        (r is Ok) <==> spec_events_ok(events@, old(g).nodes@.len() as int),
        r is Ok ==> forall|k: int|
            0 <= k < events@.len() ==> (#[trigger] events@[k]) is Done && final(g).nodes@[
                events@[k]->Done_0 as int
            ] == spec_with_rpm(old(g).nodes@[events@[k]->Done_0 as int], events@[k]->Done_1),
        r is Ok ==> forall|i: int|
            0 <= i < final(g).nodes@.len() ==> (#[trigger] final(g).nodes@[i]).rpminfo is Some,
        forall|k: int|
            0 <= k < events@.len() && (#[trigger] events@[k]) is Failed && (forall|j: int|
                0 <= j < k ==> #[trigger] spec_event_ok(events@, j, old(g).nodes@.len() as int))
                ==> (r is Err && r->Err_0 == events@[k]->Failed_1),
{
    let n = g.nodes.len();
    match check_events(events, n) {
        Err(e) => {
            return Err(e);
        },
        Ok(()) => {},
    }
    let ghost nodes0 = g.nodes@;
    let mut k: usize = 0;
    while k < events.len()
        invariant
            0 <= k <= events@.len(),
            events@.len() == n,
            n == g.nodes@.len(),
            nodes0 == old(g).nodes@,
            nodes0.len() == n,
            g.edges == old(g).edges,
            g.root == old(g).root,
            spec_events_ok(events@, n as int),
            forall|j: int|
                0 <= j < k ==> g.nodes@[(#[trigger] events@[j])->Done_0 as int] == spec_with_rpm(
                    nodes0[events@[j]->Done_0 as int],
                    events@[j]->Done_1,
                ),
            forall|m: int|
                0 <= m < n && !(exists|j: int|
                    0 <= j < k && (#[trigger] events@[j]) is Done && events@[j]->Done_0 == m)
                    ==> g.nodes@[m] == nodes0[m],
        decreases events@.len() - k,
    {
        proof {
            assert(spec_event_ok(events@, k as int, n as int));
        }
        match &events[k] {
            WorkerEvent::Done(idx, rpm) => {
                let idx: usize = *idx;
                proof {
                    assert(!(exists|j: int|
                        0 <= j < k && (#[trigger] events@[j]) is Done && events@[j]->Done_0
                            == idx as int));
                    assert(g.nodes@[idx as int] == nodes0[idx as int]);
                }
                let mut node = g.nodes[idx].clone_value();
                node.rpminfo = Some(rpm.clone_value());
                g.nodes[idx] = node;
                proof {
                    assert(g.nodes@[idx as int] == spec_with_rpm(
                        nodes0[idx as int],
                        events@[k as int]->Done_1,
                    ));
                    assert forall|j: int|
                        0 <= j < k + 1 implies g.nodes@[(#[trigger] events@[j])->Done_0 as int]
                        == spec_with_rpm(
                        nodes0[events@[j]->Done_0 as int],
                        events@[j]->Done_1,
                    ) by {
                        assert(spec_event_ok(events@, j, n as int));
                        if j < k {
                            assert(events@[j]->Done_0 != idx);
                        }
                    }
                }
            },
            WorkerEvent::Failed(_, _) => {
                proof {
                    assert(false);
                }
            },
        }
        k = k + 1;
    }
    proof {
        assert forall|m: int| 0 <= m < n implies (#[trigger] g.nodes@[m]).rpminfo is Some by {
            assert(spec_node_answered(events@, m));
            let j = choose|j: int|
                0 <= j < events@.len() && (#[trigger] events@[j]) is Done && events@[j]->Done_0
                    == m;
            assert(g.nodes@[m] == spec_with_rpm(nodes0[m], events@[j]->Done_1));
        }
        lemma_no_failed_when_ok(events@, events@.len() as int, n as int);
    }
    Ok(())
}

} // verus!
