//! The dependency graph: nodes, edges, and construction from resolved
//! metadata.

use vstd::prelude::*;

use crate::fedora::{clone_opt_string, Pkg};
use crate::metadata::{MetaDep, MetaInput, MetaPackage};
use crate::RpmError;

verus! {

/// The kind of one dependency relationship.
#[derive(Debug, Clone, Copy, PartialEq, Eq, Structural)]
pub enum DepKind {
    Normal,
    Build,
    Development,
}

/// One directed dependency edge, from dependent to dependency. Multiple
/// edges between the same ordered pair are kept distinct.
pub struct Edge {
    pub from: usize,
    pub to: usize,
    pub kind: DepKind,
    /// Whether the dependency is optional.
    pub optional: bool,
    /// The target-platform filter the relationship carries, when any.
    pub target: Option<String>,
}

/// A directed, possibly cyclic dependency graph with one distinguished root.
pub struct Graph {
    pub nodes: Vec<Pkg>,
    pub edges: Vec<Edge>,
    pub root: usize,
}

impl Graph {
    /// Every edge endpoint and the root name an existing node.
    pub open spec fn wf(self) -> bool {
        &&& self.root < self.nodes@.len()
        &&& forall|k: int|
            0 <= k < self.edges@.len() ==> (#[trigger] self.edges@[k]).from < self.nodes@.len()
                && self.edges@[k].to < self.nodes@.len()
    }
}

/// No two packages share an identifier.
pub open spec fn spec_ids_unique(ps: Seq<MetaPackage>) -> bool {
    forall|i: int, j: int| 0 <= i < j < ps.len() ==> (#[trigger] ps[i].id)@ != (#[trigger] ps[j].id)@
}

/// Index of the first package with the given identifier, or `ps.len()`.
pub open spec fn spec_find_id(ps: Seq<MetaPackage>, id: Seq<char>) -> int
    decreases ps.len(),
{
    if ps.len() == 0 {
        0
    } else if ps[0].id@ == id {
        0
    } else {
        1 + spec_find_id(ps.drop_first(), id)
    }
}

pub proof fn lemma_find_id(ps: Seq<MetaPackage>, id: Seq<char>)
    ensures
        0 <= spec_find_id(ps, id) <= ps.len(),
        forall|j: int| 0 <= j < spec_find_id(ps, id) ==> (#[trigger] ps[j].id)@ != id,
        spec_find_id(ps, id) < ps.len() ==> ps[spec_find_id(ps, id)].id@ == id,
    decreases ps.len(),
{
    if ps.len() != 0 && ps[0].id@ != id {
        lemma_find_id(ps.drop_first(), id);
        assert forall|j: int| 0 <= j < spec_find_id(ps, id) implies (#[trigger] ps[j].id)@ != id by {
            if j > 0 {
                assert(ps.drop_first()[j - 1].id@ != id);
            }
        }
    }
}

pub proof fn lemma_find_id_unique(ps: Seq<MetaPackage>, id: Seq<char>, i: int)
    requires
        0 <= i <= ps.len(),
        forall|j: int| 0 <= j < i ==> (#[trigger] ps[j].id)@ != id,
        i < ps.len() ==> ps[i].id@ == id,
    ensures
        i == spec_find_id(ps, id),
    decreases ps.len(),
{
    if ps.len() != 0 && ps[0].id@ != id {
        assert(i >= 1);
        lemma_find_id_unique(ps.drop_first(), id, i - 1);
    }
}

/// Index of the first package with the given name, or `ps.len()`.
pub open spec fn spec_find_name(ps: Seq<MetaPackage>, name: Seq<char>) -> int
    decreases ps.len(),
{
    if ps.len() == 0 {
        0
    } else if ps[0].name@ == name {
        0
    } else {
        1 + spec_find_name(ps.drop_first(), name)
    }
}

pub proof fn lemma_find_name_unique(ps: Seq<MetaPackage>, name: Seq<char>, i: int)
    requires
        0 <= i <= ps.len(),
        forall|j: int| 0 <= j < i ==> (#[trigger] ps[j].name)@ != name,
        i < ps.len() ==> ps[i].name@ == name,
    ensures
        i == spec_find_name(ps, name),
    decreases ps.len(),
{
    if ps.len() != 0 && ps[0].name@ != name {
        assert(i >= 1);
        lemma_find_name_unique(ps.drop_first(), name, i - 1);
    }
}

/// How many packages carry the given name.
pub open spec fn spec_count_name(ps: Seq<MetaPackage>, name: Seq<char>) -> nat
    decreases ps.len(),
{
    if ps.len() == 0 {
        0
    } else {
        spec_count_name(ps.drop_last(), name) + (if ps.last().name@ == name {
            1nat
        } else {
            0nat
        })
    }
}

/// Whether the dependency survives the development filter.
pub open spec fn spec_dep_kept(d: MetaDep, include_dev: bool) -> bool {
    include_dev || !(d.kind is Development)
}

/// The edge one kept dependency becomes.
pub open spec fn spec_edge_of(ps: Seq<MetaPackage>, d: MetaDep) -> Edge {
    Edge {
        from: spec_find_id(ps, d.from@) as usize,
        to: spec_find_id(ps, d.to@) as usize,
        kind: d.kind,
        optional: d.optional,
        target: d.target,
    }
}

/// The edge list of the graph: one edge per dependency that survives the
/// filter, in input order.
pub open spec fn spec_edges_of(ps: Seq<MetaPackage>, ds: Seq<MetaDep>, include_dev: bool) -> Seq<
    Edge,
>
    decreases ds.len(),
{
    if ds.len() == 0 {
        Seq::empty()
    } else {
        spec_edges_of(ps, ds.drop_last(), include_dev) + (if spec_dep_kept(ds.last(), include_dev) {
            seq![spec_edge_of(ps, ds.last())]
        } else {
            Seq::empty()
        })
    }
}

/// Every kept dependency names two known packages.
pub open spec fn spec_deps_ok(ps: Seq<MetaPackage>, ds: Seq<MetaDep>, include_dev: bool) -> bool {
    forall|k: int|
        0 <= k < ds.len() && spec_dep_kept(#[trigger] ds[k], include_dev) ==> spec_find_id(
            ps,
            ds[k].from@,
        ) < ps.len() && spec_find_id(ps, ds[k].to@) < ps.len()
}

/// Whether a root node can be resolved: a name selector must match exactly
/// one package; otherwise the metadata's root identifier must name a package.
pub open spec fn spec_root_ok(
    ps: Seq<MetaPackage>,
    root: Option<String>,
    selector: Option<String>,
) -> bool {
    match selector {
        Some(sel) => spec_count_name(ps, sel@) == 1,
        None => match root {
            Some(id) => spec_find_id(ps, id@) < ps.len(),
            None => false,
        },
    }
}

/// The resolved root index.
pub open spec fn spec_root_index(
    ps: Seq<MetaPackage>,
    root: Option<String>,
    selector: Option<String>,
) -> int {
    match selector {
        Some(sel) => spec_find_name(ps, sel@),
        None => match root {
            Some(id) => spec_find_id(ps, id@),
            None => 0,
        },
    }
}

/// The node one package becomes: the same data, with no annotation yet.
pub open spec fn spec_node_of(p: MetaPackage) -> Pkg {
    Pkg {
        id: p.id,
        name: p.name,
        version: p.version,
        source: p.source,
        manifest_path: p.manifest_path,
        license: p.license,
        repository: p.repository,
        rpminfo: None,
    }
}

/// Index of the first package with the given identifier, or the number of
/// packages when there is none.
fn find_pkg_id(ps: &Vec<MetaPackage>, id: &String) -> (r: usize)
    ensures
        r == spec_find_id(ps@, id@),
{
    let n = ps.len();
    let mut i: usize = 0;
    while i < n
        invariant
            0 <= i <= n,
            n == ps@.len(),
            forall|j: int| 0 <= j < i ==> (#[trigger] ps@[j].id)@ != id@,
        decreases n - i,
    {
        if ps[i].id.eq(id) {
            proof {
                lemma_find_id_unique(ps@, id@, i as int);
            }
            return i;
        }
        i = i + 1;
    }
    proof {
        lemma_find_id_unique(ps@, id@, n as int);
    }
    n
}

/// Builds the graph from resolved metadata: one node per package, one edge
/// per dependency surviving the development filter, and the root resolved
/// from the name selector or the metadata's root identifier. Fails with a
/// graph-build error exactly when two packages share an identifier, a kept
/// dependency names an unknown package, or no root can be resolved.
pub fn build(meta: &MetaInput, include_dev: bool, selector: &Option<String>) -> (r: Result<
    Graph,
    RpmError,
>)
    ensures
        (r is Ok) <==> (spec_ids_unique(meta.packages@) && spec_deps_ok(
            meta.packages@,
            meta.deps@,
            include_dev,
        ) && spec_root_ok(meta.packages@, meta.root, *selector)),
        r is Ok ==> (r->Ok_0).wf(),
        r is Ok ==> (r->Ok_0).nodes@.len() == meta.packages@.len(),
        r is Ok ==> forall|i: int|
            0 <= i < meta.packages@.len() ==> (r->Ok_0).nodes@[i] == spec_node_of(
                #[trigger] meta.packages@[i],
            ),
        r is Ok ==> (r->Ok_0).edges@ == spec_edges_of(meta.packages@, meta.deps@, include_dev),
        r is Ok ==> (r->Ok_0).root == spec_root_index(meta.packages@, meta.root, *selector),
        r is Err ==> r->Err_0 is GraphBuild,
{
    let n = meta.packages.len();
    // identifiers must be unique
    let mut i: usize = 0;
    while i < n
        invariant
            0 <= i <= n,
            n == meta.packages@.len(),
            forall|a: int, b: int|
                0 <= a < b < meta.packages@.len() && a < i ==> (#[trigger] meta.packages@[a].id)@
                    != (#[trigger] meta.packages@[b].id)@,
        decreases n - i,
    {
        let mut j: usize = i + 1;
        while j < n
            invariant
                0 <= i < j <= n,
                n == meta.packages@.len(),
                forall|b: int| i < b < j ==> (#[trigger] meta.packages@[b].id)@ != meta.packages@[i as int].id@,
            decreases n - j,
        {
            if meta.packages[i].id.eq(&meta.packages[j].id) {
                return Err(RpmError::GraphBuild(String::from_str(
                    "metadata lists two packages with one identifier",
                )));
            }
            j = j + 1;
        }
        i = i + 1;
    }
    assert(spec_ids_unique(meta.packages@));
    // resolve the root
    let root: usize = match selector {
        Some(sel) => {
            let mut count: usize = 0;
            let mut first: usize = n;
            let mut k: usize = 0;
            while k < n
                invariant
                    0 <= k <= n,
                    n == meta.packages@.len(),
                    count == spec_count_name(meta.packages@.take(k as int), sel@),
                    count <= k,
                    count > 0 ==> (first < k && meta.packages@[first as int].name@ == sel@
                        && first == spec_find_name(meta.packages@, sel@)),
                    count == 0 ==> (first == n && forall|j: int|
                        0 <= j < k ==> (#[trigger] meta.packages@[j].name)@ != sel@),
                decreases n - k,
            {
                proof {
                    assert(meta.packages@.take(k + 1).drop_last() =~= meta.packages@.take(k as int));
                    assert(meta.packages@.take(k + 1).last() == meta.packages@[k as int]);
                }
                if meta.packages[k].name.eq(sel) {
                    if count == 0 {
                        first = k;
                        proof {
                            lemma_find_name_unique(meta.packages@, sel@, k as int);
                        }
                    }
                    count = count + 1;
                }
                k = k + 1;
            }
            proof {
                assert(meta.packages@.take(n as int) =~= meta.packages@);
            }
            if count == 0 {
                return Err(RpmError::GraphBuild(String::from_str(
                    "no package carries the selected name",
                )));
            }
            if count > 1 {
                return Err(RpmError::GraphBuild(String::from_str(
                    "the selected name matches more than one package",
                )));
            }
            first
        },
        None => match &meta.root {
            Some(id) => {
                let idx = find_pkg_id(&meta.packages, id);
                proof {
                    lemma_find_id(meta.packages@, id@);
                }
                if idx >= n {
                    return Err(RpmError::GraphBuild(String::from_str(
                        "the root identifier names no package",
                    )));
                }
                idx
            },
            None => {
                return Err(RpmError::GraphBuild(String::from_str(
                    "the metadata names no root package",
                )));
            },
        },
    };
    // nodes
    let mut nodes: Vec<Pkg> = Vec::new();
    let mut k: usize = 0;
    while k < n
        invariant
            0 <= k <= n,
            n == meta.packages@.len(),
            nodes@.len() == k,
            forall|i: int|
                0 <= i < k ==> nodes@[i] == spec_node_of(#[trigger] meta.packages@[i]),
        decreases n - k,
    {
        let p = &meta.packages[k];
        let node = Pkg {
            id: p.id.clone(),
            name: p.name.clone(),
            version: p.version.clone_value(),
            source: clone_opt_string(&p.source),
            manifest_path: p.manifest_path.clone(),
            license: clone_opt_string(&p.license),
            repository: clone_opt_string(&p.repository),
            rpminfo: None,
        };
        nodes.push(node);
        k = k + 1;
    }
    // edges
    let m = meta.deps.len();
    let mut edges: Vec<Edge> = Vec::new();
    let mut k: usize = 0;
    proof {
        assert(meta.deps@.take(0) =~= Seq::<MetaDep>::empty());
    }
    while k < m
        invariant
            0 <= k <= m,
            m == meta.deps@.len(),
            n == meta.packages@.len(),
            edges@ == spec_edges_of(meta.packages@, meta.deps@.take(k as int), include_dev),
            forall|e: int|
                0 <= e < edges@.len() ==> (#[trigger] edges@[e]).from < n && edges@[e].to < n,
            forall|j: int|
                0 <= j < k && spec_dep_kept(#[trigger] meta.deps@[j], include_dev) ==> spec_find_id(
                    meta.packages@,
                    meta.deps@[j].from@,
                ) < n && spec_find_id(meta.packages@, meta.deps@[j].to@) < n,
        decreases m - k,
    {
        proof {
            assert(meta.deps@.take(k + 1).drop_last() =~= meta.deps@.take(k as int));
            assert(meta.deps@.take(k + 1).last() == meta.deps@[k as int]);
        }
        let d = &meta.deps[k];
        let kept = match d.kind {
            DepKind::Development => include_dev,
            DepKind::Normal => true,
            DepKind::Build => true,
        };
        if kept {
            let from = find_pkg_id(&meta.packages, &d.from);
            if from >= n {
                return Err(RpmError::GraphBuild(String::from_str(
                    "a dependency names an unknown dependent package",
                )));
            }
            let to = find_pkg_id(&meta.packages, &d.to);
            if to >= n {
                return Err(RpmError::GraphBuild(String::from_str(
                    "a dependency names an unknown dependency package",
                )));
            }
            let edge = Edge {
                from,
                to,
                kind: d.kind,
                optional: d.optional,
                target: clone_opt_string(&d.target),
            };
            edges.push(edge);
        }
        k = k + 1;
    }
    proof {
        assert(meta.deps@.take(m as int) =~= meta.deps@);
    }
    let g = Graph { nodes, edges, root };
    Ok(g)
}

} // verus!
