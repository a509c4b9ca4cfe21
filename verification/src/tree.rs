//! Tree rendering of an annotated dependency graph: format templates,
//! box-drawing prefixes, deduplication, truncation and cycle guards.

use vstd::prelude::*;

use crate::args::{Charset, RpmArgs};
use crate::fedora::{
    lemma_trues_bound, lemma_trues_monotone, lemma_trues_update, spec_icon,
    spec_packaging_status, spec_show_dependencies, spec_trues, Pkg,
};
use crate::graph::{Edge, Graph};
use crate::text::{push_char, spec_dec, u64_to_dec};
use crate::version::{find_char, lemma_pos_of, spec_pos_of, spec_version_text};
use crate::RpmError;

verus! {

/// One piece of a parsed format template.
pub enum FormatPart {
    /// Text printed as it stands.
    Literal(String),
    /// The package name and version.
    NameVersion,
    /// The license, or nothing when the package has none.
    License,
    /// The repository URL, or nothing when the package has none.
    Repository,
    /// The packaging-status icon.
    StatusIcon,
}

/// The mathematical value of a [`FormatPart`].
pub enum SpecPart {
    Literal(Seq<char>),
    NameVersion,
    License,
    Repository,
    StatusIcon,
}

impl View for FormatPart {
    type V = SpecPart;

    open spec fn view(&self) -> SpecPart {
        match self {
            FormatPart::Literal(t) => SpecPart::Literal(t@),
            FormatPart::NameVersion => SpecPart::NameVersion,
            FormatPart::License => SpecPart::License,
            FormatPart::Repository => SpecPart::Repository,
            FormatPart::StatusIcon => SpecPart::StatusIcon,
        }
    }
}

/// A parsed format template.
pub struct Format {
    pub parts: Vec<FormatPart>,
}

impl View for Format {
    type V = Seq<SpecPart>;

    open spec fn view(&self) -> Seq<SpecPart> {
        self.parts@.map_values(|p: FormatPart| p@)
    }
}

/// The part a recognized substitution token stands for.
pub open spec fn spec_token(c: char) -> SpecPart {
    if c == 'p' {
        SpecPart::NameVersion
    } else if c == 'l' {
        SpecPart::License
    } else if c == 'r' {
        SpecPart::Repository
    } else {
        SpecPart::StatusIcon
    }
}

/// The parse of a format template: `{p}`, `{l}`, `{r}` and `{s}` substitute
/// the package name and version, the license, the repository URL and the
/// status icon; everything else is literal text; an unknown token or an
/// unbalanced brace is an error (`None`).
pub open spec fn spec_parse_format(s: Seq<char>) -> Option<Seq<SpecPart>>
    decreases s.len(),
{
    if s.len() == 0 {
        Some(Seq::empty())
    } else if s[0] == '}' {
        None
    } else if s[0] == '{' {
        let p = spec_pos_of(s, '}');
        if !(0 <= p < s.len()) {
            None
        } else if p == 2 && (s[1] == 'p' || s[1] == 'l' || s[1] == 'r' || s[1] == 's') {
            match spec_parse_format(s.skip(p + 1)) {
                Some(rest) => Some(seq![spec_token(s[1])] + rest),
                None => None,
            }
        } else {
            None
        }
    } else {
        match spec_parse_format(s.drop_first()) {
            Some(rest) => Some(seq![SpecPart::Literal(seq![s[0]])] + rest),
            None => None,
        }
    }
}

fn parse_into(s: &str, parts: &mut Vec<FormatPart>) -> (ok: bool)
    ensures
        ok <==> spec_parse_format(s@) is Some,
        ok ==> final(parts)@.map_values(|p: FormatPart| p@) == old(parts)@.map_values(
            |p: FormatPart| p@,
        ) + spec_parse_format(s@)->0,
    decreases s@.len(),
{
    let n = s.unicode_len();
    if n == 0 {
        proof {
            assert(final(parts)@.map_values(|p: FormatPart| p@) =~= old(parts)@.map_values(
                |p: FormatPart| p@,
            ) + spec_parse_format(s@)->0);
        }
        return true;
    }
    let c = s.get_char(0);
    if c == '}' {
        return false;
    }
    if c == '{' {
        let p = find_char(s, '}');
        proof {
            lemma_pos_of(s@, '}');
        }
        if p >= n {
            return false;
        }
        if p != 2 {
            return false;
        }
        let t = s.get_char(1);
        let part: FormatPart = if t == 'p' {
            FormatPart::NameVersion
        } else if t == 'l' {
            FormatPart::License
        } else if t == 'r' {
            FormatPart::Repository
        } else if t == 's' {
            FormatPart::StatusIcon
        } else {
            return false;
        };
        let ghost before = parts@.map_values(|q: FormatPart| q@);
        parts.push(part);
        proof {
            assert(parts@.map_values(|q: FormatPart| q@) =~= before.push(spec_token(s@[1])));
        }
        let rest = s.substring_char(p + 1, n);
        proof {
            assert(rest@ =~= s@.skip(p + 1));
        }
        let ok = parse_into(rest, parts);
        proof {
            if ok {
                assert(parts@.map_values(|q: FormatPart| q@) =~= before + spec_parse_format(s@)->0);
            }
        }
        return ok;
    }
    let mut lit = String::new();
    push_char(&mut lit, c);
    proof {
        assert(lit@ =~= seq![s@[0]]);
    }
    let ghost before = parts@.map_values(|q: FormatPart| q@);
    parts.push(FormatPart::Literal(lit));
    proof {
        assert(parts@.map_values(|q: FormatPart| q@) =~= before.push(
            SpecPart::Literal(seq![s@[0]]),
        ));
    }
    let rest = s.substring_char(1, n);
    proof {
        assert(rest@ =~= s@.drop_first());
    }
    let ok = parse_into(rest, parts);
    proof {
        if ok {
            assert(parts@.map_values(|q: FormatPart| q@) =~= before + spec_parse_format(s@)->0);
        }
    }
    ok
}

/// Parses a format template. Fails, before anything is rendered, exactly
/// when the template holds an unknown substitution token or an unbalanced
/// brace.
pub fn parse_format(s: &str) -> (r: Result<Format, RpmError>)
    ensures
        (r is Ok) <==> spec_parse_format(s@) is Some,
        r is Ok ==> (r->Ok_0)@ == spec_parse_format(s@)->0,
        r is Err ==> r->Err_0 is FormatTemplate,
{
    let mut parts: Vec<FormatPart> = Vec::new();
    if parse_into(s, &mut parts) {
        proof {
            assert(Seq::<SpecPart>::empty() + spec_parse_format(s@)->0 =~= spec_parse_format(
                s@,
            )->0);
        }
        Ok(Format { parts })
    } else {
        Err(RpmError::FormatTemplate(s.to_owned()))
    }
}

/// The text one format part produces for a package.
pub open spec fn spec_part_text(part: SpecPart, p: Pkg) -> Seq<char> {
    match part {
        SpecPart::Literal(t) => t,
        SpecPart::NameVersion => p.name@ + seq![' ', 'v'] + spec_version_text(p.version@),
        SpecPart::License => match p.license {
            Some(l) => l@,
            None => Seq::empty(),
        },
        SpecPart::Repository => match p.repository {
            Some(r) => r@,
            None => Seq::empty(),
        },
        SpecPart::StatusIcon => spec_icon(spec_packaging_status(p)),
    }
}

/// The text a whole template produces for a package.
pub open spec fn spec_format_pkg(parts: Seq<SpecPart>, p: Pkg) -> Seq<char>
    decreases parts.len(),
{
    if parts.len() == 0 {
        Seq::empty()
    } else {
        spec_part_text(parts.first(), p) + spec_format_pkg(parts.drop_first(), p)
    }
}

/// One package printed through the template.
pub fn format_pkg(fmt: &Format, p: &Pkg) -> (r: String)
    ensures
        r@ == spec_format_pkg(fmt@, *p),
{
    let mut r = String::new();
    let m = fmt.parts.len();
    let mut i: usize = 0;
    proof {
        assert(fmt@.skip(0) =~= fmt@);
    }
    while i < m
        invariant
            0 <= i <= m,
            m == fmt.parts@.len(),
            fmt@.len() == m,
            spec_format_pkg(fmt@, *p) == r@ + spec_format_pkg(fmt@.skip(i as int), *p),
        decreases m - i,
    {
        proof {
            assert(fmt@.skip(i as int).first() == fmt@[i as int]);
            assert(fmt@.skip(i as int).drop_first() =~= fmt@.skip(i + 1));
            assert(fmt@[i as int] == fmt.parts@[i as int]@);
        }
        let ghost prev = r@;
        match &fmt.parts[i] {
            FormatPart::Literal(t) => {
                r.append(t.as_str());
            },
            FormatPart::NameVersion => {
                r.append(p.name.as_str());
                push_char(&mut r, ' ');
                push_char(&mut r, 'v');
                let v = p.version.to_text();
                r.append(v.as_str());
                proof {
                    assert(r@ =~= prev + (p.name@ + seq![' ', 'v'] + spec_version_text(
                        p.version@,
                    )));
                }
            },
            FormatPart::License => {
                match &p.license {
                    Some(l) => {
                        r.append(l.as_str());
                    },
                    None => {},
                }
                proof {
                    assert(r@ =~= prev + spec_part_text(fmt@[i as int], *p));
                }
            },
            FormatPart::Repository => {
                match &p.repository {
                    Some(u) => {
                        r.append(u.as_str());
                    },
                    None => {},
                }
                proof {
                    assert(r@ =~= prev + spec_part_text(fmt@[i as int], *p));
                }
            },
            FormatPart::StatusIcon => {
                let icon = p.packaging_status().icon();
                r.append(icon.as_str());
            },
        }
        proof {
            assert(r@ + spec_format_pkg(fmt@.skip(i + 1), *p) =~= prev + spec_format_pkg(
                fmt@.skip(i as int),
                *p,
            ));
        }
        i = i + 1;
    }
    proof {
        assert(fmt@.skip(m as int) =~= Seq::<SpecPart>::empty());
        assert(r@ =~= spec_format_pkg(fmt@, *p));
    }
    r
}

/// The run drawn for one ancestor level: a continuation bar while that
/// ancestor has more children to come, blank space otherwise.
pub open spec fn spec_level_run(continues: bool, utf8: bool) -> Seq<char> {
    if continues {
        if utf8 {
            seq!['│', ' ', ' ', ' ']
        } else {
            seq!['|', ' ', ' ', ' ']
        }
    } else {
        seq![' ', ' ', ' ', ' ']
    }
}

/// The branch drawn in front of the node itself: a tee while siblings
/// follow, an ell for the last child.
pub open spec fn spec_branch(continues: bool, utf8: bool) -> Seq<char> {
    if continues {
        if utf8 {
            seq!['├', '─', '─', ' ']
        } else {
            seq!['|', '-', '-', ' ']
        }
    } else {
        if utf8 {
            seq!['└', '─', '─', ' ']
        } else {
            seq!['`', '-', '-', ' ']
        }
    }
}

/// The runs for all ancestor levels.
pub open spec fn spec_prefix_runs(levels: Seq<bool>, utf8: bool) -> Seq<char>
    decreases levels.len(),
{
    if levels.len() == 0 {
        Seq::empty()
    } else {
        spec_prefix_runs(levels.drop_last(), utf8) + spec_level_run(levels.last(), utf8)
    }
}

/// The whole indentation prefix of a line: runs for the ancestors and a
/// branch for the node; the root has none.
pub open spec fn spec_prefix(levels: Seq<bool>, utf8: bool) -> Seq<char> {
    if levels.len() == 0 {
        Seq::empty()
    } else {
        spec_prefix_runs(levels.drop_last(), utf8) + spec_branch(levels.last(), utf8)
    }
}

fn push_run(r: &mut String, continues: bool, utf8: bool)
    ensures
        final(r)@ == old(r)@ + spec_level_run(continues, utf8),
{
    let ghost prev = r@;
    if continues {
        if utf8 {
            push_char(r, '│');
        } else {
            push_char(r, '|');
        }
        push_char(r, ' ');
        push_char(r, ' ');
        push_char(r, ' ');
    } else {
        push_char(r, ' ');
        push_char(r, ' ');
        push_char(r, ' ');
        push_char(r, ' ');
    }
    proof {
        assert(r@ =~= prev + spec_level_run(continues, utf8));
    }
}

/// The indentation prefix for the current levels.
fn prefix_string(levels: &Vec<bool>, utf8: bool) -> (r: String)
    ensures
        r@ == spec_prefix(levels@, utf8),
{
    let mut r = String::new();
    let n = levels.len();
    if n == 0 {
        return r;
    }
    let mut i: usize = 0;
    while i < n - 1
        invariant
            0 <= i <= n - 1,
            n == levels@.len(),
            n >= 1,
            r@ == spec_prefix_runs(levels@.take(i as int), utf8),
        decreases n - 1 - i,
    {
        proof {
            assert(levels@.take(i + 1).drop_last() =~= levels@.take(i as int));
            assert(levels@.take(i + 1).last() == levels@[i as int]);
        }
        push_run(&mut r, levels[i], utf8);
        i = i + 1;
    }
    let ghost prev = r@;
    let last = levels[n - 1];
    if last {
        if utf8 {
            push_char(&mut r, '├');
            push_char(&mut r, '─');
            push_char(&mut r, '─');
        } else {
            push_char(&mut r, '|');
            push_char(&mut r, '-');
            push_char(&mut r, '-');
        }
    } else {
        if utf8 {
            push_char(&mut r, '└');
            push_char(&mut r, '─');
            push_char(&mut r, '─');
        } else {
            push_char(&mut r, '`');
            push_char(&mut r, '-');
            push_char(&mut r, '-');
        }
    }
    push_char(&mut r, ' ');
    proof {
        assert(levels@.take(n - 1) =~= levels@.drop_last());
        assert(r@ =~= prev + spec_branch(levels@[n - 1], utf8));
        assert(r@ =~= spec_prefix(levels@, utf8));
    }
    r
}

/// The line layouts.
#[derive(Debug, Clone, Copy, PartialEq, Eq, Structural)]
pub enum Layout {
    /// The full indentation tree.
    Indent,
    /// A flat list.
    List,
    /// A flat list prefixed with each node's depth.
    Depth,
}

/// One rendered line before any marker: the indentation prefix, the depth
/// number, or nothing, followed by the formatted package.
pub open spec fn spec_line(
    p: Pkg,
    parts: Seq<SpecPart>,
    utf8: bool,
    layout: Layout,
    levels: Seq<bool>,
) -> Seq<char> {
    match layout {
        Layout::Indent => spec_prefix(levels, utf8) + spec_format_pkg(parts, p),
        Layout::List => spec_format_pkg(parts, p),
        Layout::Depth => spec_dec(levels.len()) + seq![' '] + spec_format_pkg(parts, p),
    }
}

fn render_line(g: &Graph, idx: usize, fmt: &Format, utf8: bool, layout: Layout, levels: &Vec<bool>) -> (r:
    String)
    requires
        idx < g.nodes@.len(),
    ensures
        r@ == spec_line(g.nodes@[idx as int], fmt@, utf8, layout, levels@),
{
    match layout {
        Layout::Indent => {
            let mut r = prefix_string(levels, utf8);
            let t = format_pkg(fmt, &g.nodes[idx]);
            r.append(t.as_str());
            r
        },
        Layout::List => format_pkg(fmt, &g.nodes[idx]),
        Layout::Depth => {
            let mut r = u64_to_dec(levels.len() as u64);
            push_char(&mut r, ' ');
            let t = format_pkg(fmt, &g.nodes[idx]);
            r.append(t.as_str());
            proof {
                assert(r@ =~= spec_line(g.nodes@[idx as int], fmt@, utf8, layout, levels@));
            }
            r
        },
    }
}

/// The child end of one edge, as walked.
pub open spec fn spec_child_of(e: Edge, invert: bool) -> usize {
    if invert {
        e.from
    } else {
        e.to
    }
}

/// Whether the edge leaves the node, as walked.
pub open spec fn spec_edge_leaves(e: Edge, idx: usize, invert: bool) -> bool {
    if invert {
        e.to == idx
    } else {
        e.from == idx
    }
}

/// The children of a node, in edge order: dependencies, or dependents when
/// the direction is inverted.
pub open spec fn spec_children(edges: Seq<Edge>, idx: usize, invert: bool) -> Seq<usize>
    decreases edges.len(),
{
    if edges.len() == 0 {
        Seq::empty()
    } else {
        spec_children(edges.drop_last(), idx, invert) + (if spec_edge_leaves(
            edges.last(),
            idx,
            invert,
        ) {
            seq![spec_child_of(edges.last(), invert)]
        } else {
            Seq::empty()
        })
    }
}

/// The children of a node, in edge order.
pub fn children_of(g: &Graph, idx: usize, invert: bool) -> (r: Vec<usize>)
    requires
        g.wf(),
    ensures
        r@ == spec_children(g.edges@, idx, invert),
        forall|k: int| 0 <= k < r@.len() ==> (#[trigger] r@[k]) < g.nodes@.len(),
{
    let m = g.edges.len();
    let mut r: Vec<usize> = Vec::new();
    let mut k: usize = 0;
    proof {
        assert(g.edges@.take(0) =~= Seq::<Edge>::empty());
    }
    while k < m
        invariant
            0 <= k <= m,
            m == g.edges@.len(),
            g.wf(),
            r@ == spec_children(g.edges@.take(k as int), idx, invert),
            forall|j: int| 0 <= j < r@.len() ==> (#[trigger] r@[j]) < g.nodes@.len(),
        decreases m - k,
    {
        proof {
            assert(g.edges@.take(k + 1).drop_last() =~= g.edges@.take(k as int));
            assert(g.edges@.take(k + 1).last() == g.edges@[k as int]);
        }
        let e = &g.edges[k];
        if invert {
            if e.to == idx {
                r.push(e.from);
            }
        } else {
            if e.from == idx {
                r.push(e.to);
            }
        }
        k = k + 1;
    }
    proof {
        assert(g.edges@.take(m as int) =~= g.edges@);
    }
    r
}

/// The marker appended when a node's subtree was already expanded above.
pub open spec fn spec_star_marker() -> Seq<char> {
    seq![' ', '(', '*', ')']
}

/// The marker appended when the walk meets a node already on the current
/// ancestor path.
pub open spec fn spec_cycle_marker() -> Seq<char> {
    seq![' ', '(', 'c', 'y', 'c', 'l', 'e', ')']
}

/// The texts of a line list.
pub open spec fn spec_texts(v: Seq<String>) -> Seq<Seq<char>> {
    v.map_values(|s: String| s@)
}

/// The pointwise union of two visited sets, on the length of the first.
pub open spec fn spec_or(a: Seq<bool>, b: Seq<bool>) -> Seq<bool> {
    Seq::new(a.len(), |i: int| a[i] || (i < b.len() && b[i]))
}

/// The walk under one node: the lines it prints and the visited set it
/// leaves behind — the node's own line, its markers and gate, and the
/// subtrees of its children in edge order.
pub open spec fn spec_render_node(
    g: Graph,
    idx: usize,
    parts: Seq<SpecPart>,
    utf8: bool,
    layout: Layout,
    all_mode: bool,
    invert: bool,
    visited: Seq<bool>,
    onpath: Seq<bool>,
    levels: Seq<bool>,
) -> (Seq<Seq<char>>, Seq<bool>)
    decreases 2 * g.nodes@.len() - spec_trues(visited) - spec_trues(onpath), 0int
    via spec_render_node_dec
{
    if !(idx < g.nodes@.len()) || visited.len() != g.nodes@.len() || onpath.len()
        != g.nodes@.len() {
        (Seq::<Seq<char>>::empty(), visited)
    } else {
        let node = g.nodes@[idx as int];
        let line = spec_line(node, parts, utf8, layout, levels);
        if all_mode && onpath[idx as int] {
            (seq![line + spec_cycle_marker()], visited)
        } else if !all_mode && visited[idx as int] {
            (seq![line + spec_star_marker()], visited)
        } else {
            let v1 = if all_mode {
                visited
            } else {
                visited.update(idx as int, true)
            };
            if !all_mode && !spec_show_dependencies(node) {
                (seq![line], v1)
            } else {
                let p1 = onpath.update(idx as int, true);
                let walked = spec_render_children(
                    g,
                    spec_children(g.edges@, idx, invert),
                    0,
                    parts,
                    utf8,
                    layout,
                    all_mode,
                    invert,
                    v1,
                    p1,
                    levels,
                );
                (seq![line] + walked.0, walked.1)
            }
        }
    }
}

#[via_fn]
proof fn spec_render_node_dec(
    g: Graph,
    idx: usize,
    parts: Seq<SpecPart>,
    utf8: bool,
    layout: Layout,
    all_mode: bool,
    invert: bool,
    visited: Seq<bool>,
    onpath: Seq<bool>,
    levels: Seq<bool>,
) {
    lemma_trues_bound(visited);
    lemma_trues_bound(onpath);
    if idx < g.nodes@.len() && visited.len() == g.nodes@.len() && onpath.len()
        == g.nodes@.len() {
        if !(all_mode && onpath[idx as int]) && !(!all_mode && visited[idx as int]) {
            let p1 = onpath.update(idx as int, true);
            if all_mode {
                lemma_trues_update(onpath, idx as int);
                lemma_trues_bound(p1);
            } else {
                let v1 = visited.update(idx as int, true);
                lemma_trues_update(visited, idx as int);
                lemma_trues_bound(v1);
                assert(forall|i: int| 0 <= i < onpath.len() && onpath[i] ==> p1[i]);
                lemma_trues_monotone(onpath, p1);
                lemma_trues_bound(p1);
            }
        }
    }
}

/// The walk over the children from position `ci` on: each child sees the
/// visited set its earlier siblings left, and the prefix level for a child
/// records whether siblings follow it.
pub open spec fn spec_render_children(
    g: Graph,
    children: Seq<usize>,
    ci: int,
    parts: Seq<SpecPart>,
    utf8: bool,
    layout: Layout,
    all_mode: bool,
    invert: bool,
    visited: Seq<bool>,
    onpath: Seq<bool>,
    levels: Seq<bool>,
) -> (Seq<Seq<char>>, Seq<bool>)
    decreases
        2 * g.nodes@.len() - spec_trues(visited) - spec_trues(onpath),
        children.len() - ci,
    via spec_render_children_dec
{
    if ci < 0 || ci >= children.len() || visited.len() != g.nodes@.len() || onpath.len()
        != g.nodes@.len() {
        (Seq::<Seq<char>>::empty(), visited)
    } else {
        let walked = spec_render_node(
            g,
            children[ci],
            parts,
            utf8,
            layout,
            all_mode,
            invert,
            visited,
            onpath,
            levels.push(ci + 1 < children.len()),
        );
        let rest = spec_render_children(
            g,
            children,
            ci + 1,
            parts,
            utf8,
            layout,
            all_mode,
            invert,
            spec_or(visited, walked.1),
            onpath,
            levels,
        );
        (walked.0 + rest.0, rest.1)
    }
}

#[via_fn]
proof fn spec_render_children_dec(
    g: Graph,
    children: Seq<usize>,
    ci: int,
    parts: Seq<SpecPart>,
    utf8: bool,
    layout: Layout,
    all_mode: bool,
    invert: bool,
    visited: Seq<bool>,
    onpath: Seq<bool>,
    levels: Seq<bool>,
) {
    lemma_trues_bound(visited);
    lemma_trues_bound(onpath);
    if 0 <= ci < children.len() {
        assert forall|b: Seq<bool>|
            spec_trues(visited) <= #[trigger] spec_trues(spec_or(visited, b)) && spec_trues(
                spec_or(visited, b),
            ) <= visited.len() by {
            assert(forall|i: int|
                0 <= i < visited.len() && visited[i] ==> spec_or(visited, b)[i]);
            lemma_trues_monotone(visited, spec_or(visited, b));
            lemma_trues_bound(spec_or(visited, b));
        }
    }
}

/// Renders the subtree under one node. The node's own line always comes
/// first. In truncating mode a node already expanded once prints only the
/// marked line; a node whose packaging is already satisfied prints only its
/// line. In all mode a node already on the ancestor path prints only the
/// cycle-marked line, so the walk always terminates.
#[verifier::rlimit(100)]
pub fn render_node(
    g: &Graph,
    idx: usize,
    fmt: &Format,
    utf8: bool,
    layout: Layout,
    all_mode: bool,
    invert: bool,
    visited: &mut Vec<bool>,
    onpath: &mut Vec<bool>,
    levels: &mut Vec<bool>,
    out: &mut Vec<String>,
)
    requires
        g.wf(),
        idx < g.nodes@.len(),
        old(visited)@.len() == g.nodes@.len(),
        old(onpath)@.len() == g.nodes@.len(),
        !all_mode ==> forall|i: int|
            0 <= i < g.nodes@.len() && (#[trigger] old(onpath)@[i]) ==> old(visited)@[i],
    ensures
        final(visited)@.len() == g.nodes@.len(),
        final(onpath)@ == old(onpath)@,
        final(levels)@ == old(levels)@,
        forall|i: int|
            0 <= i < g.nodes@.len() && (#[trigger] old(visited)@[i]) ==> final(visited)@[i],
        final(out)@.len() > old(out)@.len(),
        final(out)@.take(old(out)@.len() as int) == old(out)@,
        (all_mode && old(onpath)@[idx as int]) ==> (final(out)@.len() == old(out)@.len() + 1
            && final(out)@.last()@ == spec_line(
            g.nodes@[idx as int],
            fmt@,
            utf8,
            layout,
            old(levels)@,
        ) + spec_cycle_marker()),
        (!all_mode && old(visited)@[idx as int]) ==> (final(out)@.len() == old(out)@.len() + 1
            && final(out)@.last()@ == spec_line(
            g.nodes@[idx as int],
            fmt@,
            utf8,
            layout,
            old(levels)@,
        ) + spec_star_marker()),
        (!(all_mode && old(onpath)@[idx as int]) && !(!all_mode && old(visited)@[idx as int]))
            ==> final(out)@[old(out)@.len() as int]@ == spec_line(
            g.nodes@[idx as int],
            fmt@,
            utf8,
            layout,
            old(levels)@,
        ),
        (!all_mode && !old(visited)@[idx as int] && !spec_show_dependencies(
            g.nodes@[idx as int],
        )) ==> final(out)@.len() == old(out)@.len() + 1,
        ({
            let walk = spec_render_node(
                *g,
                idx,
                fmt@,
                utf8,
                layout,
                all_mode,
                invert,
                old(visited)@,
                old(onpath)@,
                old(levels)@,
            );
            &&& spec_texts(final(out)@) == spec_texts(old(out)@) + walk.0
            &&& final(visited)@ == walk.1
        }),
    decreases
            2 * g.nodes@.len() - spec_trues(visited@) - spec_trues(onpath@),
{
    let n = g.nodes.len();
    let ghost walk_total = spec_render_node(
        *g,
        idx,
        fmt@,
        utf8,
        layout,
        all_mode,
        invert,
        visited@,
        onpath@,
        levels@,
    );
    proof {
        lemma_trues_bound(visited@);
        lemma_trues_bound(onpath@);
    }
    let line = render_line(g, idx, fmt, utf8, layout, levels);
    if all_mode && onpath[idx] {
        let mut l = line;
        l.append(" (cycle)");
        proof {
            reveal_strlit(" (cycle)");
            assert(" (cycle)"@ =~= spec_cycle_marker());
        }
        out.push(l);
        proof {
            assert(out@.take(out@.len() - 1) =~= old(out)@);
            assert(walk_total.0 =~= seq![l@]);
            assert(spec_texts(out@) =~= spec_texts(old(out)@) + walk_total.0);
        }
        return ;
    }
    if !all_mode && visited[idx] {
        let mut l = line;
        l.append(" (*)");
        proof {
            reveal_strlit(" (*)");
            assert(" (*)"@ =~= spec_star_marker());
        }
        out.push(l);
        proof {
            assert(out@.take(out@.len() - 1) =~= old(out)@);
            assert(walk_total.0 =~= seq![l@]);
            assert(spec_texts(out@) =~= spec_texts(old(out)@) + walk_total.0);
        }
        return ;
    }
    out.push(line);
    proof {
        assert(out@.take(out@.len() - 1) =~= old(out)@);
    }
    if !all_mode {
        proof {
            lemma_trues_update(visited@, idx as int);
        }
        visited[idx] = true;
        if !g.nodes[idx].show_dependencies() {
            proof {
                assert(walk_total.0 =~= seq![spec_line(
                    g.nodes@[idx as int],
                    fmt@,
                    utf8,
                    layout,
                    old(levels)@,
                )]);
                assert(spec_texts(out@) =~= spec_texts(old(out)@) + walk_total.0);
                assert(visited@ =~= old(visited)@.update(idx as int, true));
            }
            return ;
        }
    }
    proof {
        assert(!onpath@[idx as int]);
        lemma_trues_update(onpath@, idx as int);
    }
    onpath[idx] = true;
    let ghost visited1 = visited@;
    let ghost onpath1 = onpath@;
    let ghost out1 = out@;
    let children = children_of(g, idx, invert);
    proof {
        assert(visited1 =~= (if all_mode {
            old(visited)@
        } else {
            old(visited)@.update(idx as int, true)
        }));
        assert(onpath1 =~= old(onpath)@.update(idx as int, true));
        assert(walk_total.0 == seq![spec_line(
            g.nodes@[idx as int],
            fmt@,
            utf8,
            layout,
            old(levels)@,
        )] + spec_render_children(
            *g,
            children@,
            0,
            fmt@,
            utf8,
            layout,
            all_mode,
            invert,
            visited1,
            onpath1,
            old(levels)@,
        ).0);
        assert(walk_total.1 == spec_render_children(
            *g,
            children@,
            0,
            fmt@,
            utf8,
            layout,
            all_mode,
            invert,
            visited1,
            onpath1,
            old(levels)@,
        ).1);
        assert(spec_texts(out1.skip(old(out)@.len() as int)) =~= seq![spec_line(
            g.nodes@[idx as int],
            fmt@,
            utf8,
            layout,
            old(levels)@,
        )]);
    }
    let mut ci: usize = 0;
    while ci < children.len()
        invariant
            g.wf(),
            n == g.nodes@.len(),
            idx < n,
            visited@.len() == n,
            onpath@.len() == n,
            onpath@ == onpath1,
            onpath1 == old(onpath)@.update(idx as int, true),
            onpath1.len() == n,
            visited1.len() == n,
            spec_trues(onpath1) == spec_trues(old(onpath)@) + 1,
            spec_trues(visited1) >= spec_trues(old(visited)@),
            forall|i: int| 0 <= i < n && (#[trigger] visited1[i]) ==> visited@[i],
            forall|i: int| 0 <= i < n && (#[trigger] old(visited)@[i]) ==> visited1[i],
            !all_mode ==> forall|i: int|
                0 <= i < n && (#[trigger] onpath@[i]) ==> visited@[i],
            forall|k: int| 0 <= k < children@.len() ==> (#[trigger] children@[k]) < n,
            levels@ == old(levels)@,
            out@.len() >= out1.len(),
            out@.take(out1.len() as int) == out1,
            out1.len() == old(out)@.len() + 1,
            out1.take(old(out)@.len() as int) == old(out)@,
            walk_total.0 == spec_texts(out@.skip(old(out)@.len() as int))
                + spec_render_children(
                *g,
                children@,
                ci as int,
                fmt@,
                utf8,
                layout,
                all_mode,
                invert,
                visited@,
                onpath1,
                old(levels)@,
            ).0,
            walk_total.1 == spec_render_children(
                *g,
                children@,
                ci as int,
                fmt@,
                utf8,
                layout,
                all_mode,
                invert,
                visited@,
                onpath1,
                old(levels)@,
            ).1,
        decreases children@.len() - ci,
    {
        proof {
            lemma_trues_bound(visited@);
            lemma_trues_bound(onpath@);
            lemma_trues_monotone(visited1, visited@);
            assert(spec_trues(visited@) >= spec_trues(old(visited)@));
            assert(spec_trues(onpath@) == spec_trues(old(onpath)@) + 1);
        }
        let ghost v_before = visited@;
        let ghost o_before = out@;
        let c = children[ci];
        levels.push(ci + 1 < children.len());
        proof {
            assert(levels@ =~= old(levels)@.push(ci + 1 < children@.len()));
        }
        render_node(g, c, fmt, utf8, layout, all_mode, invert, visited, onpath, levels, out);
        levels.pop();
        proof {
            assert(levels@ =~= old(levels)@);
            assert(out@.take(out1.len() as int) =~= out1);
            assert(out@.take(old(out)@.len() as int) =~= old(out)@);
            let w = spec_render_node(
                *g,
                c,
                fmt@,
                utf8,
                layout,
                all_mode,
                invert,
                v_before,
                onpath1,
                old(levels)@.push(ci + 1 < children@.len()),
            );
            assert(spec_texts(out@) == spec_texts(o_before) + w.0);
            assert(visited@ == w.1);
            assert(spec_or(v_before, w.1) =~= visited@);
            assert(out@.take(o_before.len() as int) == o_before);
            assert(out@.skip(old(out)@.len() as int) =~= o_before.skip(old(out)@.len() as int)
                + out@.skip(o_before.len() as int));
            assert(spec_texts(out@).len() == out@.len());
            assert(spec_texts(o_before).len() == o_before.len());
            assert(out@.len() == o_before.len() + w.0.len());
            assert forall|i: int|
                0 <= i < w.0.len() implies (#[trigger] w.0[i]) == out@[o_before.len() + i]@ by {
                assert(spec_texts(out@)[o_before.len() + i] == out@[o_before.len() + i]@);
                assert((spec_texts(o_before) + w.0)[o_before.len() + i] == w.0[i]);
            }
            assert(spec_texts(out@.skip(o_before.len() as int)) =~= w.0);
            assert(spec_texts(
                o_before.skip(old(out)@.len() as int) + out@.skip(o_before.len() as int),
            ) =~= spec_texts(o_before.skip(old(out)@.len() as int)) + spec_texts(
                out@.skip(o_before.len() as int),
            ));
            assert(spec_texts(out@.skip(old(out)@.len() as int)) =~= spec_texts(
                o_before.skip(old(out)@.len() as int),
            ) + w.0);
            assert(walk_total.0 =~= spec_texts(out@.skip(old(out)@.len() as int))
                + spec_render_children(
                *g,
                children@,
                ci + 1,
                fmt@,
                utf8,
                layout,
                all_mode,
                invert,
                visited@,
                onpath1,
                old(levels)@,
            ).0);
        }
        ci = ci + 1;
    }
    onpath[idx] = false;
    proof {
        assert(onpath@ =~= old(onpath)@);
        assert(out@.take(old(out)@.len() as int) =~= old(out)@);
        assert(out@[old(out)@.len() as int] == out1[old(out)@.len() as int]);
        assert(spec_render_children(
            *g,
            children@,
            children@.len() as int,
            fmt@,
            utf8,
            layout,
            all_mode,
            invert,
            visited@,
            onpath1,
            old(levels)@,
        ).0 =~= Seq::<Seq<char>>::empty());
        assert(walk_total.0 =~= spec_texts(out@.skip(old(out)@.len() as int)));
        assert(spec_texts(out@) =~= spec_texts(old(out)@) + walk_total.0);
    }
}

/// Whether the graph holds the node's name at more than one distinct
/// version.
pub open spec fn spec_is_dup(nodes: Seq<Pkg>, i: int) -> bool {
    exists|j: int|
        0 <= j < nodes.len() && j != i && (#[trigger] nodes[j]).name@ == nodes[i].name@
            && nodes[j].version@ != nodes[i].version@
}

/// The duplicate listing from position `i` on: every node whose name
/// resolves to more than one distinct version, in node order.
pub open spec fn spec_dup_roots(nodes: Seq<Pkg>, i: int) -> Seq<usize>
    decreases nodes.len() - i,
{
    if i < 0 || i >= nodes.len() {
        Seq::<usize>::empty()
    } else {
        (if spec_is_dup(nodes, i) {
            seq![i as usize]
        } else {
            Seq::<usize>::empty()
        }) + spec_dup_roots(nodes, i + 1)
    }
}

/// The nodes whose names resolve to more than one distinct version, in node
/// order.
pub fn duplicate_roots(g: &Graph) -> (r: Vec<usize>)
    ensures
        r@ == spec_dup_roots(g.nodes@, 0),
        forall|k: int| 0 <= k < r@.len() ==> (#[trigger] r@[k]) < g.nodes@.len(),
{
    let n = g.nodes.len();
    let mut r: Vec<usize> = Vec::new();
    let mut i: usize = 0;
    proof {
        assert(r@ + spec_dup_roots(g.nodes@, 0) =~= spec_dup_roots(g.nodes@, 0));
    }
    while i < n
        invariant
            0 <= i <= n,
            n == g.nodes@.len(),
            forall|k: int| 0 <= k < r@.len() ==> (#[trigger] r@[k]) < n,
            spec_dup_roots(g.nodes@, 0) == r@ + spec_dup_roots(g.nodes@, i as int),
        decreases n - i,
    {
        let mut dup = false;
        let mut j: usize = 0;
        while j < n
            invariant
                0 <= j <= n,
                0 <= i < n,
                n == g.nodes@.len(),
                dup ==> spec_is_dup(g.nodes@, i as int),
                !dup ==> forall|m: int|
                    0 <= m < j ==> !(m != i && (#[trigger] g.nodes@[m]).name@ == g.nodes@[
                        i as int
                    ].name@ && g.nodes@[m].version@ != g.nodes@[i as int].version@),
            decreases n - j,
        {
            if j != i && g.nodes[j].name.eq(&g.nodes[i].name) && !g.nodes[j].version.eq_value(
                &g.nodes[i].version,
            ) {
                dup = true;
            }
            j = j + 1;
        }
        let ghost r_before = r@;
        if dup {
            r.push(i);
        }
        proof {
            if !dup {
                assert(!spec_is_dup(g.nodes@, i as int));
            }
            assert(spec_dup_roots(g.nodes@, i as int) == (if spec_is_dup(g.nodes@, i as int) {
                seq![i as usize]
            } else {
                Seq::<usize>::empty()
            }) + spec_dup_roots(g.nodes@, i + 1));
            assert(spec_dup_roots(g.nodes@, 0) =~= r@ + spec_dup_roots(g.nodes@, i + 1));
        }
        i = i + 1;
    }
    proof {
        assert(spec_dup_roots(g.nodes@, n as int) =~= Seq::<usize>::empty());
        assert(r@ =~= spec_dup_roots(g.nodes@, 0));
    }
    r
}

/// The layout the options select.
pub open spec fn spec_layout(a: RpmArgs) -> Layout {
    if a.no_indent {
        Layout::List
    } else if a.prefix_depth {
        Layout::Depth
    } else {
        Layout::Indent
    }
}

/// The walk over a list of root nodes in order, sharing one visited set;
/// each root starts a fresh tree, so its walk begins with no ancestor
/// levels.
pub open spec fn spec_render_roots(
    g: Graph,
    roots: Seq<usize>,
    ri: int,
    parts: Seq<SpecPart>,
    utf8: bool,
    layout: Layout,
    all_mode: bool,
    invert: bool,
    visited: Seq<bool>,
    onpath: Seq<bool>,
) -> Seq<Seq<char>>
    decreases roots.len() - ri,
{
    if ri < 0 || ri >= roots.len() {
        Seq::<Seq<char>>::empty()
    } else {
        let walked = spec_render_node(
            g,
            roots[ri],
            parts,
            utf8,
            layout,
            all_mode,
            invert,
            visited,
            onpath,
            Seq::empty(),
        );
        walked.0 + spec_render_roots(
            g,
            roots,
            ri + 1,
            parts,
            utf8,
            layout,
            all_mode,
            invert,
            spec_or(visited, walked.1),
            onpath,
        )
    }
}

/// Everything the renderer prints for the given options: the walk from the
/// root, or, in duplicates mode, from every duplicate in node order.
pub open spec fn spec_render_output(a: RpmArgs, g: Graph, parts: Seq<SpecPart>) -> Seq<Seq<char>> {
    let utf8 = a.charset is Utf8;
    let layout = spec_layout(a);
    let invert = a.invert || a.duplicates;
    let blank = Seq::new(g.nodes@.len(), |i: int| false);
    if a.duplicates {
        spec_render_roots(
            g,
            spec_dup_roots(g.nodes@, 0),
            0,
            parts,
            utf8,
            layout,
            a.all,
            invert,
            blank,
            blank,
        )
    } else {
        spec_render_node(g, g.root, parts, utf8, layout, a.all, invert, blank, blank, Seq::empty()).0
    }
}

/// Renders the annotated graph: from the root in normal or inverted
/// direction, or, in duplicates mode, an inverted tree from every node whose
/// name resolves to more than one distinct version. Fails, before any line
/// is produced, exactly when the format template does not parse; on success
/// the output is exactly the walk of [`spec_render_output`].
pub fn render(args: &RpmArgs, g: &Graph) -> (r: Result<Vec<String>, RpmError>)
    requires
        g.wf(),
    ensures
        (r is Ok) <==> spec_parse_format(args.format@) is Some,
        r is Err ==> r->Err_0 is FormatTemplate,
        r is Ok ==> spec_texts((r->Ok_0)@) == spec_render_output(
            *args,
            *g,
            spec_parse_format(args.format@)->0,
        ),
        (r is Ok && !args.duplicates) ==> (r->Ok_0)@.len() >= 1,
{
    let fmt = parse_format(args.format.as_str())?;
    let utf8 = match args.charset {
        Charset::Utf8 => true,
        Charset::Ascii => false,
    };
    let layout = if args.no_indent {
        Layout::List
    } else if args.prefix_depth {
        Layout::Depth
    } else {
        Layout::Indent
    };
    let invert = args.invert || args.duplicates;
    let n = g.nodes.len();
    let mut visited: Vec<bool> = Vec::new();
    let mut onpath: Vec<bool> = Vec::new();
    let mut i: usize = 0;
    while i < n
        invariant
            0 <= i <= n,
            visited@.len() == i,
            onpath@.len() == i,
            forall|m: int| 0 <= m < i ==> !(#[trigger] visited@[m]),
            forall|m: int| 0 <= m < i ==> !(#[trigger] onpath@[m]),
        decreases n - i,
    {
        visited.push(false);
        onpath.push(false);
        i = i + 1;
    }
    let ghost blank = Seq::new(g.nodes@.len(), |m: int| false);
    proof {
        assert(visited@ =~= blank);
        assert(onpath@ =~= blank);
        assert(utf8 == (args.charset is Utf8));
        assert(layout == spec_layout(*args));
    }
    let mut levels: Vec<bool> = Vec::new();
    let mut out: Vec<String> = Vec::new();
    if args.duplicates {
        let roots = duplicate_roots(g);
        let mut k: usize = 0;
        proof {
            assert(spec_texts(out@) =~= Seq::<Seq<char>>::empty());
        }
        while k < roots.len()
            invariant
                n == g.nodes@.len(),
                g.wf(),
                visited@.len() == n,
                onpath@.len() == n,
                onpath@ == blank,
                blank.len() == n,
                levels@.len() == 0,
                fmt@ == spec_parse_format(args.format@)->0,
                roots@ == spec_dup_roots(g.nodes@, 0),
                forall|k2: int| 0 <= k2 < roots@.len() ==> (#[trigger] roots@[k2]) < n,
                !args.all ==> forall|m: int|
                    0 <= m < n && (#[trigger] onpath@[m]) ==> visited@[m],
                forall|m: int| 0 <= m < n ==> !(#[trigger] onpath@[m]),
                spec_render_roots(
                    *g,
                    roots@,
                    0,
                    fmt@,
                    utf8,
                    layout,
                    args.all,
                    invert,
                    blank,
                    blank,
                ) == spec_texts(out@) + spec_render_roots(
                    *g,
                    roots@,
                    k as int,
                    fmt@,
                    utf8,
                    layout,
                    args.all,
                    invert,
                    visited@,
                    blank,
                ),
            decreases roots@.len() - k,
        {
            let ghost v_before = visited@;
            let ghost o_before = out@;
            proof {
                assert(levels@ =~= Seq::<bool>::empty());
            }
            render_node(
                g,
                roots[k],
                &fmt,
                utf8,
                layout,
                args.all,
                invert,
                &mut visited,
                &mut onpath,
                &mut levels,
                &mut out,
            );
            proof {
                let w = spec_render_node(
                    *g,
                    roots@[k as int],
                    fmt@,
                    utf8,
                    layout,
                    args.all,
                    invert,
                    v_before,
                    blank,
                    Seq::empty(),
                );
                assert(spec_texts(out@) == spec_texts(o_before) + w.0);
                assert(visited@ == w.1);
                assert(spec_or(v_before, w.1) =~= visited@);
                assert(spec_texts(out@) =~= (spec_texts(o_before) + w.0));
                assert(spec_render_roots(
                    *g,
                    roots@,
                    0,
                    fmt@,
                    utf8,
                    layout,
                    args.all,
                    invert,
                    blank,
                    blank,
                ) =~= spec_texts(out@) + spec_render_roots(
                    *g,
                    roots@,
                    k + 1,
                    fmt@,
                    utf8,
                    layout,
                    args.all,
                    invert,
                    visited@,
                    blank,
                ));
            }
            k = k + 1;
        }
        proof {
            assert(spec_render_roots(
                *g,
                roots@,
                roots@.len() as int,
                fmt@,
                utf8,
                layout,
                args.all,
                invert,
                visited@,
                blank,
            ) =~= Seq::<Seq<char>>::empty());
            assert(spec_texts(out@) =~= spec_render_output(
                *args,
                *g,
                spec_parse_format(args.format@)->0,
            ));
        }
        Ok(out)
    } else {
        render_node(
            g,
            g.root,
            &fmt,
            utf8,
            layout,
            args.all,
            invert,
            &mut visited,
            &mut onpath,
            &mut levels,
            &mut out,
        );
        proof {
            assert(spec_texts(out@) =~= spec_render_output(
                *args,
                *g,
                spec_parse_format(args.format@)->0,
            ));
        }
        Ok(out)
    }
}

} // verus!
