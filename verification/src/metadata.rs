//! The resolved project metadata the graph is built from, as plain values,
//! and the argument list handed to the external build tool to obtain it.

use vstd::prelude::*;

use crate::args::RpmArgs;
use crate::graph::DepKind;
use crate::version::{find_char, lemma_pos_of, spec_pos_of, Version};

verus! {

/// One resolved package as the external build tool reports it.
pub struct MetaPackage {
    /// The identifier, unique within one resolved graph.
    pub id: String,
    pub name: String,
    pub version: Version,
    /// The upstream source descriptor, when the package is not a local path.
    pub source: Option<String>,
    pub manifest_path: String,
    pub license: Option<String>,
    pub repository: Option<String>,
}

/// One resolved dependency relationship, named by package identifiers.
pub struct MetaDep {
    pub from: String,
    pub to: String,
    pub kind: DepKind,
    pub optional: bool,
    /// The target-platform filter the relationship carries, when any.
    pub target: Option<String>,
}

/// A whole resolved dependency set.
pub struct MetaInput {
    pub packages: Vec<MetaPackage>,
    pub deps: Vec<MetaDep>,
    /// The identifier of the root package, when the project has one.
    pub root: Option<String>,
}


/// A repeated argument.
pub open spec fn spec_repeat(s: Seq<char>, n: nat) -> Seq<Seq<char>>
    decreases n,
{
    if n == 0 {
        Seq::empty()
    } else {
        spec_repeat(s, (n - 1) as nat).push(s)
    }
}

/// The passthrough pairs for the unstable flags.
pub open spec fn spec_z_flags(flags: Seq<Seq<char>>) -> Seq<Seq<char>>
    decreases flags.len(),
{
    if flags.len() == 0 {
        Seq::empty()
    } else {
        spec_z_flags(flags.drop_last()) + seq!["-Z"@, flags.last()]
    }
}

/// The selection arguments handed to the external build tool: the metadata
/// request itself, feature and platform selection, the manifest path and
/// the verbosity.
pub open spec fn spec_head_args(a: RpmArgs, host: Seq<char>) -> Seq<Seq<char>> {
    seq!["metadata"@, "--format-version"@, "1"@] + (if a.quiet {
        seq!["-q"@]
    } else {
        Seq::empty()
    }) + (match a.features {
        Some(f) => seq!["--features"@, f@],
        None => Seq::empty(),
    }) + (if a.all_features {
        seq!["--all-features"@]
    } else {
        Seq::empty()
    }) + (if a.no_default_features {
        seq!["--no-default-features"@]
    } else {
        Seq::empty()
    }) + (if !a.all_targets {
        seq![
            "--filter-platform"@,
            match a.target {
                Some(t) => t@,
                None => host,
            },
        ]
    } else {
        Seq::empty()
    }) + (match a.manifest_path {
        Some(p) => seq!["--manifest-path"@, p@],
        None => Seq::empty(),
    }) + spec_repeat("-v"@, a.verbose as nat)
}

/// The passthrough arguments handed to the external build tool: coloring,
/// the lock-file discipline, offline mode and the unstable flags.
pub open spec fn spec_tail_args(a: RpmArgs) -> Seq<Seq<char>> {
    (match a.color {
        Some(c) => seq!["--color"@, c@],
        None => Seq::empty(),
    }) + (if a.frozen {
        seq!["--frozen"@]
    } else {
        Seq::empty()
    }) + (if a.locked {
        seq!["--locked"@]
    } else {
        Seq::empty()
    }) + (if a.offline {
        seq!["--offline"@]
    } else {
        Seq::empty()
    }) + spec_z_flags(a.unstable_flags@.map_values(|s: String| s@))
}

/// The whole argument list handed to the external build tool for resolving
/// the project's metadata; `host` is the host target triple, used to filter
/// for one platform unless all targets are selected.
pub open spec fn spec_metadata_args(a: RpmArgs, host: Seq<char>) -> Seq<Seq<char>> {
    spec_head_args(a, host) + spec_tail_args(a)
}

/// The arguments so far, as mathematical values.
pub open spec fn spec_arg_views(v: Seq<String>) -> Seq<Seq<char>> {
    v.map_values(|s: String| s@)
}

fn push_arg(v: &mut Vec<String>, s: &str)
    ensures
        spec_arg_views(final(v)@) == spec_arg_views(old(v)@).push(s@),
{
    v.push(s.to_owned());
    proof {
        assert(spec_arg_views(v@) =~= spec_arg_views(old(v)@).push(s@));
    }
}

/// The argument list handed to the external build tool for resolving the
/// project's metadata.
#[verifier::rlimit(100)]
#[verifier::spinoff_prover]
fn push_tail_args(v: &mut Vec<String>, a: &RpmArgs)
    ensures
        spec_arg_views(final(v)@) == spec_arg_views(old(v)@) + spec_tail_args(*a),
{
    let ghost mut expect: Seq<Seq<char>> = spec_arg_views(v@);
    match &a.color {
        Some(c) => {
            push_arg(v, "--color");
            push_arg(v, c.as_str());
        },
        None => {},
    }
    proof {
        expect = expect + (match &a.color {
            Some(c) => seq!["--color"@, c@],
            None => Seq::<Seq<char>>::empty(),
        });
        assert(spec_arg_views(v@) =~= expect);
    }
    if a.frozen {
        push_arg(v, "--frozen");
    }
    proof {
        expect = expect + (if a.frozen {
            seq!["--frozen"@]
        } else {
            Seq::<Seq<char>>::empty()
        });
        assert(spec_arg_views(v@) =~= expect);
    }
    if a.locked {
        push_arg(v, "--locked");
    }
    proof {
        expect = expect + (if a.locked {
            seq!["--locked"@]
        } else {
            Seq::<Seq<char>>::empty()
        });
        assert(spec_arg_views(v@) =~= expect);
    }
    if a.offline {
        push_arg(v, "--offline");
    }
    proof {
        expect = expect + (if a.offline {
            seq!["--offline"@]
        } else {
            Seq::<Seq<char>>::empty()
        });
        assert(spec_arg_views(v@) =~= expect);
    }
    let ghost before_flags = expect;
    let ghost flag_views = a.unstable_flags@.map_values(|s: String| s@);
    let m = a.unstable_flags.len();
    let mut j: usize = 0;
    proof {
        assert(flag_views.take(0) =~= Seq::<Seq<char>>::empty());
    }
    while j < m
        invariant
            0 <= j <= m,
            m == a.unstable_flags@.len(),
            flag_views == a.unstable_flags@.map_values(|s: String| s@),
            flag_views.len() == m,
            spec_arg_views(v@) == before_flags + spec_z_flags(flag_views.take(j as int)),
        decreases m - j,
    {
        proof {
            assert(flag_views.take(j + 1).drop_last() =~= flag_views.take(j as int));
            assert(flag_views.take(j + 1).last() == flag_views[j as int]);
        }
        push_arg(v, "-Z");
        push_arg(v, a.unstable_flags[j].as_str());
        proof {
            assert(spec_arg_views(v@) =~= before_flags + spec_z_flags(flag_views.take(j + 1)));
        }
        j = j + 1;
    }
    proof {
        assert(flag_views.take(m as int) =~= flag_views);
        assert(spec_arg_views(v@) =~= spec_arg_views(old(v)@) + spec_tail_args(*a));
    }
}

/// The argument list handed to the external build tool for resolving the
/// project's metadata.
#[verifier::rlimit(100)]
#[verifier::spinoff_prover]
pub fn metadata_args(a: &RpmArgs, host: &str) -> (r: Vec<String>)
    ensures
        spec_arg_views(r@) == spec_metadata_args(*a, host@),
{
    let mut v: Vec<String> = Vec::new();
    let ghost mut expect: Seq<Seq<char>> = seq!["metadata"@, "--format-version"@, "1"@];
    push_arg(&mut v, "metadata");
    push_arg(&mut v, "--format-version");
    push_arg(&mut v, "1");
    proof {
        assert(spec_arg_views(v@) =~= expect);
    }
    if a.quiet {
        push_arg(&mut v, "-q");
    }
    proof {
        expect = expect + (if a.quiet {
            seq!["-q"@]
        } else {
            Seq::<Seq<char>>::empty()
        });
        assert(spec_arg_views(v@) =~= expect);
    }
    match &a.features {
        Some(f) => {
            push_arg(&mut v, "--features");
            push_arg(&mut v, f.as_str());
        },
        None => {},
    }
    proof {
        expect = expect + (match &a.features {
            Some(f) => seq!["--features"@, f@],
            None => Seq::<Seq<char>>::empty(),
        });
        assert(spec_arg_views(v@) =~= expect);
    }
    if a.all_features {
        push_arg(&mut v, "--all-features");
    }
    proof {
        expect = expect + (if a.all_features {
            seq!["--all-features"@]
        } else {
            Seq::<Seq<char>>::empty()
        });
        assert(spec_arg_views(v@) =~= expect);
    }
    if a.no_default_features {
        push_arg(&mut v, "--no-default-features");
    }
    proof {
        expect = expect + (if a.no_default_features {
            seq!["--no-default-features"@]
        } else {
            Seq::<Seq<char>>::empty()
        });
        assert(spec_arg_views(v@) =~= expect);
    }
    if !a.all_targets {
        push_arg(&mut v, "--filter-platform");
        match &a.target {
            Some(t) => {
                push_arg(&mut v, t.as_str());
            },
            None => {
                push_arg(&mut v, host);
            },
        }
    }
    proof {
        expect = expect + (if !a.all_targets {
            seq![
                "--filter-platform"@,
                match &a.target {
                    Some(t) => t@,
                    None => host@,
                },
            ]
        } else {
            Seq::<Seq<char>>::empty()
        });
        assert(spec_arg_views(v@) =~= expect);
    }
    match &a.manifest_path {
        Some(p) => {
            push_arg(&mut v, "--manifest-path");
            push_arg(&mut v, p.as_str());
        },
        None => {},
    }
    proof {
        expect = expect + (match &a.manifest_path {
            Some(p) => seq!["--manifest-path"@, p@],
            None => Seq::<Seq<char>>::empty(),
        });
        assert(spec_arg_views(v@) =~= expect);
    }
    let ghost before_verbose = expect;
    let mut k: u8 = 0;
    while k < a.verbose
        invariant
            0 <= k <= a.verbose,
            spec_arg_views(v@) == before_verbose + spec_repeat("-v"@, k as nat),
        decreases a.verbose - k,
    {
        push_arg(&mut v, "-v");
        proof {
            assert(spec_arg_views(v@) =~= before_verbose + spec_repeat("-v"@, (k + 1) as nat));
        }
        k = k + 1;
    }
    proof {
        expect = before_verbose + spec_repeat("-v"@, a.verbose as nat);
        assert(expect == spec_head_args(*a, host@));
    }
    push_tail_args(&mut v, a);
    proof {
        assert(spec_arg_views(v@) == spec_metadata_args(*a, host@));
    }
    v
}

/// A blank character at the edge of a reported line.
pub open spec fn spec_is_blank(c: char) -> bool {
    c == ' ' || c == '\t' || c == '\r'
}

/// The text with leading blanks dropped.
pub open spec fn spec_trim_start(s: Seq<char>) -> Seq<char>
    decreases s.len(),
{
    if s.len() > 0 && spec_is_blank(s.first()) {
        spec_trim_start(s.drop_first())
    } else {
        s
    }
}

/// The text with trailing blanks dropped.
pub open spec fn spec_trim_end(s: Seq<char>) -> Seq<char>
    decreases s.len(),
{
    if s.len() > 0 && spec_is_blank(s.last()) {
        spec_trim_end(s.drop_last())
    } else {
        s
    }
}

/// The text with blanks dropped at both edges.
pub open spec fn spec_trim(s: Seq<char>) -> Seq<char> {
    spec_trim_end(spec_trim_start(s))
}

proof fn lemma_trim_start_at(s: Seq<char>, a: int)
    requires
        0 <= a <= s.len(),
        forall|j: int| 0 <= j < a ==> spec_is_blank(s[j]),
        a < s.len() ==> !spec_is_blank(s[a]),
    ensures
        spec_trim_start(s) == s.skip(a),
    decreases s.len(),
{
    if s.len() > 0 && spec_is_blank(s.first()) {
        assert(a >= 1);
        lemma_trim_start_at(s.drop_first(), a - 1);
        assert(s.drop_first().skip(a - 1) =~= s.skip(a));
    } else {
        assert(a == 0);
        assert(s.skip(0) =~= s);
    }
}

proof fn lemma_trim_end_at(s: Seq<char>, b: int)
    requires
        0 <= b <= s.len(),
        forall|j: int| b <= j < s.len() ==> spec_is_blank(s[j]),
        b > 0 ==> !spec_is_blank(s[b - 1]),
    ensures
        spec_trim_end(s) == s.take(b),
    decreases s.len(),
{
    if s.len() > 0 && spec_is_blank(s.last()) {
        assert(b < s.len());
        lemma_trim_end_at(s.drop_last(), b);
        assert(s.drop_last().take(b) =~= s.take(b));
    } else {
        assert(b == s.len());
        assert(s.take(b) =~= s);
    }
}

fn is_blank(c: char) -> (r: bool)
    ensures
        r == spec_is_blank(c),
{
    c == ' ' || c == '\t' || c == '\r'
}

/// The text with blanks dropped at both edges.
fn trim_text(s: &str) -> (r: String)
    ensures
        r@ == spec_trim(s@),
{
    let n = s.unicode_len();
    let mut a: usize = 0;
    while a < n && is_blank(s.get_char(a))
        invariant
            0 <= a <= n,
            n == s@.len(),
            forall|j: int| 0 <= j < a ==> spec_is_blank(s@[j]),
        decreases n - a,
    {
        a = a + 1;
    }
    proof {
        lemma_trim_start_at(s@, a as int);
    }
    let t = s.substring_char(a, n);
    proof {
        assert(t@ =~= s@.skip(a as int));
    }
    let m = t.unicode_len();
    let mut b: usize = m;
    while b > 0 && is_blank(t.get_char(b - 1))
        invariant
            0 <= b <= m,
            m == t@.len(),
            forall|j: int| b <= j < m ==> spec_is_blank(t@[j]),
        decreases b,
    {
        b = b - 1;
    }
    proof {
        lemma_trim_end_at(t@, b as int);
    }
    let r = t.substring_char(0, b);
    proof {
        assert(r@ =~= t@.take(b as int));
    }
    r.to_owned()
}

/// Whether the line reports the host target.
pub open spec fn spec_host_prefixed(line: Seq<char>) -> bool {
    line.len() >= 6 && line.take(6) == seq!['h', 'o', 's', 't', ':', ' ']
}

/// The host target read from the build tool's version report: the first
/// line opening with the host marker, what follows the marker trimmed of
/// blanks; nothing when no line reports it.
pub open spec fn spec_host_line(s: Seq<char>) -> Option<Seq<char>>
    decreases s.len(),
{
    if s.len() == 0 {
        None
    } else {
        let nl = spec_pos_of(s, '\n');
        let line = if 0 <= nl <= s.len() {
            s.take(nl)
        } else {
            s
        };
        if spec_host_prefixed(line) {
            Some(spec_trim(line.skip(6)))
        } else if 0 <= nl < s.len() {
            spec_host_line(s.skip(nl + 1))
        } else {
            None
        }
    }
}

/// The host target read from the build tool's version report.
pub fn host_from_report(s: &str) -> (r: Option<String>)
    ensures
        (r is Some) <==> (spec_host_line(s@) is Some),
        r is Some ==> (r->0)@ == spec_host_line(s@)->0,
    decreases s@.len(),
{
    let n = s.unicode_len();
    if n == 0 {
        return None;
    }
    let nl = find_char(s, '\n');
    proof {
        lemma_pos_of(s@, '\n');
    }
    let line = s.substring_char(0, nl);
    proof {
        assert(line@ =~= s@.take(nl as int));
    }
    let ln = line.unicode_len();
    if ln >= 6 && line.get_char(0) == 'h' && line.get_char(1) == 'o' && line.get_char(2) == 's'
        && line.get_char(3) == 't' && line.get_char(4) == ':' && line.get_char(5) == ' ' {
        proof {
            assert(line@.take(6) =~= seq!['h', 'o', 's', 't', ':', ' ']);
        }
        let rest = line.substring_char(6, ln);
        proof {
            assert(rest@ =~= line@.skip(6));
        }
        return Some(trim_text(rest));
    }
    proof {
        if line@.len() >= 6 {
            assert(line@.take(6) != seq!['h', 'o', 's', 't', ':', ' ']);
        }
    }
    if nl < n {
        let tail = s.substring_char(nl + 1, n);
        proof {
            assert(tail@ =~= s@.skip(nl + 1));
        }
        return host_from_report(tail);
    }
    None
}

} // verus!
