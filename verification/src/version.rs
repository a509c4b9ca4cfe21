//! Semantic-version model, repository version-string normalization, and
//! derivation of the exact and relaxed requirement strings.

use vstd::prelude::*;

use crate::text::{push_char, spec_dec, u64_to_dec};

verus! {

/// A semantic version as plain values: the three numeric components, the
/// pre-release identifiers (empty when none) and the build metadata (empty
/// when none).
pub struct Version {
    pub major: u64,
    pub minor: u64,
    pub patch: u64,
    pub pre: String,
    pub build: String,
}

/// The mathematical value of a [`Version`].
pub struct VersionView {
    pub major: nat,
    pub minor: nat,
    pub patch: nat,
    pub pre: Seq<char>,
    pub build: Seq<char>,
}

impl View for Version {
    type V = VersionView;

    open spec fn view(&self) -> VersionView {
        VersionView {
            major: self.major as nat,
            minor: self.minor as nat,
            patch: self.patch as nat,
            pre: self.pre@,
            build: self.build@,
        }
    }
}

/// `major.minor.patch` in decimal.
pub open spec fn spec_version_core(major: nat, minor: nat, patch: nat) -> Seq<char> {
    spec_dec(major) + seq!['.'] + spec_dec(minor) + seq!['.'] + spec_dec(patch)
}

/// The version written out in full: `major.minor.patch`, `-pre` when a
/// pre-release tag is present, `+build` when build metadata is present.
pub open spec fn spec_version_text(v: VersionView) -> Seq<char> {
    spec_version_core(v.major, v.minor, v.patch) + (if v.pre.len() == 0 {
        Seq::<char>::empty()
    } else {
        seq!['-'] + v.pre
    }) + (if v.build.len() == 0 {
        Seq::<char>::empty()
    } else {
        seq!['+'] + v.build
    })
}

/// The requirement string demanding the target version itself:
/// `major.minor.patch` with the pre-release tag when one is present.
/// Build metadata never takes part in requirements.
pub open spec fn spec_exact_req(v: VersionView) -> Seq<char> {
    if v.pre.len() == 0 {
        spec_version_core(v.major, v.minor, v.patch)
    } else {
        spec_version_core(v.major, v.minor, v.patch) + seq!['-'] + v.pre
    }
}

/// The relaxed compatibility requirement derived from a target version with
/// zero-version-aware rules: same major for targets at major one or above,
/// same major.minor for `0.x` targets, the exact triple for `0.0.x` targets.
pub open spec fn spec_relaxed_req(v: VersionView) -> Seq<char> {
    if v.major >= 1 {
        spec_dec(v.major)
    } else if v.minor >= 1 {
        seq!['0', '.'] + spec_dec(v.minor)
    } else {
        seq!['0', '.', '0', '.'] + spec_dec(v.patch)
    }
}

impl Version {
    /// A version from its plain components.
    pub fn new(major: u64, minor: u64, patch: u64, pre: String, build: String) -> (r: Version)
        ensures
            r@ == (VersionView {
                major: major as nat,
                minor: minor as nat,
                patch: patch as nat,
                pre: pre@,
                build: build@,
            }),
    {
        Version { major, minor, patch, pre, build }
    }

    /// Whether two versions hold the same value.
    pub fn eq_value(&self, o: &Version) -> (r: bool)
        ensures
            r == (self@ == o@),
    {
        let r = self.major == o.major && self.minor == o.minor && self.patch == o.patch
            && self.pre.eq(&o.pre) && self.build.eq(&o.build);
        proof {
            if r {
                assert(self@ == o@);
            }
        }
        r
    }

    /// An equal copy of the version.
    pub fn clone_value(&self) -> (r: Version)
        ensures
            r == *self,
    {
        Version {
            major: self.major,
            minor: self.minor,
            patch: self.patch,
            pre: self.pre.clone(),
            build: self.build.clone(),
        }
    }

    fn core_text(&self) -> (r: String)
        ensures
            r@ == spec_version_core(self.major as nat, self.minor as nat, self.patch as nat),
    {
        let mut r = u64_to_dec(self.major);
        push_char(&mut r, '.');
        let minor = u64_to_dec(self.minor);
        r.append(minor.as_str());
        push_char(&mut r, '.');
        let patch = u64_to_dec(self.patch);
        r.append(patch.as_str());
        proof {
            assert(r@ =~= spec_version_core(
                self.major as nat,
                self.minor as nat,
                self.patch as nat,
            ));
        }
        r
    }

    /// The version written out in full.
    pub fn to_text(&self) -> (r: String)
        ensures
            r@ == spec_version_text(self@),
    {
        let mut r = self.core_text();
        if self.pre.as_str().unicode_len() != 0 {
            push_char(&mut r, '-');
            r.append(self.pre.as_str());
        }
        if self.build.as_str().unicode_len() != 0 {
            push_char(&mut r, '+');
            r.append(self.build.as_str());
        }
        proof {
            assert(r@ =~= spec_version_text(self@));
        }
        r
    }

    /// The exact requirement string for this target version.
    pub fn exact_req(&self) -> (r: String)
        ensures
            r@ == spec_exact_req(self@),
    {
        let mut r = self.core_text();
        if self.pre.as_str().unicode_len() != 0 {
            push_char(&mut r, '-');
            r.append(self.pre.as_str());
        }
        proof {
            assert(r@ =~= spec_exact_req(self@));
        }
        r
    }

    /// The relaxed requirement string for this target version.
    pub fn relaxed_req(&self) -> (r: String)
        ensures
            r@ == spec_relaxed_req(self@),
    {
        if self.major >= 1 {
            u64_to_dec(self.major)
        } else if self.minor >= 1 {
            let mut r = String::new();
            push_char(&mut r, '0');
            push_char(&mut r, '.');
            let minor = u64_to_dec(self.minor);
            r.append(minor.as_str());
            proof {
                assert(r@ =~= seq!['0', '.'] + spec_dec(self.minor as nat));
            }
            r
        } else {
            let mut r = String::new();
            push_char(&mut r, '0');
            push_char(&mut r, '.');
            push_char(&mut r, '0');
            push_char(&mut r, '.');
            let patch = u64_to_dec(self.patch);
            r.append(patch.as_str());
            proof {
                assert(r@ =~= seq!['0', '.', '0', '.'] + spec_dec(self.patch as nat));
            }
            r
        }
    }
}

/// The tilde-to-hyphen substitution on one character: RPM version strings
/// write `~` where semantic versioning writes `-` before a pre-release tag.
pub open spec fn spec_tilde(c: char) -> char {
    if c == '~' {
        '-'
    } else {
        c
    }
}

/// Position of the first occurrence of `c` in `s`, or `s.len()` when absent.
pub open spec fn spec_pos_of(s: Seq<char>, c: char) -> int
    decreases s.len(),
{
    if s.len() == 0 {
        0
    } else if s[0] == c {
        0
    } else {
        1 + spec_pos_of(s.drop_first(), c)
    }
}

pub proof fn lemma_pos_of(s: Seq<char>, c: char)
    ensures
        0 <= spec_pos_of(s, c) <= s.len(),
        forall|j: int| 0 <= j < spec_pos_of(s, c) ==> s[j] != c,
        spec_pos_of(s, c) < s.len() ==> s[spec_pos_of(s, c)] == c,
    decreases s.len(),
{
    if s.len() != 0 && s[0] != c {
        lemma_pos_of(s.drop_first(), c);
        assert forall|j: int| 0 <= j < spec_pos_of(s, c) implies s[j] != c by {
            if j > 0 {
                assert(s.drop_first()[j - 1] != c);
            }
        }
    }
}

pub proof fn lemma_pos_of_unique(s: Seq<char>, c: char, i: int)
    requires
        0 <= i <= s.len(),
        forall|j: int| 0 <= j < i ==> s[j] != c,
        i < s.len() ==> s[i] == c,
    ensures
        i == spec_pos_of(s, c),
    decreases s.len(),
{
    if s.len() != 0 && s[0] != c {
        assert(i >= 1);
        lemma_pos_of_unique(s.drop_first(), c, i - 1);
    }
}

/// How many times `c` occurs in `s`.
pub open spec fn spec_count(s: Seq<char>, c: char) -> nat
    decreases s.len(),
{
    if s.len() == 0 {
        0
    } else {
        spec_count(s.drop_last(), c) + (if s.last() == c {
            1nat
        } else {
            0nat
        })
    }
}

/// The stripped and substituted version string: everything from the first
/// `+` marker on is dropped, and every `~` becomes `-`.
pub open spec fn spec_strip_map(s: Seq<char>) -> Seq<char> {
    s.take(spec_pos_of(s, '+')).map_values(|c: char| spec_tilde(c))
}

/// The zero components appended to pad a numeric core out to three
/// dot-separated parts.
pub open spec fn spec_pad(dots: nat) -> Seq<char> {
    if dots == 0 {
        seq!['.', '0', '.', '0']
    } else if dots == 1 {
        seq!['.', '0']
    } else {
        Seq::<char>::empty()
    }
}

/// A repository version string normalized for semantic-version comparison:
/// the suffix after the first `+` marker is stripped, `~` is substituted by
/// `-`, and the numeric segment before any pre-release tag is padded with
/// zero components until it has three dot-separated parts.
pub open spec fn spec_normalize(s: Seq<char>) -> Seq<char> {
    let t = spec_strip_map(s);
    let d = spec_pos_of(t, '-');
    let core = t.take(d);
    core + spec_pad(spec_count(core, '.')) + t.skip(d)
}

/// Position of the first occurrence of `c` in `s`, or the length of `s`.
pub(crate) fn find_char(s: &str, c: char) -> (r: usize)
    ensures
        r == spec_pos_of(s@, c),
{
    let n = s.unicode_len();
    let mut i: usize = 0;
    while i < n && s.get_char(i) != c
        invariant
            0 <= i <= n,
            n == s@.len(),
            forall|j: int| 0 <= j < i ==> s@[j] != c,
        decreases n - i,
    {
        i = i + 1;
    }
    proof {
        lemma_pos_of_unique(s@, c, i as int);
    }
    i
}

/// How many times `c` occurs in `s` before position `end`.
fn count_char_upto(s: &str, c: char, end: usize) -> (r: usize)
    requires
        end <= s@.len(),
    ensures
        r == spec_count(s@.take(end as int), c),
{
    let mut i: usize = 0;
    let mut cnt: usize = 0;
    while i < end
        invariant
            0 <= i <= end <= s@.len(),
            cnt <= i,
            cnt == spec_count(s@.take(i as int), c),
        decreases end - i,
    {
        proof {
            assert(s@.take(i + 1).drop_last() =~= s@.take(i as int));
            assert(s@.take(i + 1).last() == s@[i as int]);
        }
        if s.get_char(i) == c {
            cnt = cnt + 1;
        }
        i = i + 1;
    }
    cnt
}

/// The normalization applied to every repository version string before it is
/// compared: `+suffix` stripped, `~` substituted by `-`, and the numeric
/// core padded with zero components to three dot-separated parts.
pub fn normalize(s: &str) -> (r: String)
    ensures
        r@ == spec_normalize(s@),
{
    let plus = find_char(s, '+');
    proof {
        lemma_pos_of(s@, '+');
    }
    let mut t = String::new();
    let mut i: usize = 0;
    while i < plus
        invariant
            0 <= i <= plus <= s@.len(),
            plus == spec_pos_of(s@, '+'),
            t@ == s@.take(i as int).map_values(|ch: char| spec_tilde(ch)),
        decreases plus - i,
    {
        let c = s.get_char(i);
        proof {
            assert(s@.take(i + 1).map_values(|ch: char| spec_tilde(ch)) =~= s@.take(
                i as int,
            ).map_values(|ch: char| spec_tilde(ch)).push(spec_tilde(s@[i as int])));
        }
        if c == '~' {
            push_char(&mut t, '-');
        } else {
            push_char(&mut t, c);
        }
        i = i + 1;
    }
    proof {
        assert(t@ =~= spec_strip_map(s@));
        assert(t@.len() == plus);
    }
    let tn = t.as_str().unicode_len();
    let dash = find_char(t.as_str(), '-');
    proof {
        lemma_pos_of(t@, '-');
    }
    let dots = count_char_upto(t.as_str(), '.', dash);
    let mut r = String::new();
    let core = t.as_str().substring_char(0, dash);
    r.append(core);
    proof {
        assert(t@.subrange(0, dash as int) =~= t@.take(dash as int));
    }
    if dots == 0 {
        r.append(".0.0");
        proof {
            reveal_strlit(".0.0");
            assert(".0.0"@ =~= seq!['.', '0', '.', '0']);
        }
    } else if dots == 1 {
        r.append(".0");
        proof {
            reveal_strlit(".0");
            assert(".0"@ =~= seq!['.', '0']);
        }
    }
    let rest = t.as_str().substring_char(dash, tn);
    r.append(rest);
    proof {
        assert(t@.subrange(dash as int, t@.len() as int) =~= t@.skip(dash as int));
        assert(r@ =~= spec_normalize(s@));
    }
    r
}

} // verus!
