//! The tool's options, as plain values. The command line is parsed outside
//! the library and handed in through these types.

use vstd::prelude::*;

use crate::text::str_eq;

verus! {

/// The whole invocation.
pub struct RpmStatus {
    pub cmd: Opts,
}

/// The selected subcommand.
pub enum Opts {
    /// Display a tree visualization of a dependency graph.
    Tree(RpmArgs),
    /// Generate a man page.
    Man,
}

/// The character set used for the tree drawing.
#[derive(Debug, Clone, Copy, PartialEq, Eq, Structural)]
pub enum Charset {
    Utf8,
    Ascii,
}

/// The options of the tree subcommand.
pub struct RpmArgs {
    /// Package to be used as the root of the tree.
    pub package: Option<String>,
    /// Space-separated list of features to activate.
    pub features: Option<String>,
    /// Activate all available features.
    pub all_features: bool,
    /// Do not activate the default feature.
    pub no_default_features: bool,
    /// The target triple to resolve for.
    pub target: Option<String>,
    /// Return dependencies for all targets, not only the host target.
    pub all_targets: bool,
    /// Skip development dependencies.
    pub no_dev_dependencies: bool,
    /// Path to the manifest.
    pub manifest_path: Option<String>,
    /// Invert the tree direction.
    pub invert: bool,
    /// Display the dependencies as a list rather than a tree.
    pub no_indent: bool,
    /// Display the dependencies as a list prefixed with their depth.
    pub prefix_depth: bool,
    /// Do not truncate dependencies that have already been displayed.
    pub all: bool,
    /// Show only dependencies that come in multiple versions; implies
    /// inverted direction.
    pub duplicates: bool,
    /// The character set used in the output.
    pub charset: Charset,
    /// Format string used for printing dependencies.
    pub format: String,
    /// Verbosity level.
    pub verbose: u8,
    /// No output on standard output other than the tree.
    pub quiet: bool,
    /// Coloring choice handed through to the build tool.
    pub color: Option<String>,
    /// Require the lock file and cache to be up to date.
    pub frozen: bool,
    /// Require the lock file to be up to date.
    pub locked: bool,
    /// Do not access the network.
    pub offline: bool,
    /// Unstable flags handed through to the build tool.
    pub unstable_flags: Vec<String>,
}

impl Default for Charset {
    /// The default character set.
    fn default() -> (r: Charset)
        ensures
            r is Utf8,
    {
        Charset::Utf8
    }
}

impl Charset {
    /// The character set a name selects: `utf8` or `ascii`, and nothing
    /// else.
    pub fn parse(s: &str) -> (r: Result<Charset, &'static str>)
        ensures
            (r is Ok) <==> (s@ == "utf8"@ || s@ == "ascii"@),
            s@ == "utf8"@ ==> r->Ok_0 is Utf8,
            s@ == "ascii"@ ==> r->Ok_0 is Ascii,
            r is Err ==> (r->Err_0)@ == "invalid charset"@,
    {
        proof {
            reveal_strlit("utf8");
            reveal_strlit("ascii");
            assert("utf8"@.len() == 4);
            assert("ascii"@.len() == 5);
            assert("utf8"@ != "ascii"@);
        }
        if str_eq(s, "utf8") {
            Ok(Charset::Utf8)
        } else if str_eq(s, "ascii") {
            Ok(Charset::Ascii)
        } else {
            Err("invalid charset")
        }
    }
}

impl core::str::FromStr for Charset {
    type Err = &'static str;

    fn from_str(s: &str) -> Result<Charset, &'static str> {
        Charset::parse(s)
    }
}

impl Default for RpmArgs {
    /// All selection off, the default character set, and the plain package
    /// format.
    fn default() -> (r: RpmArgs)
        ensures
            r.package is None,
            r.features is None,
            !r.all_features,
            !r.no_default_features,
            r.target is None,
            !r.all_targets,
            !r.no_dev_dependencies,
            r.manifest_path is None,
            !r.invert,
            !r.no_indent,
            !r.prefix_depth,
            !r.all,
            !r.duplicates,
            r.charset is Utf8,
            r.format@ == "{p}"@,
            r.verbose == 0,
            !r.quiet,
            r.color is None,
            !r.frozen,
            !r.locked,
            !r.offline,
            r.unstable_flags@.len() == 0,
    {
        RpmArgs {
            package: None,
            features: None,
            all_features: false,
            no_default_features: false,
            target: None,
            all_targets: false,
            no_dev_dependencies: false,
            manifest_path: None,
            invert: false,
            no_indent: false,
            prefix_depth: false,
            all: false,
            duplicates: false,
            charset: Charset::Utf8,
            format: String::from_str("{p}"),
            verbose: 0,
            quiet: false,
            color: None,
            frozen: false,
            locked: false,
            offline: false,
            unstable_flags: Vec::new(),
        }
    }
}

impl Default for Opts {
    /// The tree subcommand with its default options.
    fn default() -> (r: Opts)
        ensures
            r is Tree,
    {
        Opts::Tree(RpmArgs::default())
    }
}

impl Default for RpmStatus {
    /// The default invocation: the tree subcommand.
    fn default() -> (r: RpmStatus)
        ensures
            r.cmd is Tree,
    {
        RpmStatus { cmd: Opts::default() }
    }
}

} // verus!
