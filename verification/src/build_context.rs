//! Build-time configuration.

use vstd::prelude::*;

verus! {

/// How chatty the surrounding tooling should be.
#[derive(Debug, Clone, Copy, PartialEq, Eq, Hash, Structural)]
pub enum Verbosity {
    Quiet,
    Normal,
    Verbose,
}

impl Verbosity {
    /// Combine the usual `--quiet` and `--verbose` switches; asking for both
    /// is contradictory.
    pub fn from_quiet_and_verbose(quiet: bool, verbose: bool) -> (r: Option<Verbosity>)
        ensures
            r == match (verbose, quiet) {
                (true, false) => Some(Verbosity::Verbose),
                (false, true) => Some(Verbosity::Quiet),
                (false, false) => Some(Verbosity::Normal),
                (true, true) => None::<Verbosity>,
            },
    {
        match (verbose, quiet) {
            (true, false) => Some(Verbosity::Verbose),
            (false, true) => Some(Verbosity::Quiet),
            (false, false) => Some(Verbosity::Normal),
            (true, true) => None,
        }
    }

    /// The argument this verbosity adds to an invoked command, if any.
    pub fn flag(&self) -> (r: Option<&'static str>)
        ensures
            match *self {
                Verbosity::Quiet => r matches Some(f) && f@ == "--quiet"@,
                Verbosity::Verbose => r matches Some(f) && f@ == "--verbose"@,
                Verbosity::Normal => r is None,
            },
    {
        match self {
            Verbosity::Quiet => Some("--quiet"),
            Verbosity::Verbose => Some("--verbose"),
            Verbosity::Normal => None,
        }
    }
}

/// Inputs used during the compilation process.
#[derive(Debug, PartialEq)]
pub struct BuildContext {
    /// The name of the Rune being compiled.
    pub name: String,
    /// The Runefile source text.
    pub runefile: String,
    /// A directory that can be used for any temporary artifacts.
    pub working_directory: String,
    /// The directory that all paths (e.g. to models) are resolved relative
    /// to.
    pub current_directory: String,
    /// Generate an optimized build.
    pub optimized: bool,
    pub verbosity: Verbosity,
    /// The version of the compiler being used.
    pub rune_version: Option<String>,
}

/// The mathematical shape of a [`BuildContext`].
pub struct BuildContextModel {
    pub name: Seq<char>,
    pub runefile: Seq<char>,
    pub working_directory: Seq<char>,
    pub current_directory: Seq<char>,
    pub optimized: bool,
    pub verbosity: Verbosity,
    pub rune_version: Option<Seq<char>>,
}

impl View for BuildContext {
    type V = BuildContextModel;

    open spec fn view(&self) -> BuildContextModel {
        BuildContextModel {
            name: self.name@,
            runefile: self.runefile@,
            working_directory: self.working_directory@,
            current_directory: self.current_directory@,
            optimized: self.optimized,
            verbosity: self.verbosity,
            rune_version: match self.rune_version {
                Some(ref v) => Some(v@),
                None => None,
            },
        }
    }
}

impl Clone for BuildContext {
    fn clone(&self) -> (r: Self)
        ensures
            r@ == self@,
    {
        BuildContext {
            name: self.name.clone(),
            runefile: self.runefile.clone(),
            working_directory: self.working_directory.clone(),
            current_directory: self.current_directory.clone(),
            optimized: self.optimized,
            verbosity: self.verbosity,
            rune_version: match &self.rune_version {
                Some(v) => Some(v.clone()),
                None => None,
            },
        }
    }
}

/// Feature flags and other knobs that can be used during development.
#[derive(Debug, PartialEq)]
pub struct FeatureFlags {
    /// If set, first-party crates are patched to come from this directory
    /// instead of the registry or GitHub.
    pub rune_repo_dir: Option<String>,
}

/// The mathematical shape of a [`FeatureFlags`].
pub struct FeatureFlagsModel {
    pub rune_repo_dir: Option<Seq<char>>,
}

impl View for FeatureFlags {
    type V = FeatureFlagsModel;

    open spec fn view(&self) -> FeatureFlagsModel {
        FeatureFlagsModel {
            rune_repo_dir: match self.rune_repo_dir {
                Some(ref v) => Some(v@),
                None => None,
            },
        }
    }
}

impl FeatureFlags {
    /// Flags for working on the compiler itself: the caller names the
    /// repository root to resolve first-party crates from, if the build is
    /// running inside one.
    pub fn development(repo_dir: Option<String>) -> (r: FeatureFlags)
        ensures
            r@.rune_repo_dir == match repo_dir {
                Some(ref v) => Some::<Seq<char>>(v@),
                None => None::<Seq<char>>,
            },
    {
        FeatureFlags { rune_repo_dir: repo_dir }
    }

    /// Flags for ordinary builds: everything resolved from the registry.
    pub fn production() -> (r: FeatureFlags)
        ensures
            r@.rune_repo_dir is None,
    {
        FeatureFlags { rune_repo_dir: None }
    }

    /// If specified, first-party crates (e.g. `hotg-rune-core`) will be
    /// patched to use crates from this directory instead of crates.io or
    /// GitHub.
    pub fn set_rune_repo_dir(&mut self, repo_dir: Option<String>)
        ensures
            final(self)@.rune_repo_dir == match repo_dir {
                Some(ref v) => Some::<Seq<char>>(v@),
                None => None::<Seq<char>>,
            },
    {
        self.rune_repo_dir = repo_dir;
    }
}

impl Clone for FeatureFlags {
    fn clone(&self) -> (r: Self)
        ensures
            r@ == self@,
    {
        FeatureFlags {
            rune_repo_dir: match &self.rune_repo_dir {
                Some(v) => Some(v.clone()),
                None => None,
            },
        }
    }
}

impl Default for FeatureFlags {
    fn default() -> (r: FeatureFlags)
        ensures
            r@.rune_repo_dir is None,
    {
        FeatureFlags::production()
    }
}

} // verus!
