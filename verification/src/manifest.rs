//! The generated package manifest.
//!
//! The compiler emits a `Cargo.toml` for the generated crate: a `cdylib`
//! library in its own workspace, depending on the logging and allocator
//! crates every Rune needs, the first-party runtime crates, and one entry
//! per declared processing block, resolved to a registry version, a git
//! repository, or a local path. Tables are name-keyed and kept sorted so
//! the emitted bytes are reproducible.

use vstd::prelude::*;
use vstd::string::StrSliceExecFns;
use vstd::string::StringExecFns;

use crate::ordering::entries_view;
use crate::ordering::sorted_insert;
use crate::ordering::spec_assoc;
use crate::ordering::spec_sorted_insert;
use crate::ordering::spec_starts_with;
use crate::ordering::str_eq;
use crate::ordering::str_starts_with;
use crate::path::Path;
use crate::path::PathModel;
use crate::path::find_char;
use crate::path::lemma_find_char;
use crate::versions::core_version;
use crate::versions::proc_block_version;
use crate::versions::spec_core_version;
use crate::versions::spec_proc_block_version;

verus! {

/// The canonical repository first-party crates come from.
pub open spec fn spec_repo() -> Seq<char> {
    "https://github.com/hotg-ai/rune"@
}

/// The canonical repository first-party crates come from.
pub fn repo() -> (r: &'static str)
    ensures
        r@ == spec_repo(),
{
    "https://github.com/hotg-ai/rune"
}

// ---------------------------------------------------------------------------
// The manifest data model
// ---------------------------------------------------------------------------

/// One dependency, spelled out.
#[derive(Debug, PartialEq)]
pub struct DependencyDetail {
    pub version: Option<String>,
    pub git: Option<String>,
    pub tag: Option<String>,
    pub path: Option<String>,
    pub features: Vec<String>,
}

/// The mathematical shape of a [`DependencyDetail`].
pub struct DependencyDetailModel {
    pub version: Option<Seq<char>>,
    pub git: Option<Seq<char>>,
    pub tag: Option<Seq<char>>,
    pub path: Option<Seq<char>>,
    pub features: Seq<Seq<char>>,
}

impl View for DependencyDetail {
    type V = DependencyDetailModel;

    open spec fn view(&self) -> DependencyDetailModel {
        DependencyDetailModel {
            version: match self.version {
                Some(ref v) => Some(v@),
                None => None,
            },
            git: match self.git {
                Some(ref v) => Some(v@),
                None => None,
            },
            tag: match self.tag {
                Some(ref v) => Some(v@),
                None => None,
            },
            path: match self.path {
                Some(ref v) => Some(v@),
                None => None,
            },
            features: crate::document::strings_view(self.features@),
        }
    }
}

/// A dependency: a bare version from the registry, or a detailed entry.
#[derive(Debug, PartialEq)]
pub enum Dependency {
    Simple(String),
    Detailed(DependencyDetail),
}

/// The mathematical shape of a [`Dependency`].
pub enum DependencyModel {
    Simple(Seq<char>),
    Detailed(DependencyDetailModel),
}

impl View for Dependency {
    type V = DependencyModel;

    open spec fn view(&self) -> DependencyModel {
        match self {
            Dependency::Simple(v) => DependencyModel::Simple(v@),
            Dependency::Detailed(d) => DependencyModel::Detailed(d@),
        }
    }
}

/// A name-keyed dependency table, sorted by name.
pub type DepsSet = Vec<(String, Dependency)>;

/// The view of a dependency table.
pub open spec fn deps_view(deps: Seq<(String, Dependency)>) -> Seq<(Seq<char>, DependencyModel)> {
    deps.map_values(|e: (String, Dependency)| (e.0@, e.1@))
}

/// The `[package]` section.
#[derive(Debug, PartialEq)]
pub struct Package {
    pub name: String,
    pub version: String,
    pub edition: String,
    pub publish: bool,
    pub resolver: String,
}

/// The library target.
#[derive(Debug, PartialEq)]
pub struct Product {
    pub path: Option<String>,
    pub edition: Option<String>,
    pub crate_type: Option<Vec<String>>,
}

/// The `[workspace]` section.
#[derive(Debug, PartialEq)]
pub struct Workspace {
    pub members: Vec<String>,
    pub default_members: Vec<String>,
}

/// The whole generated manifest.
#[derive(Debug, PartialEq)]
pub struct Manifest {
    pub package: Option<Package>,
    pub lib: Option<Product>,
    pub dependencies: DepsSet,
    pub workspace: Option<Workspace>,
    /// Patch tables, keyed by source (`crates-io` or a repository URL).
    pub patch: Vec<(String, DepsSet)>,
}

/// The value under `name` in a dependency table.
pub fn dep_get<'a>(deps: &'a DepsSet, name: &str) -> (r: Option<&'a Dependency>)
    ensures
        match r {
            Some(d) => spec_assoc(deps_view(deps@), name@) == Some((*d)@),
            None => spec_assoc(deps_view(deps@), name@) is None,
        },
{
    let ghost dm = deps_view(deps@);
    let n = deps.len();
    let mut found: Option<usize> = None;
    let mut i: usize = 0;
    while i < n
        invariant
            0 <= i <= n,
            n == deps@.len(),
            dm == deps_view(deps@),
            dm.len() == n,
            match found {
                Some(fi) => fi < i && spec_assoc(dm.take(i as int), name@) == Some(
                    dm[fi as int].1,
                ),
                None => spec_assoc(dm.take(i as int), name@) is None,
            },
        decreases n - i,
    {
        proof {
            assert(dm.take(i as int + 1).drop_last() =~= dm.take(i as int));
            assert(dm.take(i as int + 1).last() == dm[i as int]);
            assert(dm[i as int] == (deps@[i as int].0@, deps@[i as int].1@));
        }
        if str_eq(deps[i].0.as_str(), name) {
            found = Some(i);
        }
        i += 1;
    }
    proof {
        assert(dm.take(n as int) =~= dm);
    }
    match found {
        Some(fi) => Some(&deps[fi].1),
        None => None,
    }
}

// ---------------------------------------------------------------------------
// Dependency resolution
// ---------------------------------------------------------------------------

/// A detail with nothing set.
pub fn empty_dependency_detail() -> (r: DependencyDetail)
    ensures
        r@.version is None,
        r@.git is None,
        r@.tag is None,
        r@.path is None,
        r@.features.len() == 0,
{
    DependencyDetail { version: None, git: None, tag: None, path: None, features: Vec::new() }
}

/// Whether a path names the built-in processing blocks shipped from the
/// canonical repository.
pub open spec fn spec_is_builtin(p: PathModel) -> bool {
    p.base == "hotg-ai/rune"@
}

/// Whether a path names the built-in processing blocks.
pub fn is_builtin(path: &Path) -> (r: bool)
    ensures
        r == spec_is_builtin(path@),
{
    str_eq(path.base.as_str(), "hotg-ai/rune")
}

/// A git repository pinned to a tag.
pub fn git_tagged_dependency(repo_url: &str, tag: &str) -> (r: DependencyDetail)
    ensures
        r@.git == Some(repo_url@),
        r@.tag == Some(tag@),
        r@.version is None,
        r@.path is None,
        r@.features.len() == 0,
{
    DependencyDetail {
        version: None,
        git: Some(String::from_str(repo_url)),
        tag: Some(String::from_str(tag)),
        path: None,
        features: Vec::new(),
    }
}

/// Joining a directory and a relative path, the way a path buffer joins:
/// an absolute right side replaces the left.
pub open spec fn spec_join(a: Seq<char>, b: Seq<char>) -> Seq<char> {
    if b.len() > 0 && b[0] == '/' {
        b
    } else if a.len() == 0 {
        b
    } else if a.last() == '/' {
        a + b
    } else {
        a + seq!['/'] + b
    }
}

/// Join a directory and a relative path.
pub fn join_path(a: &str, b: &str) -> (r: String)
    ensures
        r@ == spec_join(a@, b@),
{
    let bn = b.unicode_len();
    if bn > 0 && b.get_char(0) == '/' {
        return String::from_str(b);
    }
    let an = a.unicode_len();
    if an == 0 {
        return String::from_str(b);
    }
    let mut out = String::from_str(a);
    if a.get_char(an - 1) != '/' {
        out.append("/");
        proof {
            reveal_strlit("/");
        }
    }
    out.append(b);
    proof {
        assert(out@ =~= spec_join(a@, b@));
    }
    out
}

/// A local processing block, relative to the current directory.
pub fn local_proc_block(path: &Path, current_dir: &str) -> (r: DependencyDetail)
    ensures
        r@.path == Some(spec_join(current_dir@, path@.base)),
        r@.version is None,
        r@.git is None,
        r@.tag is None,
        r@.features.len() == 0,
{
    DependencyDetail {
        version: None,
        git: None,
        tag: None,
        path: Some(join_path(current_dir, path.base.as_str())),
        features: Vec::new(),
    }
}

/// How a declared processing block resolves: built-in paths come from the
/// canonical repository pinned to the core version tag; paths starting with
/// `.` are local; a bare name with a version is a registry entry;
/// everything else falls back to a GitHub repository, tagged with the
/// path's version when it carries one. A path's sub-directory has no field
/// in a dependency entry, so it does not appear here.
pub open spec fn spec_proc_block_dependency(p: PathModel, current_dir: Seq<char>) -> DependencyDetailModel {
    if spec_is_builtin(p) {
        DependencyDetailModel {
            version: None,
            git: Some(spec_repo()),
            tag: Some("v"@ + spec_core_version()),
            path: None,
            features: Seq::empty(),
        }
    } else if p.base.len() > 0 && p.base[0] == '.' {
        DependencyDetailModel {
            version: None,
            git: None,
            tag: None,
            path: Some(spec_join(current_dir, p.base)),
            features: Seq::empty(),
        }
    } else if p.sub_path is None && find_char(p.base, '/') is None && p.version is Some {
        DependencyDetailModel {
            version: Some(p.version->0),
            git: None,
            tag: None,
            path: None,
            features: Seq::empty(),
        }
    } else {
        DependencyDetailModel {
            version: None,
            git: Some("https://github.com/"@ + p.base + ".git"@),
            tag: p.version,
            path: None,
            features: Seq::empty(),
        }
    }
}

/// Resolve one declared processing block to a dependency.
pub fn proc_block_dependency(path: &Path, current_dir: &str) -> (r: DependencyDetail)
    ensures
        r@ == spec_proc_block_dependency(path@, current_dir@),
{
    if is_builtin(path) {
        let mut tag = String::from_str("v");
        tag.append(core_version());
        let r = git_tagged_dependency(repo(), tag.as_str());
        proof {
            assert(r@ == spec_proc_block_dependency(path@, current_dir@)) by {
                assert(r@.features =~= Seq::<Seq<char>>::empty());
            }
        }
        return r;
    }
    let base_len = path.base.as_str().unicode_len();
    if base_len > 0 && path.base.as_str().get_char(0) == '.' {
        let r = local_proc_block(path, current_dir);
        proof {
            assert(r@.features =~= Seq::<Seq<char>>::empty());
        }
        return r;
    }
    let has_slash = crate::path::find_in_str(path.base.as_str(), '/');
    if has_slash.is_none() && path.sub_path.is_none() {
        match &path.version {
            Some(version) => {
                let mut r = empty_dependency_detail();
                r.version = Some(version.clone());
                proof {
                    assert(r@.features =~= Seq::<Seq<char>>::empty());
                }
                return r;
            },
            None => {},
        }
    }
    // fall back to using git, tagged with the declared version if any
    let mut repo_url = String::from_str("https://github.com/");
    repo_url.append(path.base.as_str());
    repo_url.append(".git");
    let mut r = empty_dependency_detail();
    r.git = Some(repo_url);
    r.tag = match &path.version {
        Some(v) => Some(v.clone()),
        None => None,
    };
    proof {
        assert(r@.features =~= Seq::<Seq<char>>::empty());
    }
    r
}

// ---------------------------------------------------------------------------
// Processing-block crate names
// ---------------------------------------------------------------------------

/// The position of the last occurrence of `c` in `t`, if any.
pub open spec fn find_last_char(t: Seq<char>, c: char) -> Option<int>
    decreases t.len(),
{
    if t.len() == 0 {
        None
    } else if t.last() == c {
        Some(t.len() - 1)
    } else {
        find_last_char(t.drop_last(), c)
    }
}

proof fn lemma_find_last_char(t: Seq<char>, c: char)
    ensures
        match find_last_char(t, c) {
            Some(i) => 0 <= i < t.len() && t[i] == c && forall|j: int|
                i < j < t.len() ==> t[j] != c,
            None => forall|j: int| 0 <= j < t.len() ==> t[j] != c,
        },
    decreases t.len(),
{
    if t.len() > 0 && t.last() != c {
        lemma_find_last_char(t.drop_last(), c);
        match find_last_char(t.drop_last(), c) {
            Some(i) => {
                assert(t[i] == t.drop_last()[i]);
                assert forall|j: int| i < j < t.len() implies t[j] != c by {
                    if j < t.len() - 1 {
                        assert(t.drop_last()[j] != c);
                    }
                }
            },
            None => {
                assert forall|j: int| 0 <= j < t.len() implies t[j] != c by {
                    if j < t.len() - 1 {
                        assert(t.drop_last()[j] != c);
                    }
                }
            },
        }
    }
}

/// The crate name a processing block dependency is registered under: the
/// last segment of its sub-path, or of its base where it has none.
pub open spec fn spec_proc_block_name(p: PathModel) -> Seq<char> {
    let source = match p.sub_path {
        Some(s) => s,
        None => p.base,
    };
    match find_last_char(source, '/') {
        Some(i) => source.subrange(i + 1, source.len() as int),
        None => source,
    }
}

/// The crate name of a processing block.
pub fn proc_block_name(path: &Path) -> (r: String)
    ensures
        r@ == spec_proc_block_name(path@),
{
    let source: &String = match &path.sub_path {
        Some(s) => s,
        None => &path.base,
    };
    let s = source.as_str();
    let n = s.unicode_len();
    let mut i: usize = n;
    let mut k: usize = 0;
    while k < n
        invariant
            0 <= k <= n,
            n == s@.len(),
            i <= n,
            i == n ==> forall|j: int| n - k <= j < n ==> s@[j] != '/',
            i < n ==> s@[i as int] == '/' && (forall|j: int| i < j < n ==> s@[j] != '/'),
        decreases n - k,
    {
        let probe = n - 1 - k;
        if i == n && s.get_char(probe) == '/' {
            i = probe;
        }
        k += 1;
    }
    proof {
        lemma_find_last_char(s@, '/');
        match find_last_char(s@, '/') {
            Some(fi) => {
                if i == n {
                    assert(s@[fi] != '/');
                } else {
                    if fi < i {
                        assert(s@[i as int] != '/');
                    }
                    if fi > i {
                        assert(s@[fi] != '/');
                    }
                }
            },
            None => {
                if i < n {
                    assert(s@[i as int] != '/');
                }
            },
        }
    }
    if i == n {
        String::from_str(s)
    } else {
        String::from_str(s.substring_char(i + 1, n))
    }
}

// ---------------------------------------------------------------------------
// The dependency table
// ---------------------------------------------------------------------------

/// The fixed dependencies every generated crate has.
pub open spec fn spec_base_dependencies() -> Seq<(Seq<char>, DependencyModel)> {
    let log = DependencyModel::Detailed(
        DependencyDetailModel {
            version: Some("0.4"@),
            git: None,
            tag: None,
            path: None,
            features: seq!["max_level_debug"@, "release_max_level_info"@],
        },
    );
    let lazy_static = DependencyModel::Detailed(
        DependencyDetailModel {
            version: Some("1.0"@),
            git: None,
            tag: None,
            path: None,
            features: seq!["spin_no_std"@],
        },
    );
    let s0 = spec_sorted_insert(Seq::empty(), "log"@, log);
    let s1 = spec_sorted_insert(s0, "lazy_static"@, lazy_static);
    let s2 = spec_sorted_insert(
        s1,
        "hotg-rune-core"@,
        DependencyModel::Simple(spec_core_version()),
    );
    let s3 = spec_sorted_insert(
        s2,
        "hotg-rune-proc-blocks"@,
        DependencyModel::Simple(spec_proc_block_version()),
    );
    spec_sorted_insert(s3, "hotg-runicos-base-wasm"@, DependencyModel::Simple(spec_core_version()))
}

/// The whole dependency table: the fixed entries, then one per declared
/// processing block.
pub open spec fn spec_dependencies(pbs: Seq<PathModel>, current_dir: Seq<char>) -> Seq<
    (Seq<char>, DependencyModel),
>
    decreases pbs.len(),
{
    if pbs.len() == 0 {
        spec_base_dependencies()
    } else {
        spec_sorted_insert(
            spec_dependencies(pbs.drop_last(), current_dir),
            spec_proc_block_name(pbs.last()),
            DependencyModel::Detailed(spec_proc_block_dependency(pbs.last(), current_dir)),
        )
    }
}

/// The view of a list of processing-block paths.
pub open spec fn paths_view(ps: Seq<Path>) -> Seq<PathModel> {
    ps.map_values(|p: Path| p@)
}

/// Mapping a table's values to their shapes commutes with insertion.
proof fn lemma_sorted_insert_view(s: Seq<(Seq<char>, Dependency)>, k: Seq<char>, v: Dependency)
    ensures
        dep_entries_model(spec_sorted_insert(s, k, v)) =~= spec_sorted_insert(
            dep_entries_model(s),
            k,
            v@,
        ),
    decreases s.len(),
{
    if s.len() == 0 {
    } else if crate::ordering::lex_lt(k, s[0].0) {
    } else if !crate::ordering::lex_lt(s[0].0, k) {
    } else {
        lemma_sorted_insert_view(s.drop_first(), k, v);
        assert(dep_entries_model(s).drop_first() =~= dep_entries_model(s.drop_first()));
        assert(dep_entries_model(spec_sorted_insert(s, k, v)) =~= seq![
            dep_entries_model(s)[0],
        ] + dep_entries_model(spec_sorted_insert(s.drop_first(), k, v)));
    }
}

/// Each table value as its shape.
pub open spec fn dep_entries_model(s: Seq<(Seq<char>, Dependency)>) -> Seq<
    (Seq<char>, DependencyModel),
> {
    s.map_values(|e: (Seq<char>, Dependency)| (e.0, e.1@))
}

/// Insert into a dependency table, keyed and sorted by name.
fn sorted_insert_dep(deps: &mut DepsSet, name: String, dep: Dependency)
    ensures
        deps_view(final(deps)@) == spec_sorted_insert(deps_view(old(deps)@), name@, dep@),
{
    let ghost k = name@;
    let ghost gd = dep;
    sorted_insert(deps, name, dep);
    proof {
        lemma_sorted_insert_view(entries_view(old(deps)@), k, gd);
        assert(deps_view(deps@) =~= dep_entries_model(entries_view(deps@)));
        assert(deps_view(old(deps)@) =~= dep_entries_model(entries_view(old(deps)@)));
    }
}

/// Build the dependency table for the generated crate.
pub fn dependencies(proc_blocks: &Vec<Path>, current_dir: &str) -> (r: DepsSet)
    ensures
        deps_view(r@) == spec_dependencies(paths_view(proc_blocks@), current_dir@),
{
    let mut deps: DepsSet = Vec::new();
    proof {
        assert(deps_view(deps@) =~= Seq::<(Seq<char>, DependencyModel)>::empty());
    }
    // We always need the log crate.
    let mut log_features: Vec<String> = Vec::new();
    log_features.push(String::from_str("max_level_debug"));
    log_features.push(String::from_str("release_max_level_info"));
    proof {
        assert(crate::document::strings_view(log_features@) =~= seq![
            "max_level_debug"@,
            "release_max_level_info"@,
        ]);
    }
    let log = Dependency::Detailed(
        DependencyDetail {
            version: Some(String::from_str("0.4")),
            git: None,
            tag: None,
            path: None,
            features: log_features,
        },
    );
    sorted_insert_dep(&mut deps, String::from_str("log"), log);
    // We also need lazy_static.
    let mut ls_features: Vec<String> = Vec::new();
    ls_features.push(String::from_str("spin_no_std"));
    proof {
        assert(crate::document::strings_view(ls_features@) =~= seq!["spin_no_std"@]);
    }
    let lazy_static = Dependency::Detailed(
        DependencyDetail {
            version: Some(String::from_str("1.0")),
            git: None,
            tag: None,
            path: None,
            features: ls_features,
        },
    );
    sorted_insert_dep(&mut deps, String::from_str("lazy_static"), lazy_static);
    // The first-party runtime crates, pinned to the compiler's versions.
    sorted_insert_dep(
        &mut deps,
        String::from_str("hotg-rune-core"),
        Dependency::Simple(String::from_str(core_version())),
    );
    sorted_insert_dep(
        &mut deps,
        String::from_str("hotg-rune-proc-blocks"),
        Dependency::Simple(String::from_str(proc_block_version())),
    );
    sorted_insert_dep(
        &mut deps,
        String::from_str("hotg-runicos-base-wasm"),
        Dependency::Simple(String::from_str(core_version())),
    );
    let ghost pv = paths_view(proc_blocks@);
    let n = proc_blocks.len();
    let mut i: usize = 0;
    while i < n
        invariant
            0 <= i <= n,
            n == proc_blocks@.len(),
            pv == paths_view(proc_blocks@),
            pv.len() == n,
            deps_view(deps@) == spec_dependencies(pv.take(i as int), current_dir@),
        decreases n - i,
    {
        proof {
            assert(pv.take(i as int + 1).drop_last() =~= pv.take(i as int));
            assert(pv.take(i as int + 1).last() == pv[i as int]);
            assert(pv[i as int] == proc_blocks@[i as int]@);
        }
        let name = proc_block_name(&proc_blocks[i]);
        let dep = proc_block_dependency(&proc_blocks[i], current_dir);
        sorted_insert_dep(&mut deps, name, Dependency::Detailed(dep));
        i += 1;
    }
    proof {
        assert(pv.take(n as int) =~= pv);
    }
    deps
}


// ---------------------------------------------------------------------------
// Whole-manifest construction
// ---------------------------------------------------------------------------

/// The mathematical shape of a [`Package`].
pub struct PackageModel {
    pub name: Seq<char>,
    pub version: Seq<char>,
    pub edition: Seq<char>,
    pub publish: bool,
    pub resolver: Seq<char>,
}

impl View for Package {
    type V = PackageModel;

    open spec fn view(&self) -> PackageModel {
        PackageModel {
            name: self.name@,
            version: self.version@,
            edition: self.edition@,
            publish: self.publish,
            resolver: self.resolver@,
        }
    }
}

/// The mathematical shape of a [`Product`].
pub struct ProductModel {
    pub path: Option<Seq<char>>,
    pub edition: Option<Seq<char>>,
    pub crate_type: Option<Seq<Seq<char>>>,
}

impl View for Product {
    type V = ProductModel;

    open spec fn view(&self) -> ProductModel {
        ProductModel {
            path: match self.path {
                Some(ref v) => Some(v@),
                None => None,
            },
            edition: match self.edition {
                Some(ref v) => Some(v@),
                None => None,
            },
            crate_type: match self.crate_type {
                Some(ref v) => Some(crate::document::strings_view(v@)),
                None => None,
            },
        }
    }
}

/// The mathematical shape of a [`Workspace`].
pub struct WorkspaceModel {
    pub members: Seq<Seq<char>>,
    pub default_members: Seq<Seq<char>>,
}

impl View for Workspace {
    type V = WorkspaceModel;

    open spec fn view(&self) -> WorkspaceModel {
        WorkspaceModel {
            members: crate::document::strings_view(self.members@),
            default_members: crate::document::strings_view(self.default_members@),
        }
    }
}

/// The mathematical shape of a [`Manifest`].
pub struct ManifestModel {
    pub package: Option<PackageModel>,
    pub lib: Option<ProductModel>,
    pub dependencies: Seq<(Seq<char>, DependencyModel)>,
    pub workspace: Option<WorkspaceModel>,
    pub patch: Seq<(Seq<char>, Seq<(Seq<char>, DependencyModel)>)>,
}

/// The view of the patch tables.
pub open spec fn patch_view(p: Seq<(String, DepsSet)>) -> Seq<
    (Seq<char>, Seq<(Seq<char>, DependencyModel)>),
> {
    p.map_values(|e: (String, DepsSet)| (e.0@, deps_view(e.1@)))
}

impl View for Manifest {
    type V = ManifestModel;

    open spec fn view(&self) -> ManifestModel {
        ManifestModel {
            package: match self.package {
                Some(ref p) => Some(p@),
                None => None,
            },
            lib: match self.lib {
                Some(ref l) => Some(l@),
                None => None,
            },
            dependencies: deps_view(self.dependencies@),
            workspace: match self.workspace {
                Some(ref w) => Some(w@),
                None => None,
            },
            patch: patch_view(self.patch@),
        }
    }
}

/// The fixed `[package]` section: version `0.0.0`, edition 2018, not
/// published, resolver 2.
pub open spec fn spec_package(name: Seq<char>) -> PackageModel {
    PackageModel {
        name: name,
        version: "0.0.0"@,
        edition: "2018"@,
        publish: false,
        resolver: "2"@,
    }
}

/// The `[package]` section for the generated crate.
pub fn package(name: &str) -> (r: Package)
    ensures
        r@ == spec_package(name@),
{
    Package {
        name: String::from_str(name),
        version: String::from_str("0.0.0"),
        edition: String::from_str("2018"),
        publish: false,
        resolver: String::from_str("2"),
    }
}

/// The whole manifest: a `cdylib` named after the build, in its own
/// workspace, with the resolved dependency table.
pub open spec fn spec_generate_manifest(
    pbs: Seq<PathModel>,
    name: Seq<char>,
    current_dir: Seq<char>,
) -> ManifestModel {
    ManifestModel {
        package: Some(spec_package(name)),
        lib: Some(
            ProductModel {
                path: Some("lib.rs"@),
                edition: Some("2018"@),
                crate_type: Some(seq!["cdylib"@]),
            },
        ),
        dependencies: spec_dependencies(pbs, current_dir),
        workspace: Some(WorkspaceModel { members: seq!["."@], default_members: seq!["."@] }),
        patch: Seq::empty(),
    }
}

/// Generate the manifest for the generated crate.
pub fn generate_manifest(proc_blocks: &Vec<Path>, name: &str, current_dir: &str) -> (r: Manifest)
    ensures
        r@ == spec_generate_manifest(paths_view(proc_blocks@), name@, current_dir@),
{
    let mut crate_type: Vec<String> = Vec::new();
    crate_type.push(String::from_str("cdylib"));
    let mut members: Vec<String> = Vec::new();
    members.push(String::from_str("."));
    let mut default_members: Vec<String> = Vec::new();
    default_members.push(String::from_str("."));
    proof {
        assert(crate::document::strings_view(crate_type@) =~= seq!["cdylib"@]);
        assert(crate::document::strings_view(members@) =~= seq!["."@]);
        assert(crate::document::strings_view(default_members@) =~= seq!["."@]);
    }
    let r = Manifest {
        package: Some(package(name)),
        lib: Some(
            Product {
                path: Some(String::from_str("lib.rs")),
                edition: Some(String::from_str("2018")),
                crate_type: Some(crate_type),
            },
        ),
        dependencies: dependencies(proc_blocks, current_dir),
        workspace: Some(Workspace { members, default_members }),
        patch: Vec::new(),
    };
    proof {
        assert(patch_view(r.patch@) =~= Seq::<
            (Seq<char>, Seq<(Seq<char>, DependencyModel)>),
        >::empty());
    }
    r
}

// ---------------------------------------------------------------------------
// First-party overrides
// ---------------------------------------------------------------------------

/// A dependency taken from a local path.
pub fn path_dependency(path: String) -> (r: Dependency)
    ensures
        r@ == DependencyModel::Detailed(
            DependencyDetailModel {
                version: None,
                git: None,
                tag: None,
                path: Some(path@),
                features: Seq::empty(),
            },
        ),
{
    let r = Dependency::Detailed(
        DependencyDetail { version: None, git: None, tag: None, path: Some(path), features: Vec::new() },
    );
    proof {
        assert(crate::document::strings_view(Seq::<String>::empty()) =~= Seq::<Seq<char>>::empty());
    }
    r
}

/// Where a first-party crate lives inside the repository checkout.
pub open spec fn spec_override_path(name: Seq<char>, repo_dir: Seq<char>) -> Seq<char> {
    if name == "hotg-rune-core"@ {
        spec_join(repo_dir, "crates/rune-core"@)
    } else if name == "hotg-rune-proc-blocks"@ {
        spec_join(repo_dir, "proc-blocks/proc-blocks"@)
    } else if name == "hotg-runicos-base-wasm"@ {
        spec_join(repo_dir, "images/runicos-base/wasm"@)
    } else {
        spec_join(spec_join(repo_dir, "proc-blocks"@), name)
    }
}

/// Whether a dependency is first-party: named `hotg-*`, or fetched from the
/// canonical repository.
pub open spec fn spec_is_first_party(name: Seq<char>, dep: DependencyModel) -> bool {
    spec_starts_with(name, "hotg-"@) || (dep matches DependencyModel::Detailed(d) && d.git
        == Some(spec_repo()))
}

/// The override table for a dependency table: every first-party entry
/// redirected to the repository checkout, and the core crates always.
pub open spec fn spec_overrides(
    deps: Seq<(Seq<char>, DependencyModel)>,
    repo_dir: Seq<char>,
) -> Seq<(Seq<char>, DependencyModel)>
    decreases deps.len(),
{
    if deps.len() == 0 {
        Seq::empty()
    } else {
        let rest = spec_overrides(deps.drop_last(), repo_dir);
        let (name, dep) = deps.last();
        if spec_is_first_party(name, dep) {
            spec_sorted_insert(
                rest,
                name,
                DependencyModel::Detailed(
                    DependencyDetailModel {
                        version: None,
                        git: None,
                        tag: None,
                        path: Some(spec_override_path(name, repo_dir)),
                        features: Seq::empty(),
                    },
                ),
            )
        } else {
            rest
        }
    }
}

/// The full override table, with the two core crates always present.
pub open spec fn spec_all_overrides(
    deps: Seq<(Seq<char>, DependencyModel)>,
    repo_dir: Seq<char>,
) -> Seq<(Seq<char>, DependencyModel)> {
    let path_dep = |name: Seq<char>|
        DependencyModel::Detailed(
            DependencyDetailModel {
                version: None,
                git: None,
                tag: None,
                path: Some(spec_override_path(name, repo_dir)),
                features: Seq::empty(),
            },
        );
    spec_sorted_insert(
        spec_sorted_insert(
            spec_overrides(deps, repo_dir),
            "hotg-rune-core"@,
            path_dep("hotg-rune-core"@),
        ),
        "hotg-rune-proc-blocks"@,
        path_dep("hotg-rune-proc-blocks"@),
    )
}

/// What patching adds: a `crates-io` table and a canonical-repository
/// table, both redirecting first-party crates into the checkout.
pub open spec fn spec_patched(m: ManifestModel, repo_dir: Seq<char>) -> ManifestModel {
    let overrides = spec_all_overrides(m.dependencies, repo_dir);
    ManifestModel {
        patch: m.patch + seq![("crates-io"@, overrides), (spec_repo(), overrides)],
        ..m
    }
}

/// The override path for one first-party crate.
fn override_path(name: &str, repo_dir: &str) -> (r: String)
    ensures
        r@ == spec_override_path(name@, repo_dir@),
{
    if str_eq(name, "hotg-rune-core") {
        join_path(repo_dir, "crates/rune-core")
    } else if str_eq(name, "hotg-rune-proc-blocks") {
        join_path(repo_dir, "proc-blocks/proc-blocks")
    } else if str_eq(name, "hotg-runicos-base-wasm") {
        join_path(repo_dir, "images/runicos-base/wasm")
    } else {
        let prefix = join_path(repo_dir, "proc-blocks");
        join_path(prefix.as_str(), name)
    }
}

/// Redirect every first-party dependency to the repository checkout, in a
/// `[patch.crates-io]` table and one for the canonical repository.
pub fn patch_hotg_dependencies(repo_dir: &str, manifest: &mut Manifest)
    ensures
        final(manifest)@ == spec_patched(old(manifest)@, repo_dir@),
{
    let ghost dm = deps_view(manifest.dependencies@);
    let mut overrides: DepsSet = Vec::new();
    proof {
        assert(deps_view(overrides@) =~= Seq::<(Seq<char>, DependencyModel)>::empty());
    }
    let n = manifest.dependencies.len();
    let mut i: usize = 0;
    while i < n
        invariant
            0 <= i <= n,
            n == manifest.dependencies@.len(),
            dm == deps_view(manifest.dependencies@),
            dm.len() == n,
            manifest.dependencies == old(manifest).dependencies,
            manifest.package == old(manifest).package,
            manifest.lib == old(manifest).lib,
            manifest.workspace == old(manifest).workspace,
            manifest.patch == old(manifest).patch,
            deps_view(overrides@) == spec_overrides(dm.take(i as int), repo_dir@),
        decreases n - i,
    {
        proof {
            assert(dm.take(i as int + 1).drop_last() =~= dm.take(i as int));
            assert(dm.take(i as int + 1).last() == dm[i as int]);
            assert(dm[i as int] == (
                manifest.dependencies@[i as int].0@,
                manifest.dependencies@[i as int].1@,
            ));
        }
        let name = &manifest.dependencies[i].0;
        let uses_hotg_github = match &manifest.dependencies[i].1 {
            Dependency::Detailed(d) => match &d.git {
                Some(g) => str_eq(g.as_str(), repo()),
                None => false,
            },
            Dependency::Simple(_) => false,
        };
        if str_starts_with(name.as_str(), "hotg-") || uses_hotg_github {
            let path = override_path(name.as_str(), repo_dir);
            sorted_insert_dep(&mut overrides, name.clone(), path_dependency(path));
        }
        i += 1;
    }
    proof {
        assert(dm.take(n as int) =~= dm);
    }
    let core_path = override_path("hotg-rune-core", repo_dir);
    sorted_insert_dep(
        &mut overrides,
        String::from_str("hotg-rune-core"),
        path_dependency(core_path),
    );
    let pb_path = override_path("hotg-rune-proc-blocks", repo_dir);
    sorted_insert_dep(
        &mut overrides,
        String::from_str("hotg-rune-proc-blocks"),
        path_dependency(pb_path),
    );
    proof {
        assert(deps_view(overrides@) == spec_all_overrides(dm, repo_dir@));
    }
    let overrides_again = clone_deps(&overrides);
    manifest.patch.push((String::from_str("crates-io"), overrides));
    manifest.patch.push((String::from_str("https://github.com/hotg-ai/rune"), overrides_again));
    proof {
        assert(patch_view(manifest.patch@) =~= patch_view(old(manifest).patch@) + seq![
            ("crates-io"@, spec_all_overrides(dm, repo_dir@)),
            (spec_repo(), spec_all_overrides(dm, repo_dir@)),
        ]);
    }
}

/// Copy a dependency table.
fn clone_deps(deps: &DepsSet) -> (r: DepsSet)
    ensures
        deps_view(r@) == deps_view(deps@),
{
    let n = deps.len();
    let mut out: DepsSet = Vec::new();
    let mut i: usize = 0;
    while i < n
        invariant
            0 <= i <= n,
            n == deps@.len(),
            out@.len() == i,
            forall|j: int|
                0 <= j < i ==> (#[trigger] out@[j]).0@ == deps@[j].0@ && out@[j].1@ == deps@[j].1@,
        decreases n - i,
    {
        let name = deps[i].0.clone();
        let dep = clone_dep(&deps[i].1);
        out.push((name, dep));
        i += 1;
    }
    proof {
        assert(deps_view(out@) =~= deps_view(deps@));
    }
    out
}

/// Copy one dependency.
fn clone_dep(dep: &Dependency) -> (r: Dependency)
    ensures
        r@ == (*dep)@,
{
    match dep {
        Dependency::Simple(v) => Dependency::Simple(v.clone()),
        Dependency::Detailed(d) => {
            let features = clone_string_vec(&d.features);
            Dependency::Detailed(
                DependencyDetail {
                    version: clone_opt_string(&d.version),
                    git: clone_opt_string(&d.git),
                    tag: clone_opt_string(&d.tag),
                    path: clone_opt_string(&d.path),
                    features,
                },
            )
        },
    }
}

fn clone_opt_string(v: &Option<String>) -> (r: Option<String>)
    ensures
        match (v, &r) {
            (Some(a), Some(b)) => a@ == b@,
            (None, None) => true,
            _ => false,
        },
{
    match v {
        Some(s) => Some(s.clone()),
        None => None,
    }
}

fn clone_string_vec(v: &Vec<String>) -> (r: Vec<String>)
    ensures
        crate::document::strings_view(r@) == crate::document::strings_view(v@),
{
    let n = v.len();
    let mut out: Vec<String> = Vec::new();
    let mut i: usize = 0;
    while i < n
        invariant
            0 <= i <= n,
            n == v@.len(),
            out@.len() == i,
            forall|j: int| 0 <= j < i ==> out@[j]@ == v@[j]@,
        decreases n - i,
    {
        out.push(v[i].clone());
        i += 1;
    }
    proof {
        assert(crate::document::strings_view(out@) =~= crate::document::strings_view(v@));
    }
    out
}


// ---------------------------------------------------------------------------
// Rendering to TOML text
// ---------------------------------------------------------------------------

/// A double-quoted TOML string (values are assumed to need no escaping).
pub open spec fn spec_quoted(s: Seq<char>) -> Seq<char> {
    seq!['"'] + s + seq!['"']
}

/// Append a quoted string.
fn push_quoted(out: &mut String, s: &str)
    ensures
        final(out)@ == old(out)@ + spec_quoted(s@),
{
    out.append("\"");
    out.append(s);
    out.append("\"");
    proof {
        reveal_strlit("\"");
        assert(out@ =~= old(out)@ + spec_quoted(s@));
    }
}

/// Parts joined by `", "`.
pub open spec fn spec_joined(parts: Seq<Seq<char>>) -> Seq<char>
    decreases parts.len(),
{
    if parts.len() == 0 {
        Seq::empty()
    } else if parts.len() == 1 {
        parts[0]
    } else {
        spec_joined(parts.drop_last()) + ", "@ + parts.last()
    }
}

/// Append parts joined by `", "`.
fn push_joined(out: &mut String, parts: &Vec<String>)
    ensures
        final(out)@ == old(out)@ + spec_joined(crate::document::strings_view(parts@)),
{
    let ghost pv = crate::document::strings_view(parts@);
    let n = parts.len();
    let mut i: usize = 0;
    while i < n
        invariant
            0 <= i <= n,
            n == parts@.len(),
            pv == crate::document::strings_view(parts@),
            pv.len() == n,
            out@ == old(out)@ + spec_joined(pv.take(i as int)),
        decreases n - i,
    {
        proof {
            assert(pv.take(i as int + 1).drop_last() =~= pv.take(i as int));
            assert(pv.take(i as int + 1).last() == pv[i as int]);
        }
        if i > 0 {
            out.append(", ");
        }
        out.append(parts[i].as_str());
        proof {
            if i == 0 {
                assert(pv.take(0int) =~= Seq::<Seq<char>>::empty());
                assert(out@ =~= old(out)@ + spec_joined(pv.take(i as int + 1)));
            } else {
                assert(out@ =~= old(out)@ + spec_joined(pv.take(i as int + 1)));
            }
        }
        i += 1;
    }
    proof {
        assert(pv.take(n as int) =~= pv);
    }
}

/// A TOML array of strings.
pub open spec fn spec_string_array(xs: Seq<Seq<char>>) -> Seq<char> {
    "["@ + spec_joined(xs.map_values(|x: Seq<char>| spec_quoted(x))) + "]"@
}

/// Append a TOML array of strings.
fn push_string_array(out: &mut String, xs: &Vec<String>)
    ensures
        final(out)@ == old(out)@ + spec_string_array(crate::document::strings_view(xs@)),
{
    let mut quoted: Vec<String> = Vec::new();
    let n = xs.len();
    let mut i: usize = 0;
    while i < n
        invariant
            0 <= i <= n,
            n == xs@.len(),
            quoted@.len() == i,
            forall|j: int| 0 <= j < i ==> out_quoted(#[trigger] quoted@[j]@, xs@[j]@),
        decreases n - i,
    {
        let mut q = String::new();
        push_quoted(&mut q, xs[i].as_str());
        quoted.push(q);
        i += 1;
    }
    out.append("[");
    push_joined(out, &quoted);
    out.append("]");
    proof {
        assert(crate::document::strings_view(quoted@) =~= crate::document::strings_view(
            xs@,
        ).map_values(|x: Seq<char>| spec_quoted(x)));
        assert(out@ =~= old(out)@ + spec_string_array(crate::document::strings_view(xs@)));
    }
}

/// Whether `q` is `x` in quotes.
pub open spec fn out_quoted(q: Seq<char>, x: Seq<char>) -> bool {
    q == spec_quoted(x)
}

/// The inline-table parts of a detailed dependency, in a fixed field order.
pub open spec fn spec_detail_parts(d: DependencyDetailModel) -> Seq<Seq<char>> {
    (match d.version {
        Some(v) => seq!["version = "@ + spec_quoted(v)],
        None => Seq::empty(),
    }) + (match d.git {
        Some(v) => seq!["git = "@ + spec_quoted(v)],
        None => Seq::empty(),
    }) + (match d.tag {
        Some(v) => seq!["tag = "@ + spec_quoted(v)],
        None => Seq::empty(),
    }) + (match d.path {
        Some(v) => seq!["path = "@ + spec_quoted(v)],
        None => Seq::empty(),
    }) + (if d.features.len() > 0 {
        seq!["features = "@ + spec_string_array(d.features)]
    } else {
        Seq::empty()
    })
}

/// A detailed dependency as an inline table.
pub open spec fn spec_render_detail(d: DependencyDetailModel) -> Seq<char> {
    let parts = spec_detail_parts(d);
    if parts.len() == 0 {
        "{}"@
    } else {
        "{ "@ + spec_joined(parts) + " }"@
    }
}

/// A dependency's value.
pub open spec fn spec_render_dep_value(d: DependencyModel) -> Seq<char> {
    match d {
        DependencyModel::Simple(v) => spec_quoted(v),
        DependencyModel::Detailed(detail) => spec_render_detail(detail),
    }
}

/// One `name = value` line.
pub open spec fn spec_render_dep_line(name: Seq<char>, d: DependencyModel) -> Seq<char> {
    spec_quoted(name) + " = "@ + spec_render_dep_value(d) + "\n"@
}

/// All lines of a dependency table.
pub open spec fn spec_render_deps(deps: Seq<(Seq<char>, DependencyModel)>) -> Seq<char>
    decreases deps.len(),
{
    if deps.len() == 0 {
        Seq::empty()
    } else {
        spec_render_deps(deps.drop_last()) + spec_render_dep_line(
            deps.last().0,
            deps.last().1,
        )
    }
}

/// Append one dependency's value.
fn push_dep_value(out: &mut String, d: &Dependency)
    ensures
        final(out)@ == old(out)@ + spec_render_dep_value((*d)@),
{
    match d {
        Dependency::Simple(v) => {
            push_quoted(out, v.as_str());
        },
        Dependency::Detailed(detail) => {
            let mut parts: Vec<String> = Vec::new();
            match &detail.version {
                Some(v) => {
                    let mut p = String::from_str("version = ");
                    push_quoted(&mut p, v.as_str());
                    parts.push(p);
                },
                None => {},
            }
            match &detail.git {
                Some(v) => {
                    let mut p = String::from_str("git = ");
                    push_quoted(&mut p, v.as_str());
                    parts.push(p);
                },
                None => {},
            }
            match &detail.tag {
                Some(v) => {
                    let mut p = String::from_str("tag = ");
                    push_quoted(&mut p, v.as_str());
                    parts.push(p);
                },
                None => {},
            }
            match &detail.path {
                Some(v) => {
                    let mut p = String::from_str("path = ");
                    push_quoted(&mut p, v.as_str());
                    parts.push(p);
                },
                None => {},
            }
            if detail.features.len() > 0 {
                let mut p = String::from_str("features = ");
                push_string_array(&mut p, &detail.features);
                parts.push(p);
            }
            proof {
                assert(crate::document::strings_view(parts@) =~= spec_detail_parts((*detail)@));
            }
            if parts.len() == 0 {
                out.append("{}");
            } else {
                out.append("{ ");
                push_joined(out, &parts);
                out.append(" }");
            }
            proof {
                assert(out@ =~= old(out)@ + spec_render_detail((*detail)@));
            }
        },
    }
}

/// Append a whole dependency table's lines.
fn push_deps(out: &mut String, deps: &DepsSet)
    ensures
        final(out)@ == old(out)@ + spec_render_deps(deps_view(deps@)),
{
    let ghost dm = deps_view(deps@);
    let n = deps.len();
    let mut i: usize = 0;
    while i < n
        invariant
            0 <= i <= n,
            n == deps@.len(),
            dm == deps_view(deps@),
            dm.len() == n,
            out@ == old(out)@ + spec_render_deps(dm.take(i as int)),
        decreases n - i,
    {
        proof {
            assert(dm.take(i as int + 1).drop_last() =~= dm.take(i as int));
            assert(dm.take(i as int + 1).last() == dm[i as int]);
            assert(dm[i as int] == (deps@[i as int].0@, deps@[i as int].1@));
        }
        push_quoted(out, deps[i].0.as_str());
        out.append(" = ");
        push_dep_value(out, &deps[i].1);
        out.append("\n");
        proof {
            assert(out@ =~= old(out)@ + spec_render_deps(dm.take(i as int + 1)));
        }
        i += 1;
    }
    proof {
        assert(dm.take(n as int) =~= dm);
    }
}

/// The patch sections.
pub open spec fn spec_render_patch(
    patch: Seq<(Seq<char>, Seq<(Seq<char>, DependencyModel)>)>,
) -> Seq<char>
    decreases patch.len(),
{
    if patch.len() == 0 {
        Seq::empty()
    } else {
        spec_render_patch(patch.drop_last()) + "\n[patch."@ + spec_quoted(patch.last().0)
            + "]\n"@ + spec_render_deps(patch.last().1)
    }
}

/// The `[package]` section's text.
pub open spec fn spec_package_text(p: Option<PackageModel>) -> Seq<char> {
    match p {
        Some(p) => "[package]\nname = "@ + spec_quoted(p.name) + "\nversion = "@ + spec_quoted(
            p.version,
        ) + "\nedition = "@ + spec_quoted(p.edition) + "\npublish = "@ + (if p.publish {
            "true"@
        } else {
            "false"@
        }) + "\nresolver = "@ + spec_quoted(p.resolver) + "\n\n"@,
        None => Seq::empty(),
    }
}

/// The `[lib]` section's text.
pub open spec fn spec_lib_text(l: Option<ProductModel>) -> Seq<char> {
    match l {
        Some(l) => "[lib]\n"@ + (match l.crate_type {
            Some(ct) => "crate-type = "@ + spec_string_array(ct) + "\n"@,
            None => Seq::empty(),
        }) + (match l.path {
            Some(pp) => "path = "@ + spec_quoted(pp) + "\n"@,
            None => Seq::empty(),
        }) + (match l.edition {
            Some(ed) => "edition = "@ + spec_quoted(ed) + "\n"@,
            None => Seq::empty(),
        }) + "\n"@,
        None => Seq::empty(),
    }
}

/// The `[workspace]` section's text.
pub open spec fn spec_workspace_text(w: Option<WorkspaceModel>) -> Seq<char> {
    match w {
        Some(w) => "\n[workspace]\nmembers = "@ + spec_string_array(w.members)
            + "\ndefault-members = "@ + spec_string_array(w.default_members) + "\n"@,
        None => Seq::empty(),
    }
}

/// The whole manifest as TOML text.
pub open spec fn spec_render_manifest(m: ManifestModel) -> Seq<char> {
    spec_package_text(m.package) + spec_lib_text(m.lib) + "[dependencies]\n"@
        + spec_render_deps(m.dependencies) + spec_workspace_text(m.workspace) + spec_render_patch(
        m.patch,
    )
}

/// Append the `[package]` section.
fn push_package(out: &mut String, p: &Option<Package>)
    ensures
        final(out)@ == old(out)@ + spec_package_text(match p {
            Some(p) => Some((*p)@),
            None => None::<PackageModel>,
        }),
{
    match p {
        Some(p) => {
            out.append("[package]\nname = ");
            push_quoted(out, p.name.as_str());
            out.append("\nversion = ");
            push_quoted(out, p.version.as_str());
            out.append("\nedition = ");
            push_quoted(out, p.edition.as_str());
            out.append("\npublish = ");
            if p.publish {
                out.append("true");
            } else {
                out.append("false");
            }
            out.append("\nresolver = ");
            push_quoted(out, p.resolver.as_str());
            out.append("\n\n");
            proof {
                assert(out@ =~= old(out)@ + spec_package_text(Some((*p)@)));
            }
        },
        None => {},
    }
}

/// Append the `[lib]` section.
fn push_lib(out: &mut String, l: &Option<Product>)
    ensures
        final(out)@ == old(out)@ + spec_lib_text(match l {
            Some(l) => Some((*l)@),
            None => None::<ProductModel>,
        }),
{
    match l {
        Some(l) => {
            out.append("[lib]\n");
            match &l.crate_type {
                Some(ct) => {
                    out.append("crate-type = ");
                    push_string_array(out, ct);
                    out.append("\n");
                },
                None => {},
            }
            match &l.path {
                Some(pp) => {
                    out.append("path = ");
                    push_quoted(out, pp.as_str());
                    out.append("\n");
                },
                None => {},
            }
            match &l.edition {
                Some(ed) => {
                    out.append("edition = ");
                    push_quoted(out, ed.as_str());
                    out.append("\n");
                },
                None => {},
            }
            out.append("\n");
            proof {
                assert(out@ =~= old(out)@ + spec_lib_text(Some((*l)@)));
            }
        },
        None => {},
    }
}

/// Append the `[workspace]` section.
fn push_workspace(out: &mut String, w: &Option<Workspace>)
    ensures
        final(out)@ == old(out)@ + spec_workspace_text(match w {
            Some(w) => Some((*w)@),
            None => None::<WorkspaceModel>,
        }),
{
    match w {
        Some(w) => {
            out.append("\n[workspace]\nmembers = ");
            push_string_array(out, &w.members);
            out.append("\ndefault-members = ");
            push_string_array(out, &w.default_members);
            out.append("\n");
            proof {
                assert(out@ =~= old(out)@ + spec_workspace_text(Some((*w)@)));
            }
        },
        None => {},
    }
}

/// Append the patch sections.
fn push_patch(out: &mut String, patch: &Vec<(String, DepsSet)>)
    ensures
        final(out)@ == old(out)@ + spec_render_patch(patch_view(patch@)),
{
    let ghost pm = patch_view(patch@);
    let n = patch.len();
    let mut i: usize = 0;
    while i < n
        invariant
            0 <= i <= n,
            n == patch@.len(),
            pm == patch_view(patch@),
            pm.len() == n,
            out@ == old(out)@ + spec_render_patch(pm.take(i as int)),
        decreases n - i,
    {
        proof {
            assert(pm.take(i as int + 1).drop_last() =~= pm.take(i as int));
            assert(pm.take(i as int + 1).last() == pm[i as int]);
            assert(pm[i as int] == (patch@[i as int].0@, deps_view(patch@[i as int].1@)));
        }
        out.append("\n[patch.");
        push_quoted(out, patch[i].0.as_str());
        out.append("]\n");
        push_deps(out, &patch[i].1);
        proof {
            assert(out@ =~= old(out)@ + spec_render_patch(pm.take(i as int + 1)));
        }
        i += 1;
    }
    proof {
        assert(pm.take(n as int) =~= pm);
    }
}

/// Render the manifest to TOML text.
pub fn render_manifest(m: &Manifest) -> (r: String)
    ensures
        r@ == spec_render_manifest((*m)@),
{
    let mut out = String::new();
    push_package(&mut out, &m.package);
    push_lib(&mut out, &m.lib);
    out.append("[dependencies]\n");
    push_deps(&mut out, &m.dependencies);
    push_workspace(&mut out, &m.workspace);
    push_patch(&mut out, &m.patch);
    proof {
        assert(out@ =~= spec_render_manifest((*m)@));
    }
    out
}

} // verus!
