//! The codegen query layer.
//!
//! A memoizing database: the build inputs are set once per build, queries
//! are computed on demand, and a computed result is cached. Rerunning a
//! query with equal inputs returns byte-identical results; setting any
//! input drops every derived entry.

use vstd::prelude::*;

use crate::ordering::entries_view;
use crate::ordering::spec_assoc;
use crate::ordering::str_eq;

use crate::build_context::BuildContext;
use crate::build_context::BuildContextModel;
use crate::build_context::FeatureFlags;
use crate::build_context::FeatureFlagsModel;
use crate::codegen::File;
use crate::codegen::FileModel;
use crate::codegen::generate;
use crate::codegen::generate_cargo_toml;
use crate::codegen::generate_config;
use crate::codegen::spec_bytes_of;
use crate::codegen::spec_cargo_config_text;
use crate::codegen::spec_cargo_toml_text;
use crate::codegen::spec_rune_source;
use crate::codegen::text_file;
use crate::document::Type;
use crate::lowering::Node;
use crate::lowering::StageKind;
use crate::path::Path;
use crate::path::PathModel;

verus! {

/// The view of a list of emitted files.
pub open spec fn files_view(fs: Seq<File>) -> Seq<FileModel> {
    fs.map_values(|f: File| f@)
}

/// The dependency paths of the processing blocks among `nodes`, in node
/// order.
pub open spec fn pbs_of_nodes(nodes: Seq<Node>) -> Seq<PathModel>
    decreases nodes.len(),
{
    if nodes.len() == 0 {
        Seq::empty()
    } else {
        let rest = pbs_of_nodes(nodes.drop_last());
        match nodes.last().kind {
            StageKind::ProcBlock { path, .. } => rest.push(path@),
            _ => rest,
        }
    }
}

/// The emitted file tree: the manifest, the build configuration, and the
/// entry source, in that order.
pub open spec fn spec_files(
    ctx: BuildContextModel,
    flags: FeatureFlagsModel,
    pbs: Seq<PathModel>,
) -> Seq<FileModel> {
    seq![
        FileModel {
            path: "Cargo.toml"@,
            data: spec_bytes_of(
                spec_cargo_toml_text(pbs, ctx.name, ctx.current_directory, flags.rune_repo_dir),
            ),
        },
        FileModel {
            path: ".cargo/config.toml"@,
            data: spec_bytes_of(spec_cargo_config_text(ctx.optimized)),
        },
        FileModel { path: "lib.rs"@, data: spec_bytes_of(spec_rune_source()) },
    ]
}

/// The memoizing query database.
pub struct Database {
    pub build_context: Option<BuildContext>,
    pub feature_flags: Option<FeatureFlags>,
    pub proc_block_names: Vec<String>,
    pub model_names: Vec<String>,
    pub node_inputs: Vec<(String, Vec<String>)>,
    pub node_outputs: Vec<(String, Vec<Type>)>,
    pub proc_block_info: Vec<(String, Path)>,
    pub model_info: Vec<(String, String)>,
    pub model_data: Vec<(String, Vec<u8>)>,
    /// The memoized file tree; meaningful only while [`Database::wf`]
    /// holds, which every method preserves.
    pub files_cache: Option<Vec<File>>,
}

impl Database {
    /// A computed file tree is exactly what the inputs determine.
    pub open spec fn wf(&self) -> bool {
        match self.files_cache {
            Some(ref fs) => self.build_context matches Some(ctx) && self.feature_flags matches Some(
                flags,
            ) && files_view(fs@) == spec_files(
                ctx@,
                flags@,
                crate::manifest::paths_view(
                    self.proc_block_info@.map_values(|e: (String, Path)| e.1),
                ),
            ),
            None => true,
        }
    }

    /// The paths of the registered processing blocks.
    pub open spec fn spec_pb_paths(&self) -> Seq<PathModel> {
        crate::manifest::paths_view(self.proc_block_info@.map_values(|e: (String, Path)| e.1))
    }

    /// An empty database.
    pub fn new() -> (r: Database)
        ensures
            r.wf(),
            r.build_context is None,
            r.feature_flags is None,
            r.proc_block_info@.len() == 0,
    {
        Database {
            build_context: None,
            feature_flags: None,
            proc_block_names: Vec::new(),
            model_names: Vec::new(),
            node_inputs: Vec::new(),
            node_outputs: Vec::new(),
            proc_block_info: Vec::new(),
            model_info: Vec::new(),
            model_data: Vec::new(),
            files_cache: None,
        }
    }

    /// Set the build context; derived results are dropped.
    pub fn set_build_context(&mut self, ctx: BuildContext)
        ensures
            final(self).wf(),
            final(self).build_context matches Some(c) && c@ == ctx@,
            final(self).feature_flags == old(self).feature_flags,
            final(self).proc_block_info == old(self).proc_block_info,
            final(self).proc_block_names == old(self).proc_block_names,
            final(self).model_names == old(self).model_names,
            final(self).node_inputs == old(self).node_inputs,
            final(self).node_outputs == old(self).node_outputs,
            final(self).model_info == old(self).model_info,
            final(self).model_data == old(self).model_data,
    {
        self.build_context = Some(ctx);
        self.files_cache = None;
    }

    /// Set the feature flags; derived results are dropped.
    pub fn set_feature_flags(&mut self, flags: FeatureFlags)
        ensures
            final(self).wf(),
            final(self).feature_flags matches Some(f) && f@ == flags@,
            final(self).build_context == old(self).build_context,
            final(self).proc_block_info == old(self).proc_block_info,
            final(self).proc_block_names == old(self).proc_block_names,
            final(self).model_names == old(self).model_names,
            final(self).node_inputs == old(self).node_inputs,
            final(self).node_outputs == old(self).node_outputs,
            final(self).model_info == old(self).model_info,
            final(self).model_data == old(self).model_data,
    {
        self.feature_flags = Some(flags);
        self.files_cache = None;
    }

    /// The emitted file tree. Computed once; a second call returns the
    /// cached files.
    pub fn files(&mut self) -> (r: &Vec<File>)
        requires
            old(self).wf(),
            old(self).build_context is Some,
            old(self).feature_flags is Some,
        ensures
            final(self).wf(),
            final(self).build_context == old(self).build_context,
            final(self).feature_flags == old(self).feature_flags,
            final(self).proc_block_info == old(self).proc_block_info,
            files_view(r@) == spec_files(
                old(self).build_context->0@,
                old(self).feature_flags->0@,
                old(self).spec_pb_paths(),
            ),
    {
        if self.files_cache.is_none() {
            let ctx = match &self.build_context {
                Some(c) => c,
                None => {
                    proof {
                        assert(false);
                    }
                    unreached()
                },
            };
            let flags = match &self.feature_flags {
                Some(f) => f,
                None => {
                    proof {
                        assert(false);
                    }
                    unreached()
                },
            };
            let mut pbs: Vec<Path> = Vec::new();
            let n = self.proc_block_info.len();
            let mut i: usize = 0;
            while i < n
                invariant
                    0 <= i <= n,
                    n == self.proc_block_info@.len(),
                    pbs@.len() == i,
                    forall|j: int| 0 <= j < i ==> (#[trigger] pbs@[j])@ == self.proc_block_info@[j].1@,
                decreases n - i,
            {
                pbs.push(self.proc_block_info[i].1.clone());
                i += 1;
            }
            proof {
                assert(crate::manifest::paths_view(pbs@) =~= self.spec_pb_paths());
            }
            let cargo_toml = generate_cargo_toml(
                &pbs,
                ctx.name.as_str(),
                ctx.current_directory.as_str(),
                &flags.rune_repo_dir,
            );
            let config = generate_config(ctx.optimized);
            let lib_rs = text_file("lib.rs", generate());
            let mut files: Vec<File> = Vec::new();
            files.push(cargo_toml);
            files.push(config);
            files.push(lib_rs);
            proof {
                assert(files_view(files@) =~= spec_files(
                    self.build_context->0@,
                    self.feature_flags->0@,
                    self.spec_pb_paths(),
                ));
            }
            self.files_cache = Some(files);
        }
        match &self.files_cache {
            Some(fs) => fs,
            None => {
                proof {
                    assert(false);
                }
                unreached()
            },
        }
    }
}

/// Copy a list of emitted files.
pub fn clone_files(fs: &Vec<File>) -> (r: Vec<File>)
    ensures
        files_view(r@) == files_view(fs@),
{
    let n = fs.len();
    let mut out: Vec<File> = Vec::new();
    let mut i: usize = 0;
    while i < n
        invariant
            0 <= i <= n,
            n == fs@.len(),
            out@.len() == i,
            forall|j: int| 0 <= j < i ==> (#[trigger] out@[j])@ == fs@[j]@,
        decreases n - i,
    {
        let f = &fs[i];
        let mut data: Vec<u8> = Vec::new();
        let dn = f.data.len();
        let mut d: usize = 0;
        while d < dn
            invariant
                0 <= d <= dn,
                dn == f.data@.len(),
                data@ == f.data@.take(d as int),
            decreases dn - d,
        {
            data.push(f.data[d]);
            proof {
                assert(data@ =~= f.data@.take(d as int + 1));
            }
            d += 1;
        }
        proof {
            assert(data@ =~= f.data@);
        }
        out.push(File { path: f.path.clone(), data });
        i += 1;
    }
    proof {
        assert(files_view(out@) =~= files_view(fs@));
    }
    out
}


/// The value registered under `name` in a name-keyed table.
fn table_get<'a, D>(table: &'a Vec<(String, D)>, name: &str) -> (r: Option<&'a D>)
    ensures
        match r {
            Some(d) => spec_assoc(entries_view(table@), name@) == Some(*d),
            None => spec_assoc(entries_view(table@), name@) is None,
        },
{
    let ghost em = entries_view(table@);
    let n = table.len();
    let mut found: Option<usize> = None;
    let mut i: usize = 0;
    while i < n
        invariant
            0 <= i <= n,
            n == table@.len(),
            em == entries_view(table@),
            em.len() == n,
            match found {
                Some(fi) => fi < i && spec_assoc(em.take(i as int), name@) == Some(
                    em[fi as int].1,
                ),
                None => spec_assoc(em.take(i as int), name@) is None,
            },
        decreases n - i,
    {
        proof {
            assert(em.take(i as int + 1).drop_last() =~= em.take(i as int));
            assert(em.take(i as int + 1).last() == em[i as int]);
            assert(em[i as int] == (table@[i as int].0@, table@[i as int].1));
        }
        if str_eq(table[i].0.as_str(), name) {
            found = Some(i);
        }
        i += 1;
    }
    proof {
        assert(em.take(n as int) =~= em);
    }
    match found {
        Some(fi) => Some(&table[fi].1),
        None => None,
    }
}

impl Database {
    /// The build context, once set.
    pub fn build_context(&self) -> (r: &Option<BuildContext>)
        ensures
            *r == self.build_context,
    {
        &self.build_context
    }

    /// The feature flags, once set.
    pub fn feature_flags(&self) -> (r: &Option<FeatureFlags>)
        ensures
            *r == self.feature_flags,
    {
        &self.feature_flags
    }

    /// The registered processing-block stage names, in sorted order.
    pub fn proc_block_names(&self) -> (r: &Vec<String>)
        ensures
            *r == self.proc_block_names,
    {
        &self.proc_block_names
    }

    /// The registered model stage names, in sorted order.
    pub fn model_names(&self) -> (r: &Vec<String>)
        ensures
            *r == self.model_names,
    {
        &self.model_names
    }

    /// The declared inputs of the named stage.
    pub fn node_inputs(&self, name: &str) -> (r: Option<&Vec<String>>)
        ensures
            match r {
                Some(v) => spec_assoc(entries_view(self.node_inputs@), name@) == Some(*v),
                None => spec_assoc(entries_view(self.node_inputs@), name@) is None,
            },
    {
        table_get(&self.node_inputs, name)
    }

    /// The declared outputs of the named stage.
    pub fn node_outputs(&self, name: &str) -> (r: Option<&Vec<Type>>)
        ensures
            match r {
                Some(v) => spec_assoc(entries_view(self.node_outputs@), name@) == Some(*v),
                None => spec_assoc(entries_view(self.node_outputs@), name@) is None,
            },
    {
        table_get(&self.node_outputs, name)
    }

    /// The dependency path of the named processing block.
    pub fn proc_block_info(&self, name: &str) -> (r: Option<&Path>)
        ensures
            match r {
                Some(v) => spec_assoc(entries_view(self.proc_block_info@), name@) == Some(*v),
                None => spec_assoc(entries_view(self.proc_block_info@), name@) is None,
            },
    {
        table_get(&self.proc_block_info, name)
    }

    /// The model file of the named model stage.
    pub fn model_info(&self, name: &str) -> (r: Option<&String>)
        ensures
            match r {
                Some(v) => spec_assoc(entries_view(self.model_info@), name@) == Some(*v),
                None => spec_assoc(entries_view(self.model_info@), name@) is None,
            },
    {
        table_get(&self.model_info, name)
    }

    /// The bytes of the named model, once a caller has loaded and stored
    /// them; reading model files is the caller's concern.
    pub fn model_data(&self, name: &str) -> (r: Option<&Vec<u8>>)
        ensures
            match r {
                Some(v) => spec_assoc(entries_view(self.model_data@), name@) == Some(*v),
                None => spec_assoc(entries_view(self.model_data@), name@) is None,
            },
    {
        table_get(&self.model_data, name)
    }

    /// Record the bytes of a model; derived results are dropped.
    pub fn set_model_data(&mut self, name: String, data: Vec<u8>)
        ensures
            final(self).wf(),
            final(self).build_context == old(self).build_context,
            final(self).feature_flags == old(self).feature_flags,
            final(self).proc_block_info == old(self).proc_block_info,
            entries_view(final(self).model_data@) == crate::ordering::spec_sorted_insert(
                entries_view(old(self).model_data@),
                name@,
                data,
            ),
    {
        crate::ordering::sorted_insert(&mut self.model_data, name, data);
        self.files_cache = None;
    }
}

} // verus!
