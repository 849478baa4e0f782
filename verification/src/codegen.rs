//! Code generation: the emitted source tree.
//!
//! Three artifacts are produced, each as a [`File`]: the package manifest
//! (`Cargo.toml`), the build configuration (`.cargo/config.toml`), and the
//! entry source (`lib.rs`). Given equal inputs the emitted bytes are
//! identical; everything here is a pure function of the build context, the
//! feature flags, and the declared processing blocks.

use vstd::prelude::*;
use vstd::string::StrSliceExecFns;
use vstd::string::StringExecFns;

use crate::manifest::Manifest;
use crate::manifest::generate_manifest;
use crate::manifest::patch_hotg_dependencies;
use crate::manifest::render_manifest;
use crate::manifest::spec_generate_manifest;
use crate::manifest::spec_patched;
use crate::manifest::spec_render_manifest;
use crate::path::Path;
use crate::path::PathModel;

verus! {

/// The bytes a text encodes to.
pub open spec fn spec_bytes_of(s: Seq<char>) -> Seq<u8> {
    vstd::utf8::encode_utf8(s)
}

/// One emitted file: where it goes in the generated tree, and its bytes.
#[derive(Debug, PartialEq)]
pub struct File {
    pub path: String,
    pub data: Vec<u8>,
}

/// The mathematical shape of a [`File`].
pub struct FileModel {
    pub path: Seq<char>,
    pub data: Seq<u8>,
}

impl View for File {
    type V = FileModel;

    open spec fn view(&self) -> FileModel {
        FileModel { path: self.path@, data: self.data@ }
    }
}

impl File {
    /// A file from its path and bytes.
    pub fn new(path: &str, data: Vec<u8>) -> (r: File)
        ensures
            r@.path == path@,
            r@.data == data@,
    {
        File { path: String::from_str(path), data }
    }
}

/// A text file: the data is the UTF-8 encoding of the text.
pub fn text_file(path: &str, text: String) -> (r: File)
    ensures
        r@.path == path@,
        r@.data == spec_bytes_of(text@),
{
    let bytes = vstd::slice::slice_to_vec(text.as_str().as_bytes());
    File { path: String::from_str(path), data: bytes }
}

// ---------------------------------------------------------------------------
// Build configuration
// ---------------------------------------------------------------------------

/// The `.cargo/config.toml` text: always build for
/// `wasm32-unknown-unknown` with git fetched by the CLI; an optimized build
/// additionally strips the binary at link time.
pub open spec fn spec_cargo_config_text(optimized: bool) -> Seq<char> {
    (if optimized {
        "[target.wasm32-unknown-unknown]\nrustflags = [\"-C\", \"link-arg=-s\"]\n\n"@
    } else {
        Seq::empty()
    }) + "[net]\ngit-fetch-with-cli = true\n\n[build]\ntarget = \"wasm32-unknown-unknown\"\n"@
}

/// Generate the `.cargo/config.toml` file.
pub fn generate_config(optimized: bool) -> (r: File)
    ensures
        r@.path == ".cargo/config.toml"@,
        r@.data == spec_bytes_of(spec_cargo_config_text(optimized)),
{
    let mut text = String::new();
    if optimized {
        text.append("[target.wasm32-unknown-unknown]\nrustflags = [\"-C\", \"link-arg=-s\"]\n\n");
    }
    text.append("[net]\ngit-fetch-with-cli = true\n\n[build]\ntarget = \"wasm32-unknown-unknown\"\n");
    proof {
        assert(text@ =~= spec_cargo_config_text(optimized));
    }
    text_file(".cargo/config.toml", text)
}

// ---------------------------------------------------------------------------
// The entry source
// ---------------------------------------------------------------------------

/// The generated crate's `lib.rs`: a fixed preamble declaring the
/// no-standard-environment and the global pipeline holder, a `_manifest`
/// export that builds the pipeline closure and stores it, and a `_call`
/// export that runs it. The exported names and signatures are a stable ABI
/// with the runtime and must not change.
pub open spec fn spec_rune_source() -> Seq<char> {
    "#![no_std]\n#![feature(alloc_error_handler)]\n#![allow(unused_imports, dead_code)]\n\nextern crate alloc;\n\nuse alloc::boxed::Box;\nuse runic_types::*;\nuse runic_types::wasm32::*;\n\nstatic mut PIPELINE: Option<Box<dyn FnMut()>> = None;\n\n#[no_mangle]\npub extern \"C\" fn _manifest() -> u32 {\n    let _setup = SetupGuard::default();\n\n    let pipeline = move || {\n        let _guard = PipelineGuard::default();\n    };\n\n    unsafe {\n        PIPELINE = Some(Box::new(pipeline));\n    }\n\n    1\n}\n\n#[no_mangle]\npub extern \"C\" fn _call(\n    _capability_type: i32,\n    _input_type: i32,\n    _capability_idx: i32,\n) -> i32 {\n    unsafe {\n        let pipeline = PIPELINE.as_mut().expect(\"the rune has not been initialized\");\n        pipeline();\n\n        0\n    }\n}\n"@
}

/// Generate the Rune's `lib.rs` source.
pub fn generate() -> (r: String)
    ensures
        r@ == spec_rune_source(),
{
    String::from_str(
        "#![no_std]\n#![feature(alloc_error_handler)]\n#![allow(unused_imports, dead_code)]\n\nextern crate alloc;\n\nuse alloc::boxed::Box;\nuse runic_types::*;\nuse runic_types::wasm32::*;\n\nstatic mut PIPELINE: Option<Box<dyn FnMut()>> = None;\n\n#[no_mangle]\npub extern \"C\" fn _manifest() -> u32 {\n    let _setup = SetupGuard::default();\n\n    let pipeline = move || {\n        let _guard = PipelineGuard::default();\n    };\n\n    unsafe {\n        PIPELINE = Some(Box::new(pipeline));\n    }\n\n    1\n}\n\n#[no_mangle]\npub extern \"C\" fn _call(\n    _capability_type: i32,\n    _input_type: i32,\n    _capability_idx: i32,\n) -> i32 {\n    unsafe {\n        let pipeline = PIPELINE.as_mut().expect(\"the rune has not been initialized\");\n        pipeline();\n\n        0\n    }\n}\n",
    )
}

// ---------------------------------------------------------------------------
// The manifest file
// ---------------------------------------------------------------------------

/// The text of the generated `Cargo.toml` for the given processing blocks
/// and build settings, first-party crates patched to `repo_dir` when one is
/// given.
pub open spec fn spec_cargo_toml_text(
    pbs: Seq<PathModel>,
    name: Seq<char>,
    current_dir: Seq<char>,
    repo_dir: Option<Seq<char>>,
) -> Seq<char> {
    let m = spec_generate_manifest(pbs, name, current_dir);
    match repo_dir {
        Some(dir) => spec_render_manifest(spec_patched(m, dir)),
        None => spec_render_manifest(m),
    }
}

/// Generate the `Cargo.toml` file which includes all the relevant
/// dependencies for the generated crate.
pub fn generate_cargo_toml(
    proc_blocks: &Vec<Path>,
    name: &str,
    current_dir: &str,
    repo_dir: &Option<String>,
) -> (r: File)
    ensures
        r@.path == "Cargo.toml"@,
        r@.data == spec_bytes_of(
            spec_cargo_toml_text(
                crate::manifest::paths_view(proc_blocks@),
                name@,
                current_dir@,
                match repo_dir {
                    Some(d) => Some(d@),
                    None => None::<Seq<char>>,
                },
            ),
        ),
{
    let mut m: Manifest = generate_manifest(proc_blocks, name, current_dir);
    match repo_dir {
        Some(dir) => {
            patch_hotg_dependencies(dir.as_str(), &mut m);
        },
        None => {},
    }
    let text = render_manifest(&m);
    text_file("Cargo.toml", text)
}

} // verus!
