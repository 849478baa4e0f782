use rune_compiler::codegen::generate;
use rune_compiler::codegen::generate_config;
use rune_compiler::manifest::Dependency;
use rune_compiler::manifest::DependencyDetail;
use rune_compiler::manifest::dep_get;
use rune_compiler::manifest::dependencies;
use rune_compiler::manifest::empty_dependency_detail;
use rune_compiler::manifest::generate_manifest;
use rune_compiler::manifest::is_builtin;
use rune_compiler::manifest::patch_hotg_dependencies;
use rune_compiler::manifest::proc_block_dependency;
use rune_compiler::manifest::render_manifest;
use rune_compiler::manifest::repo;
use rune_compiler::path::Path;

/// The version of the first-party crates this build was made against.
const CORE_VERSION: &str = "0.11.3";

#[test]
fn request_small_binaries_when_optimised() {
    let mut target_table = toml::Table::new();
    let mut wasm_target = toml::Table::new();
    wasm_target.insert(
        "rustflags".to_string(),
        toml::Value::Array(vec![
            toml::Value::String("-C".to_string()),
            toml::Value::String("link-arg=-s".to_string()),
        ]),
    );
    target_table.insert(
        "wasm32-unknown-unknown".to_string(),
        toml::Value::Table(wasm_target),
    );
    let mut net = toml::Table::new();
    net.insert("git-fetch-with-cli".to_string(), toml::Value::Boolean(true));
    let mut build = toml::Table::new();
    build.insert(
        "target".to_string(),
        toml::Value::String("wasm32-unknown-unknown".to_string()),
    );
    let mut should_be = toml::Table::new();
    should_be.insert("target".to_string(), toml::Value::Table(target_table));
    should_be.insert("net".to_string(), toml::Value::Table(net));
    should_be.insert("build".to_string(), toml::Value::Table(build));

    let got = generate_config(true);

    let text = String::from_utf8(got.data.clone()).unwrap();
    let parsed: toml::Value = toml::from_str(&text).unwrap();
    assert_eq!(parsed, toml::Value::Table(should_be));
}

#[test]
fn only_git_fetch_with_cli_for_debug_builds() {
    let mut net = toml::Table::new();
    net.insert("git-fetch-with-cli".to_string(), toml::Value::Boolean(true));
    let mut build = toml::Table::new();
    build.insert(
        "target".to_string(),
        toml::Value::String("wasm32-unknown-unknown".to_string()),
    );
    let mut should_be = toml::Table::new();
    should_be.insert("net".to_string(), toml::Value::Table(net));
    should_be.insert("build".to_string(), toml::Value::Table(build));

    let got = generate_config(false);

    let text = String::from_utf8(got.data.clone()).unwrap();
    let parsed: toml::Value = toml::from_str(&text).unwrap();
    assert_eq!(parsed, toml::Value::Table(should_be));
}

#[test]
fn base_dependencies() {
    let got = dependencies(&Vec::new(), ".");

    assert_eq!(got.len(), 5);
    assert!(dep_get(&got, "log").is_some());
    assert!(dep_get(&got, "lazy_static").is_some());
    assert!(dep_get(&got, "hotg-rune-core").is_some());
    assert!(dep_get(&got, "hotg-rune-proc-blocks").is_some());
    assert!(dep_get(&got, "hotg-runicos-base-wasm").is_some());

    assert_eq!(
        dep_get(&got, "hotg-rune-core").unwrap(),
        &Dependency::Simple(CORE_VERSION.to_string())
    );
    assert_eq!(
        dep_get(&got, "hotg-rune-proc-blocks").unwrap(),
        &Dependency::Simple(CORE_VERSION.to_string())
    );
    assert_eq!(
        dep_get(&got, "hotg-runicos-base-wasm").unwrap(),
        &Dependency::Simple(CORE_VERSION.to_string())
    );
}

#[test]
fn builtin_proc_blocks_always_use_nightly_tag() {
    let path = Path::parse("hotg-ai/rune#proc_blocks/modulo").unwrap();
    assert!(is_builtin(&path));
    let mut should_be = empty_dependency_detail();
    should_be.git = Some(repo().to_string());
    should_be.tag = Some(format!("v{}", CORE_VERSION));

    let got = proc_block_dependency(&path, ".");

    assert_eq!(got, should_be);
}

#[test]
fn external_proc_block() {
    let path = Path::parse("whatever@1.2").unwrap();
    let mut should_be = empty_dependency_detail();
    should_be.version = Some("1.2".to_string());

    let got = proc_block_dependency(&path, ".");

    assert_eq!(got, should_be);
}

#[test]
fn local_proc_blocks_resolve_relative_to_the_current_directory() {
    let path = Path::parse("./my-block").unwrap();
    let got = proc_block_dependency(&path, "/work");
    let mut should_be = empty_dependency_detail();
    should_be.path = Some("/work/./my-block".to_string());
    assert_eq!(got, should_be);
}

#[test]
fn other_repositories_fall_back_to_git() {
    let path = Path::parse("someone/block").unwrap();
    let got = proc_block_dependency(&path, ".");
    let mut should_be = empty_dependency_detail();
    should_be.git = Some("https://github.com/someone/block.git".to_string());
    assert_eq!(got, should_be);
}

#[test]
fn git_fallback_takes_the_tag_from_the_version() {
    let path = Path::parse("someone/block@v2").unwrap();
    let got = proc_block_dependency(&path, ".");
    let mut should_be = empty_dependency_detail();
    should_be.git = Some("https://github.com/someone/block.git".to_string());
    should_be.tag = Some("v2".to_string());
    assert_eq!(got, should_be);
}

#[test]
fn manifest_generates_cdylib() {
    let got = generate_manifest(&Vec::new(), "foo", ".");

    let crate_type = got.lib.unwrap().crate_type.unwrap();
    assert!(crate_type.contains(&"cdylib".to_string()));
}

#[test]
fn manifest_is_in_its_own_workspace() {
    let got = generate_manifest(&Vec::new(), "foo", ".");

    assert!(got.workspace.is_some());
}

#[test]
fn override_patch_redirects_first_party_crates() {
    let mut manifest = generate_manifest(&Vec::new(), "foo", ".");

    patch_hotg_dependencies("/tmp/rune", &mut manifest);

    assert_eq!(manifest.patch.len(), 2);
    assert_eq!(manifest.patch[0].0, "crates-io");
    assert_eq!(manifest.patch[1].0, repo());
    for (_table, overrides) in &manifest.patch {
        for name in ["hotg-rune-core", "hotg-rune-proc-blocks", "hotg-runicos-base-wasm"] {
            let dep = dep_get(overrides, name).unwrap();
            match dep {
                Dependency::Detailed(DependencyDetail { path: Some(p), .. }) => {
                    assert!(p.starts_with("/tmp/rune"), "{}", p);
                },
                other => panic!("expected a path override, got {:?}", other),
            }
        }
    }
}

#[test]
fn patched_manifest_renders_patch_tables() {
    let mut manifest = generate_manifest(&Vec::new(), "foo", ".");
    patch_hotg_dependencies("/tmp/rune", &mut manifest);

    let text = render_manifest(&manifest);
    let parsed: toml::Value = toml::from_str(&text).unwrap();
    let patch = parsed.get("patch").unwrap().as_table().unwrap();
    let crates_io = patch.get("crates-io").unwrap().as_table().unwrap();
    let core = crates_io.get("hotg-rune-core").unwrap().as_table().unwrap();
    assert_eq!(
        core.get("path").unwrap().as_str().unwrap(),
        "/tmp/rune/crates/rune-core"
    );
}

#[test]
fn rendered_manifest_is_valid_toml() {
    let pbs = vec![
        Path::parse("hotg-ai/rune#proc_blocks/fft").unwrap(),
        Path::parse("whatever@1.2").unwrap(),
    ];
    let manifest = generate_manifest(&pbs, "sine", ".");
    let text = render_manifest(&manifest);
    let parsed: toml::Value = toml::from_str(&text).unwrap();

    let package = parsed.get("package").unwrap().as_table().unwrap();
    assert_eq!(package.get("name").unwrap().as_str().unwrap(), "sine");
    assert_eq!(package.get("version").unwrap().as_str().unwrap(), "0.0.0");
    assert_eq!(package.get("edition").unwrap().as_str().unwrap(), "2018");
    assert_eq!(package.get("publish").unwrap().as_bool().unwrap(), false);
    assert_eq!(package.get("resolver").unwrap().as_str().unwrap(), "2");

    let deps = parsed.get("dependencies").unwrap().as_table().unwrap();
    assert!(deps.contains_key("fft"));
    assert_eq!(
        deps.get("whatever").unwrap().as_table().unwrap().get("version").unwrap().as_str().unwrap(),
        "1.2"
    );

    let workspace = parsed.get("workspace").unwrap().as_table().unwrap();
    assert!(workspace.contains_key("members"));
}

#[test]
fn entry_source_exports_the_runtime_abi() {
    let source = generate();
    assert!(source.contains("pub extern \"C\" fn _manifest() -> u32"));
    assert!(source.contains("pub extern \"C\" fn _call("));
    assert!(source.contains("#![no_std]"));
}
