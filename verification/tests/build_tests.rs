use rune_compiler::build_context::BuildContext;
use rune_compiler::build_context::FeatureFlags;
use rune_compiler::build_context::Verbosity;
use rune_compiler::diagnostics::Diagnostics;
use rune_compiler::phases::Continuation;
use rune_compiler::phases::Hooks;
use rune_compiler::phases::HookPoint;
use rune_compiler::phases::World;
use rune_compiler::phases::build;
use rune_compiler::phases::build_with_hooks;
use rune_compiler::queries::Database;
use rune_compiler::text::Text;

fn sine_context(optimized: bool) -> BuildContext {
    let runefile = r#"
image: runicos/base

pipeline:
  rand:
    capability: RAND
    outputs:
    - type: f32
      dimensions: [1]

  sine:
    model: "./sine.tflite"
    inputs:
    - rand
    outputs:
    - type: f32
      dimensions: [1]

  serial:
    out: SERIAL
    inputs:
    - sine
"#;
    BuildContext {
        name: "sine".to_string(),
        runefile: runefile.to_string(),
        working_directory: ".".to_string(),
        current_directory: ".".to_string(),
        optimized,
        verbosity: Verbosity::Normal,
        rune_version: None,
    }
}

#[test]
fn minimal_sine_pipeline_builds_three_files() {
    let (world, diags) = build(sine_context(false));

    assert!(!diags.has_errors());
    let files = world.files.unwrap();
    assert_eq!(files.len(), 3);
    assert_eq!(files[0].path, "Cargo.toml");
    assert_eq!(files[1].path, ".cargo/config.toml");
    assert_eq!(files[2].path, "lib.rs");

    let manifest = String::from_utf8(files[0].data.clone()).unwrap();
    let parsed: toml::Value = toml::from_str(&manifest).unwrap();
    let deps = parsed.get("dependencies").unwrap().as_table().unwrap();
    assert_eq!(deps.len(), 5);
    for name in [
        "hotg-rune-core",
        "hotg-rune-proc-blocks",
        "hotg-runicos-base-wasm",
        "log",
        "lazy_static",
    ] {
        assert!(deps.contains_key(name), "{}", name);
    }

    let config = String::from_utf8(files[1].data.clone()).unwrap();
    let parsed: toml::Value = toml::from_str(&config).unwrap();
    assert_eq!(
        parsed.get("build").unwrap().as_table().unwrap().get("target").unwrap().as_str().unwrap(),
        "wasm32-unknown-unknown"
    );
}

#[test]
fn optimized_builds_strip_the_binary() {
    let (world, _diags) = build(sine_context(true));
    let files = world.files.unwrap();
    let config = String::from_utf8(files[1].data.clone()).unwrap();
    let parsed: toml::Value = toml::from_str(&config).unwrap();
    assert!(parsed.get("target").is_some());

    let (world, _diags) = build(sine_context(false));
    let files = world.files.unwrap();
    let config = String::from_utf8(files[1].data.clone()).unwrap();
    let parsed: toml::Value = toml::from_str(&config).unwrap();
    assert!(parsed.get("target").is_none());
}

#[test]
fn equal_inputs_build_byte_identical_trees() {
    let (w1, _d1) = build(sine_context(true));
    let (w2, _d2) = build(sine_context(true));
    let f1 = w1.files.unwrap();
    let f2 = w2.files.unwrap();
    assert_eq!(f1.len(), f2.len());
    for (a, b) in f1.iter().zip(f2.iter()) {
        assert_eq!(a.path, b.path);
        assert_eq!(a.data, b.data);
    }
}

struct HaltAfterParse {
    fired: Vec<HookPoint>,
}

impl Hooks for HaltAfterParse {
    fn before_parse(&mut self, _world: &World, _diags: &Diagnostics) -> Continuation {
        self.fired.push(HookPoint::BeforeParse);
        Continuation::Continue
    }

    fn after_parse(&mut self, _world: &World, _diags: &Diagnostics) -> Continuation {
        self.fired.push(HookPoint::AfterParse);
        Continuation::Halt
    }

    fn after_lowering(&mut self, _world: &World, _diags: &Diagnostics) -> Continuation {
        self.fired.push(HookPoint::AfterLowering);
        Continuation::Continue
    }

    fn after_type_checking(&mut self, _world: &World, _diags: &Diagnostics) -> Continuation {
        self.fired.push(HookPoint::AfterTypeChecking);
        Continuation::Continue
    }

    fn after_codegen(&mut self, _world: &World, _diags: &Diagnostics) -> Continuation {
        self.fired.push(HookPoint::AfterCodegen);
        Continuation::Continue
    }

    fn after_compile(&mut self, _world: &World, _diags: &Diagnostics) -> Continuation {
        self.fired.push(HookPoint::AfterCompile);
        Continuation::Continue
    }
}

#[test]
fn a_halting_hook_stops_the_pipeline() {
    let mut hooks = HaltAfterParse { fired: Vec::new() };
    let (world, _diags) = build_with_hooks(sine_context(false), FeatureFlags::production(), &mut hooks);

    assert_eq!(world.halted, Some(HookPoint::AfterParse));
    assert!(world.document.is_some());
    assert!(world.rune.is_none());
    assert!(world.files.is_none());
    // no phase after the halting hook ran, so no later hook fired
    assert_eq!(hooks.fired, vec![HookPoint::BeforeParse, HookPoint::AfterParse]);
}

#[test]
fn override_directory_patches_the_manifest() {
    let flags = FeatureFlags::development(Some("/tmp/rune".to_string()));
    let mut hooks = rune_compiler::phases::NopHooks;
    let (world, diags) = build_with_hooks(sine_context(false), flags, &mut hooks);
    assert!(!diags.has_errors());
    let files = world.files.unwrap();
    let manifest = String::from_utf8(files[0].data.clone()).unwrap();
    let parsed: toml::Value = toml::from_str(&manifest).unwrap();
    let patch = parsed.get("patch").unwrap().as_table().unwrap();
    let crates_io = patch.get("crates-io").unwrap().as_table().unwrap();
    for name in ["hotg-rune-core", "hotg-rune-proc-blocks", "hotg-runicos-base-wasm"] {
        let entry = crates_io.get(name).unwrap().as_table().unwrap();
        let path = entry.get("path").unwrap().as_str().unwrap();
        assert!(path.starts_with("/tmp/rune"), "{}", path);
    }
}

#[test]
fn rejected_runefiles_report_errors_and_no_document() {
    let mut ctx = sine_context(false);
    ctx.runefile = "not: [valid".to_string();
    let (world, diags) = build(ctx);
    assert!(diags.has_errors());
    assert!(world.document.is_none());
}

#[test]
fn verbosity_flags() {
    assert_eq!(
        Verbosity::from_quiet_and_verbose(false, false),
        Some(Verbosity::Normal)
    );
    assert_eq!(
        Verbosity::from_quiet_and_verbose(true, false),
        Some(Verbosity::Quiet)
    );
    assert_eq!(
        Verbosity::from_quiet_and_verbose(false, true),
        Some(Verbosity::Verbose)
    );
    assert_eq!(Verbosity::from_quiet_and_verbose(true, true), None);
    assert_eq!(Verbosity::Quiet.flag(), Some("--quiet"));
    assert_eq!(Verbosity::Verbose.flag(), Some("--verbose"));
    assert_eq!(Verbosity::Normal.flag(), None);
}

#[test]
fn text_shares_its_characters() {
    let t = Text::new("audio".to_string());
    assert_eq!(t.as_str(), "audio");
}

#[test]
fn the_query_database_answers_by_name() {
    let mut db = Database::new();
    db.set_build_context(sine_context(false));
    db.set_feature_flags(FeatureFlags::production());
    db.set_model_data("sine".to_string(), vec![1, 2, 3]);

    assert_eq!(db.model_data("sine"), Some(&vec![1u8, 2, 3]));
    assert_eq!(db.model_data("missing"), None);
    assert!(db.build_context().is_some());
    assert!(db.feature_flags().is_some());
    assert_eq!(db.proc_block_names().len(), 0);
    assert_eq!(db.model_names().len(), 0);
    assert_eq!(db.node_inputs("sine"), None);
    assert_eq!(db.node_outputs("sine"), None);
    assert_eq!(db.proc_block_info("sine"), None);
    assert_eq!(db.model_info("sine"), None);
}
