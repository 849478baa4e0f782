use rune_compiler::diagnostics::Severity;
use rune_compiler::document::Document;
use rune_compiler::document::Type;
use rune_compiler::lowering::analyse;
use rune_compiler::type_check::types_compatible;

#[test]
fn detect_pipeline_cycle() {
    let src = r#"
image: runicos/base
version: 1

pipeline:
  audio:
    proc-block: "hotg-ai/rune#proc_blocks/fft"
    inputs:
    - model
    outputs:
    - type: i16
      dimensions: [16000]

  fft:
    proc-block: "hotg-ai/rune#proc_blocks/fft"
    inputs:
    - audio
    outputs:
    - type: i8
      dimensions: [1960]

  model:
    model: "./model.tflite"
    inputs:
    - fft
    outputs:
    - type: i8
      dimensions: [6]
            "#;
    let doc = Document::parse(src).unwrap();

    let (_rune, diags) = analyse(&doc);

    assert!(diags.has_errors());
    let errors = diags.of_severity(Severity::Error);
    assert_eq!(errors.len(), 1);
    let diag = errors[0];
    assert_eq!(diag.message, "Cycle detected when checking \"audio\"");
    assert!(diag.notes[0].message.contains("model"));
    assert!(diag.notes[1].message.contains("fft"));
    assert_eq!(
        diag.notes[2].message,
        "... which receives input from \"audio\", completing the cycle."
    );
}

#[test]
fn acyclic_pipelines_pass() {
    let src = r#"
image: runicos/base

pipeline:
  audio:
    capability: SOUND
    outputs:
    - type: i16
      dimensions: [16000]

  serial:
    out: SERIAL
    inputs:
    - audio
"#;
    let doc = Document::parse(src).unwrap();
    let (_rune, diags) = analyse(&doc);
    assert!(!diags.has_errors());
}

#[test]
fn a_sink_with_no_inputs_is_an_error() {
    let src = r#"
image: runicos/base

pipeline:
  audio:
    capability: SOUND
    outputs:
    - type: i16
      dimensions: [16000]

  serial:
    out: SERIAL
"#;
    let doc = Document::parse(src).unwrap();
    let (_rune, diags) = analyse(&doc);
    assert!(diags.has_errors());
}

#[test]
fn citing_a_missing_output_slot_is_an_error() {
    let src = r#"
image: runicos/base

pipeline:
  audio:
    capability: SOUND
    outputs:
    - type: i16
      dimensions: [16000]

  serial:
    out: SERIAL
    inputs:
    - audio.3
"#;
    let doc = Document::parse(src).unwrap();
    let (_rune, diags) = analyse(&doc);
    assert!(diags.has_errors());
}

#[test]
fn unreachable_stages_are_flagged() {
    let src = r#"
image: runicos/base

pipeline:
  audio:
    capability: SOUND
    outputs:
    - type: i16
      dimensions: [16000]

  orphan:
    model: "./orphan.tflite"
    outputs:
    - type: i8
      dimensions: [1]

  serial:
    out: SERIAL
    inputs:
    - audio
"#;
    let doc = Document::parse(src).unwrap();
    let (_rune, diags) = analyse(&doc);
    assert!(!diags.has_errors());
    let warnings = diags.of_severity(Severity::Warning);
    assert!(warnings.iter().any(|d| d.message.contains("orphan")));
}

#[test]
fn tensor_type_compatibility() {
    let i16_16000 = Type { ty: "i16".to_string(), dimensions: vec![16000] };
    let i16_any = Type { ty: "i16".to_string(), dimensions: Vec::new() };
    let i8_16000 = Type { ty: "i8".to_string(), dimensions: vec![16000] };
    let open = Type { ty: String::new(), dimensions: Vec::new() };

    // no expectation accepts anything
    assert!(types_compatible(&i16_16000, None));
    // an open element type accepts any element
    assert!(types_compatible(&i16_16000, Some(&open)));
    // equal element types, one side without dimensions: permissive
    assert!(types_compatible(&i16_16000, Some(&i16_any)));
    assert!(types_compatible(&i16_any, Some(&i16_16000)));
    // element types must agree
    assert!(!types_compatible(&i16_16000, Some(&i8_16000)));
    // dimensions must agree element-wise when both declare them
    let i16_8000 = Type { ty: "i16".to_string(), dimensions: vec![8000] };
    assert!(!types_compatible(&i16_16000, Some(&i16_8000)));
}
