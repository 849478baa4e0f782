use rune_compiler::document::ArgValue;
use rune_compiler::document::Document;
use rune_compiler::document::Stage;
use rune_compiler::document::Type;
use rune_compiler::lowering::ArgumentValue;
use rune_compiler::lowering::Context;
use rune_compiler::lowering::StageKind;
use rune_compiler::lowering::analyse;
use rune_compiler::lowering::parse_input_ref;
use rune_compiler::path::Path;

fn dummy_document() -> Document {
    Document {
        image: Path::new("runicos/base".to_string(), None, None),
        pipeline: vec![
            (
                "audio".to_string(),
                Stage::Capability {
                    capability: "SOUND".to_string(),
                    outputs: vec![Type { ty: "i16".to_string(), dimensions: vec![16000] }],
                    args: vec![("hz".to_string(), ArgValue::Int(16000))],
                },
            ),
            (
                "fft".to_string(),
                Stage::ProcBlock {
                    proc_block: Path::parse("hotg-ai/rune#proc_blocks/fft").unwrap(),
                    inputs: vec!["audio".to_string()],
                    outputs: vec![Type { ty: "i8".to_string(), dimensions: vec![1960] }],
                    args: Vec::new(),
                },
            ),
            (
                "model".to_string(),
                Stage::Model {
                    model: "./model.tflite".to_string(),
                    inputs: vec!["fft".to_string()],
                    outputs: vec![Type { ty: "i8".to_string(), dimensions: vec![6] }],
                },
            ),
            (
                "label".to_string(),
                Stage::ProcBlock {
                    proc_block: Path::parse("hotg-ai/rune#proc_blocks/ohv_label").unwrap(),
                    inputs: vec!["model".to_string()],
                    outputs: vec![Type { ty: "utf8".to_string(), dimensions: Vec::new() }],
                    args: vec![(
                        "labels".to_string(),
                        ArgValue::List(vec![
                            ArgValue::Str("silence".to_string()),
                            ArgValue::Str("unknown".to_string()),
                            ArgValue::Str("up".to_string()),
                        ]),
                    )],
                },
            ),
            (
                "output".to_string(),
                Stage::Out {
                    out: "SERIAL".to_string(),
                    inputs: vec!["label".to_string()],
                    args: Vec::new(),
                },
            ),
        ],
    }
}

#[test]
fn register_all_stage_names() {
    let doc = dummy_document();
    let mut ctx = Context::new();

    ctx.register_names(&doc.pipeline);

    let expected = vec!["audio", "fft", "model", "label", "output"];
    for name in expected {
        assert!(ctx.names.get_id(name).is_some(), "{}", name);
    }
}

#[test]
fn register_all_stages() {
    let doc = dummy_document();
    let mut ctx = Context::new();
    let stages = vec!["audio", "fft", "model", "label", "output"];
    ctx.register_names(&doc.pipeline);

    ctx.register_stages(&doc.pipeline);

    for name in stages {
        assert!(ctx.rune.nodes.iter().any(|n| n.name == name), "{}", name);
    }
}

#[test]
fn nodes_are_sorted_by_name() {
    let doc = dummy_document();
    let (rune, diags) = analyse(&doc);
    assert!(!diags.has_errors());
    let names: Vec<&str> = rune.nodes.iter().map(|n| n.name.as_str()).collect();
    assert_eq!(names, vec!["audio", "fft", "label", "model", "output"]);
}

#[test]
fn edges_follow_declared_inputs() {
    let doc = dummy_document();
    let (rune, diags) = analyse(&doc);
    assert!(!diags.has_errors());
    // audio -> fft, fft -> model, model -> label, label -> output
    assert_eq!(rune.edges.len(), 4);
    for e in &rune.edges {
        let producer = &rune.nodes[e.producer];
        let consumer = &rune.nodes[e.consumer];
        assert_eq!(consumer.inputs[e.position], producer.name);
        assert_eq!(e.slot, 0);
    }
}

#[test]
fn unknown_inputs_are_reported() {
    let doc = Document {
        image: Path::new("runicos/base".to_string(), None, None),
        pipeline: vec![(
            "serial".to_string(),
            Stage::Out {
                out: "SERIAL".to_string(),
                inputs: vec!["missing".to_string()],
                args: Vec::new(),
            },
        )],
    };
    let (rune, diags) = analyse(&doc);
    assert!(diags.has_errors());
    assert_eq!(rune.edges.len(), 0);
}

#[test]
fn input_references_carry_slots() {
    assert_eq!(parse_input_ref("audio"), Some(("audio".to_string(), 0)));
    assert_eq!(parse_input_ref("fft.2"), Some(("fft".to_string(), 2)));
    assert_eq!(parse_input_ref("fft."), None);
    assert_eq!(parse_input_ref("fft.x"), None);
}

#[test]
fn list_arguments_must_hold_strings() {
    let ok = ArgValue::List(vec![ArgValue::Str("a".to_string())]);
    assert_eq!(
        ArgumentValue::of_value(&ok),
        Some(ArgumentValue::List(vec!["a".to_string()]))
    );
    let bad = ArgValue::List(vec![ArgValue::Int(1)]);
    assert_eq!(ArgumentValue::of_value(&bad), None);
}

#[test]
fn capability_stage_becomes_a_source() {
    let doc = dummy_document();
    let (rune, _diags) = analyse(&doc);
    let audio = rune.nodes.iter().find(|n| n.name == "audio").unwrap();
    match &audio.kind {
        StageKind::Source { kind, parameters } => {
            assert_eq!(kind, "SOUND");
            assert_eq!(parameters.len(), 1);
            assert_eq!(parameters[0].0, "hz");
            assert_eq!(parameters[0].1, ArgumentValue::Int(16000));
        },
        other => panic!("expected a source, got {:?}", other),
    }
}
