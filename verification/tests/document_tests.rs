use rune_compiler::document::ArgValue;
use rune_compiler::document::Document;
use rune_compiler::document::ParseError;
use rune_compiler::document::Stage;
use rune_compiler::document::Type;
use rune_compiler::path::Path;
use rune_compiler::yaml::Yaml;

#[test]
fn parse_yaml_pipeline() {
    let src = r#"
image: "runicos/base"

pipeline:
  audio:
    capability: SOUND
    outputs:
    - type: i16
      dimensions: [16000]
    args:
      hz: 16000

  fft:
    proc-block: "hotg-ai/rune#proc_blocks/fft"
    inputs:
    - audio
    outputs:
    - type: i8
      dimensions: [1960]

  model:
    model: "./model.tflite"
    inputs:
    - fft
    outputs:
    - type: i8
      dimensions: [6]

  label:
    proc-block: "hotg-ai/rune#proc_blocks/ohv_label"
    inputs:
    - model
    outputs:
    - type: utf8
    args:
      labels: ["silence", "unknown", "up", "down", "left", "right"]

  output:
    out: SERIAL
    inputs:
    - label
        "#;
    let should_be = Document {
        image: Path::new("runicos/base".to_string(), None, None),
        pipeline: vec![
            (
                "audio".to_string(),
                Stage::Capability {
                    capability: "SOUND".to_string(),
                    outputs: vec![Type { ty: "i16".to_string(), dimensions: vec![16000] }],
                    args: vec![("hz".to_string(), ArgValue::Int(16000))],
                },
            ),
            (
                "fft".to_string(),
                Stage::ProcBlock {
                    proc_block: Path::parse("hotg-ai/rune#proc_blocks/fft").unwrap(),
                    inputs: vec!["audio".to_string()],
                    outputs: vec![Type { ty: "i8".to_string(), dimensions: vec![1960] }],
                    args: Vec::new(),
                },
            ),
            (
                "model".to_string(),
                Stage::Model {
                    model: "./model.tflite".to_string(),
                    inputs: vec!["fft".to_string()],
                    outputs: vec![Type { ty: "i8".to_string(), dimensions: vec![6] }],
                },
            ),
            (
                "label".to_string(),
                Stage::ProcBlock {
                    proc_block: Path::parse("hotg-ai/rune#proc_blocks/ohv_label").unwrap(),
                    inputs: vec!["model".to_string()],
                    outputs: vec![Type { ty: "utf8".to_string(), dimensions: Vec::new() }],
                    args: vec![(
                        "labels".to_string(),
                        ArgValue::List(vec![
                            ArgValue::Str("silence".to_string()),
                            ArgValue::Str("unknown".to_string()),
                            ArgValue::Str("up".to_string()),
                            ArgValue::Str("down".to_string()),
                            ArgValue::Str("left".to_string()),
                            ArgValue::Str("right".to_string()),
                        ]),
                    )],
                },
            ),
            (
                "output".to_string(),
                Stage::Out {
                    out: "SERIAL".to_string(),
                    inputs: vec!["label".to_string()],
                    args: Vec::new(),
                },
            ),
        ],
    };

    let got = Document::parse(src).unwrap();

    assert_eq!(got, should_be);
}

#[test]
fn parse_audio_block() {
    let src = r#"
              capability: SOUND
              outputs:
              - type: i16
                dimensions: [16000]
              args:
                hz: 16000
        "#;
    let should_be = Stage::Capability {
        capability: "SOUND".to_string(),
        outputs: vec![Type { ty: "i16".to_string(), dimensions: vec![16000] }],
        args: vec![("hz".to_string(), ArgValue::Int(16000))],
    };

    let got = Stage::parse(src).unwrap();

    assert_eq!(got, should_be);
}

#[test]
fn parse_values() {
    let inputs = vec![
        ("42", ArgValue::Int(42)),
        ("3.14", ArgValue::Float("3.14".to_string())),
        ("\"42\"", ArgValue::Str("42".to_string())),
        (
            "[1, 2.0, \"asdf\"]",
            ArgValue::List(vec![
                ArgValue::Int(1),
                ArgValue::Float("2.0".to_string()),
                ArgValue::Str("asdf".to_string()),
            ]),
        ),
    ];

    for (src, should_be) in inputs {
        let got = ArgValue::parse(src).unwrap();
        assert_eq!(got, should_be);
    }
}

fn sine_runefile() -> &'static str {
    r#"
image: runicos/base

pipeline:
  rand:
    capability: RAND
    outputs:
    - type: f32
      dimensions: [1]

  sine:
    model: "./sine.tflite"
    inputs:
    - rand
    outputs:
    - type: f32
      dimensions: [1]

  serial:
    out: SERIAL
    inputs:
    - sine
"#
}

#[test]
fn document_round_trip_through_yaml_data() {
    let doc = Document::parse(sine_runefile()).unwrap();
    let yaml = doc.to_yaml();
    let reparsed = Document::from_yaml(&yaml).unwrap();
    assert_eq!(reparsed, doc);
}

/// The same round trip through real YAML text, the text encoding done by
/// the YAML library itself.
#[test]
fn document_round_trip_through_yaml_text() {
    let doc = Document::parse(sine_runefile()).unwrap();
    let value = to_serde(&doc.to_yaml());
    let text = serde_yaml::to_string(&value).unwrap();
    let reparsed = Document::parse(&text).unwrap();
    assert_eq!(reparsed, doc);
}

fn to_serde(y: &Yaml) -> serde_yaml::Value {
    match y {
        Yaml::Null => serde_yaml::Value::Null,
        Yaml::Bool(b) => serde_yaml::Value::Bool(*b),
        Yaml::Int(i) => serde_yaml::Value::Number(serde_yaml::Number::from(*i)),
        Yaml::Float(t) => {
            let f: f64 = t.parse().unwrap();
            serde_yaml::Value::Number(serde_yaml::Number::from(f))
        },
        Yaml::Str(s) => serde_yaml::Value::String(s.clone()),
        Yaml::List(items) => serde_yaml::Value::Sequence(items.iter().map(to_serde).collect()),
        Yaml::Mapping(entries) => {
            let mut m = serde_yaml::Mapping::new();
            for (k, v) in entries {
                m.insert(serde_yaml::Value::String(k.clone()), to_serde(v));
            }
            serde_yaml::Value::Mapping(m)
        },
    }
}

#[test]
fn syntax_errors_carry_an_offset() {
    let got = Document::parse("@not yaml: [");
    match got {
        Err(ParseError::Syntax { .. }) => {},
        other => panic!("expected a syntax error, got {:?}", other),
    }
}

#[test]
fn structure_errors_name_the_problem() {
    match Document::parse("42") {
        Err(ParseError::Structure { message }) => {
            assert_eq!(message, "the Runefile must be a YAML mapping");
        },
        other => panic!("unexpected result: {:?}", other),
    }
    match Document::parse("pipeline: {}") {
        Err(ParseError::Structure { message }) => {
            assert_eq!(message, "the Runefile needs an \"image\" entry");
        },
        other => panic!("unexpected result: {:?}", other),
    }
    match Document::parse("image: runicos/base\nsurprise: 1\npipeline: {}") {
        Err(ParseError::Structure { message }) => {
            assert_eq!(message, "the Runefile has an unknown top-level key");
        },
        other => panic!("unexpected result: {:?}", other),
    }
    match Document::parse("image: runicos/base\npipeline:\n  bad:\n    mystery: 1\n") {
        Err(ParseError::Structure { message }) => {
            assert_eq!(message, "the stage \"bad\" is not well-formed");
        },
        other => panic!("unexpected result: {:?}", other),
    }
}

#[test]
fn unknown_stage_keys_are_rejected() {
    let src = "image: runicos/base\npipeline:\n  audio:\n    capability: SOUND\n    inputs: []\n";
    // a capability takes no inputs, so `inputs` is an unknown key there
    assert!(Document::parse(src).is_err());
}

#[test]
fn version_key_is_accepted() {
    let src = "image: runicos/base\nversion: 1\npipeline: {}\n";
    let doc = Document::parse(src).unwrap();
    assert_eq!(doc.pipeline.len(), 0);
}
