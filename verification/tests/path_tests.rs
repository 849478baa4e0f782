use rune_compiler::path::Path;

#[test]
fn parse_paths() {
    let inputs = vec![
        ("asdf", Path::new("asdf".to_string(), None, None)),
        ("runicos/base", Path::new("runicos/base".to_string(), None, None)),
        (
            "runicos/base@0.1.2",
            Path::new("runicos/base".to_string(), None, Some("0.1.2".to_string())),
        ),
        (
            "runicos/base@latest",
            Path::new("runicos/base".to_string(), None, Some("latest".to_string())),
        ),
        (
            "https://github.com/hotg-ai/rune",
            Path::new("https://github.com/hotg-ai/rune".to_string(), None, None),
        ),
        (
            "https://github.com/hotg-ai/rune@2",
            Path::new(
                "https://github.com/hotg-ai/rune".to_string(),
                None,
                Some("2".to_string()),
            ),
        ),
        (
            "hotg-ai/rune@v1.2#proc_blocks/normalize",
            Path::new(
                "hotg-ai/rune".to_string(),
                Some("proc_blocks/normalize".to_string()),
                Some("v1.2".to_string()),
            ),
        ),
    ];

    for (src, should_be) in inputs {
        let got: Path = Path::parse(src).unwrap();
        assert_eq!(got, should_be);
    }
}

#[test]
fn path_round_trip() {
    let sources = vec![
        "asdf",
        "runicos/base@0.1.2",
        "hotg-ai/rune@v1.2#proc_blocks/normalize",
        "https://github.com/hotg-ai/rune@2",
    ];
    for src in sources {
        let p = Path::parse(src).unwrap();
        let rendered = p.render();
        let reparsed = Path::parse(rendered.as_str()).unwrap();
        assert_eq!(reparsed, p);
    }
}

#[test]
fn render_is_canonical() {
    let p = Path::new(
        "hotg-ai/rune".to_string(),
        Some("proc_blocks/normalize".to_string()),
        Some("v1.2".to_string()),
    );
    assert_eq!(p.render(), "hotg-ai/rune@v1.2#proc_blocks/normalize");
}

#[test]
fn reject_malformed_paths() {
    assert!(Path::parse("").is_err());
    assert!(Path::parse("foo bar").is_err());
    assert!(Path::parse("name@").is_err());
    assert!(Path::parse("name#").is_err());
    assert!(Path::parse("a@b@c").is_err());
}
