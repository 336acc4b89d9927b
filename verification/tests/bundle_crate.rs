use procon_bundler::bundle_crate::bundle_crate;
use procon_bundler::config_toml::ConfigToml;
use procon_bundler::resolver::ManualResolver;
use procon_bundler::error::BundlerError;
use procon_bundler::types::{Crate, Module, Span};

fn resolver(entries: &[(&str, &str)]) -> ManualResolver {
    ManualResolver::new(
        entries.iter().map(|(p, c)| (p.to_string(), c.to_string())).collect(),
    )
}

fn lines(ls: &[&str]) -> Span {
    Span::Lines(ls.iter().map(|l| l.to_string()).collect())
}

fn module(path: &str, is_test: bool, spans: Vec<Span>) -> Module {
    Module { path: path.to_string(), spans, is_test }
}

#[test]
fn test_bundle_single_module() {
    let r = resolver(&[(".", "hi,\nhello!\n")]);
    let result = bundle_crate("my_crate", r, ConfigToml::new("").unwrap()).unwrap();
    let expected = Crate {
        name: "my_crate".to_owned(),
        root: module(".", false, vec![lines(&["hi,", "hello!"])]),
    };
    assert_eq!(result, expected);
}

#[test]
fn test_skip_doc_comments_and_empty_line() {
    let r = resolver(&[(
        ".",
        "/*!\n    comments\n    comments\n*/\nstart\n\n/* block comments */\n// line comments\nstart\n/// doc comments\n    /// doc comments with inentation\n/// doc comments\n\ncontents\n/**\n    comments\n    comments\n*/\ncontents\nend\nend\n\n",
    )]);
    let result = bundle_crate("my_crate", r, ConfigToml::new("").unwrap()).unwrap();
    let expected = Crate {
        name: "my_crate".to_owned(),
        root: module(
            ".",
            false,
            vec![lines(&[
                "start",
                "/* block comments */",
                "// line comments",
                "start",
                "contents",
                "contents",
                "end",
                "end",
            ])],
        ),
    };
    assert_eq!(result, expected);
}

#[test]
fn test_simple_external_module() {
    let r = resolver(&[
        (".", "hi,\nmod a;\nhello!\n"),
        ("./a", "a also says: hi,\na also says: hello!\n"),
    ]);
    let result = bundle_crate("my_crate", r, ConfigToml::new("").unwrap()).unwrap();
    let expected = Crate {
        name: "my_crate".to_owned(),
        root: module(
            ".",
            false,
            vec![
                lines(&["hi,"]),
                Span::Module(Box::new(module(
                    "./a",
                    false,
                    vec![lines(&["a also says: hi,", "a also says: hello!"])],
                ))),
                lines(&["hello!"]),
            ],
        ),
    };
    assert_eq!(result, expected);
}

#[test]
fn test_test_external_module() {
    let r = resolver(&[
        (".", "hi,\n#[cfg(test)]\nmod a;\nhello!\n"),
        ("./a", "a also says: hi,\na also says: hello!\n"),
    ]);
    let result = bundle_crate("my_crate", r, ConfigToml::new("").unwrap()).unwrap();
    let expected = Crate {
        name: "my_crate".to_owned(),
        root: module(
            ".",
            false,
            vec![
                lines(&["hi,"]),
                Span::Module(Box::new(module(
                    "./a",
                    true,
                    vec![lines(&["a also says: hi,", "a also says: hello!"])],
                ))),
                lines(&["hello!"]),
            ],
        ),
    };
    assert_eq!(result, expected);
}

#[test]
fn test_inline_module() {
    let r = resolver(&[(
        ".",
        "hi,\nmod a {\n    hey\n   shallow\n     deep\n}\nhello!\n",
    )]);
    let result = bundle_crate("my_crate", r, ConfigToml::new("").unwrap()).unwrap();
    let expected = Crate {
        name: "my_crate".to_owned(),
        root: module(
            ".",
            false,
            vec![
                lines(&["hi,"]),
                Span::Module(Box::new(module(
                    "./a",
                    false,
                    vec![lines(&["hey", "shallow", " deep"])],
                ))),
                lines(&["hello!"]),
            ],
        ),
    };
    assert_eq!(result, expected);
}

#[test]
fn test_test_inline_module() {
    let r = resolver(&[(
        ".",
        "hi,\n#[cfg(test)]\nmod a {\n    hey\n   shallow\n     deep\n}\nhello!\n",
    )]);
    let result = bundle_crate("my_crate", r, ConfigToml::new("").unwrap()).unwrap();
    let expected = Crate {
        name: "my_crate".to_owned(),
        root: module(
            ".",
            false,
            vec![
                lines(&["hi,"]),
                Span::Module(Box::new(module(
                    "./a",
                    true,
                    vec![lines(&["hey", "shallow", " deep"])],
                ))),
                lines(&["hello!"]),
            ],
        ),
    };
    assert_eq!(result, expected);
}

#[test]
fn test_deep_inline_module() {
    let r = resolver(&[(
        ".",
        "begin .\nmod a {\n    begin a\n    mod b {\n        begin b\n        mod c {\n            begin c\n            mod d {\n                begin d\n                end d\n            }\n            end c\n        }\n        end b\n    }\n    end a\n}\nend .\n",
    )]);
    let result = bundle_crate("my_crate", r, ConfigToml::new("").unwrap()).unwrap();
    let expected = Crate {
        name: "my_crate".to_owned(),
        root: module(
            ".",
            false,
            vec![
                lines(&["begin ."]),
                Span::Module(Box::new(module(
                    "./a",
                    false,
                    vec![
                        lines(&["begin a"]),
                        Span::Module(Box::new(module(
                            "./a/b",
                            false,
                            vec![
                                lines(&["begin b"]),
                                Span::Module(Box::new(module(
                                    "./a/b/c",
                                    false,
                                    vec![
                                        lines(&["begin c"]),
                                        Span::Module(Box::new(module(
                                            "./a/b/c/d",
                                            false,
                                            vec![lines(&["begin d", "end d"])],
                                        ))),
                                        lines(&["end c"]),
                                    ],
                                ))),
                                lines(&["end b"]),
                            ],
                        ))),
                        lines(&["end a"]),
                    ],
                ))),
                lines(&["end ."]),
            ],
        ),
    };
    assert_eq!(result, expected);
}

#[test]
fn test_deep_external_module() {
    let r = resolver(&[
        (".", "begin .\nmod a;\nend .\n"),
        ("./a", "begin a\nmod b;\nend a\n"),
        ("./a/b", "begin b\nmod c;\nend b\n"),
        ("./a/b/c", "begin c\nmod d;\nend c\n"),
        ("./a/b/c/d", "begin d\nend d\n"),
    ]);
    let result = bundle_crate("my_crate", r, ConfigToml::new("").unwrap()).unwrap();
    let expected = Crate {
        name: "my_crate".to_owned(),
        root: module(
            ".",
            false,
            vec![
                lines(&["begin ."]),
                Span::Module(Box::new(module(
                    "./a",
                    false,
                    vec![
                        lines(&["begin a"]),
                        Span::Module(Box::new(module(
                            "./a/b",
                            false,
                            vec![
                                lines(&["begin b"]),
                                Span::Module(Box::new(module(
                                    "./a/b/c",
                                    false,
                                    vec![
                                        lines(&["begin c"]),
                                        Span::Module(Box::new(module(
                                            "./a/b/c/d",
                                            false,
                                            vec![lines(&["begin d", "end d"])],
                                        ))),
                                        lines(&["end c"]),
                                    ],
                                ))),
                                lines(&["end b"]),
                            ],
                        ))),
                        lines(&["end a"]),
                    ],
                ))),
                lines(&["end ."]),
            ],
        ),
    };
    assert_eq!(result, expected);
}

#[test]
fn test_many_inline_module() {
    let r = resolver(&[(
        ".",
        "begin .\nmod a {\n    begin a\n    end a\n}\nbetween a and b\nbetween a and b\nbetween a and b\nmod b {\n    begin b\n    end b\n}\nbetween b and c\nbetween b and c\nbetween b and c\nmod c {\n    begin c\n    end c\n}\nend .\n",
    )]);
    let result = bundle_crate("my_crate", r, ConfigToml::new("").unwrap()).unwrap();
    let expected = Crate {
        name: "my_crate".to_owned(),
        root: module(
            ".",
            false,
            vec![
                lines(&["begin ."]),
                Span::Module(Box::new(module("./a", false, vec![lines(&["begin a", "end a"])]))),
                lines(&["between a and b", "between a and b", "between a and b"]),
                Span::Module(Box::new(module("./b", false, vec![lines(&["begin b", "end b"])]))),
                lines(&["between b and c", "between b and c", "between b and c"]),
                Span::Module(Box::new(module("./c", false, vec![lines(&["begin c", "end c"])]))),
                lines(&["end ."]),
            ],
        ),
    };
    assert_eq!(result, expected);
}

#[test]
fn test_many_moules_in_deep_module() {
    let r = resolver(&[
        (".", "mod a;\n"),
        ("./a", "mod b {\n    mod c;\n}\n"),
        ("./a/b/c", "mod d;\n"),
        (
            "./a/b/c/d",
            "before e\nbefore e\nbefore e\nmod e {\n    mod f;\n}\nbetween e and g\nbetween e and g\nbetween e and g\nmod g;\nafter g\nafter g\nafter g\n",
        ),
        ("./a/b/c/d/e/f", "in f"),
        ("./a/b/c/d/g", "in g"),
    ]);
    let result = bundle_crate("my_crate", r, ConfigToml::new("").unwrap()).unwrap();
    let expected = Crate {
        name: "my_crate".to_owned(),
        root: module(
            ".",
            false,
            vec![Span::Module(Box::new(module(
                "./a",
                false,
                vec![Span::Module(Box::new(module(
                    "./a/b",
                    false,
                    vec![Span::Module(Box::new(module(
                        "./a/b/c",
                        false,
                        vec![Span::Module(Box::new(module(
                            "./a/b/c/d",
                            false,
                            vec![
                                lines(&["before e", "before e", "before e"]),
                                Span::Module(Box::new(module(
                                    "./a/b/c/d/e",
                                    false,
                                    vec![Span::Module(Box::new(module(
                                        "./a/b/c/d/e/f",
                                        false,
                                        vec![lines(&["in f"])],
                                    )))],
                                ))),
                                lines(&["between e and g", "between e and g", "between e and g"]),
                                Span::Module(Box::new(module(
                                    "./a/b/c/d/g",
                                    false,
                                    vec![lines(&["in g"])],
                                ))),
                                lines(&["after g", "after g", "after g"]),
                            ],
                        )))],
                    )))],
                )))],
            )))],
        ),
    };
    assert_eq!(result, expected);
}

fn build_sample_config_toml() -> ConfigToml {
    ConfigToml::new(
        r#"
        [dependencies]
        crate_a = { path = "../crate_a" }
        crate_b = { path = "../crate_b" }
        crate_c = { path = "../crate_c" }
        crate_d = { path = "../crate_d" }
    "#,
    )
    .unwrap()
}

#[test]
fn test_simple_substitution() {
    let r = resolver(&[(".", "use crate_a::item_a;\n")]);
    let result = bundle_crate("my_crate", r, build_sample_config_toml()).unwrap();
    let expected = Crate {
        name: "my_crate".to_owned(),
        root: module(".", false, vec![lines(&["use crate::crate_a::item_a;"])]),
    };
    assert_eq!(result, expected);
}

#[test]
fn test_substitute_at_deep_module() {
    let r = resolver(&[(".", "mod a {\n    use crate_a::item_a;\n}\n")]);
    let result = bundle_crate("my_crate", r, build_sample_config_toml()).unwrap();
    let expected = Crate {
        name: "my_crate".to_owned(),
        root: module(
            ".",
            false,
            vec![Span::Module(Box::new(module(
                "./a",
                false,
                vec![lines(&["use crate::crate_a::item_a;"])],
            )))],
        ),
    };
    assert_eq!(result, expected);
}

#[test]
fn substitution_unknown_name_unchanged() {
    let r = resolver(&[(".", "use crate_never::f;\n")]);
    let result = bundle_crate("my_crate", r, build_sample_config_toml()).unwrap();
    let expected = Crate {
        name: "my_crate".to_owned(),
        root: module(".", false, vec![lines(&["use crate_never::f;"])]),
    };
    assert_eq!(result, expected);
}

#[test]
fn substitution_dollar_crate() {
    let r = resolver(&[(".", "$crate::a\ncrate::a\nx crate::a\n")]);
    let result = bundle_crate("my_crate", r, build_sample_config_toml()).unwrap();
    let expected = Crate {
        name: "my_crate".to_owned(),
        root: module(
            ".",
            false,
            vec![lines(&["$crate::my_crate::a", "crate::a", "x crate::my_crate::a"])],
        ),
    };
    assert_eq!(result, expected);
}

#[test]
fn missing_module_is_reported() {
    let r = resolver(&[(".", "mod a;\n")]);
    let result = bundle_crate("my_crate", r, ConfigToml::new("").unwrap());
    assert_eq!(result, Err(BundlerError::ModuleFileNotFound { mod_path: "./a".to_owned() }));
}

#[test]
fn unterminated_module_is_reported() {
    let r = resolver(&[(".", "mod a {\n    x\n")]);
    let result = bundle_crate("my_crate", r, ConfigToml::new("").unwrap());
    assert_eq!(result, Err(BundlerError::UnterminatedModule { mod_path: "./a".to_owned() }));
}

#[test]
fn scenario_external_module_splits_content() {
    let r = resolver(&[(".", "hi,\nmod a;\nhello!\n"), ("./a", "a says hi\n")]);
    let result = bundle_crate("my_crate", r, ConfigToml::new("").unwrap()).unwrap();
    let expected = Crate {
        name: "my_crate".to_owned(),
        root: module(
            ".",
            false,
            vec![
                lines(&["hi,"]),
                Span::Module(Box::new(module("./a", false, vec![lines(&["a says hi"])]))),
                lines(&["hello!"]),
            ],
        ),
    };
    assert_eq!(result, expected);
}

#[test]
fn scenario_block_doc_comment_is_dropped() {
    let r = resolver(&[(".", "/*! a comment\nmore of it\n*/\nstart\n")]);
    let result = bundle_crate("my_crate", r, ConfigToml::new("").unwrap()).unwrap();
    let expected = Crate {
        name: "my_crate".to_owned(),
        root: module(".", false, vec![lines(&["start"])]),
    };
    assert_eq!(result, expected);
}

#[test]
fn scenario_test_module_never_reaches_the_output() {
    let r = resolver(&[(".", "#[cfg(test)]\nmod a {\n    x\n}\n")]);
    let built = bundle_crate("my_crate", r, ConfigToml::new("").unwrap()).unwrap();
    match &built.root.spans[0] {
        Span::Module(m) => assert!(m.is_test),
        other => panic!("expected a module span, found {:?}", other),
    }
    let text = procon_bundler::fmt::format_crate_to_string(built);
    let expected =
        "// my_crate {{{\n#[allow(dead_code)]\nmod my_crate {\n}\n// }}}\n";
    assert_eq!(text, expected);
}
