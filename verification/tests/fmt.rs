use procon_bundler::types::{Crate, Module, Span};
use procon_bundler::writer::CrateWriter;

fn lines(ls: &[&str]) -> Span {
    Span::Lines(ls.iter().map(|l| l.to_string()).collect())
}

fn sample_flat_root() -> Module {
    Module {
        is_test: false,
        path: ".".to_owned(),
        spans: vec![lines(&["1", "2", "3", "4"])],
    }
}

fn sample_deep_root() -> Module {
    Module {
        is_test: false,
        path: ".".to_owned(),
        spans: vec![
            lines(&["start root"]),
            Span::Module(Box::new(Module {
                is_test: false,
                path: "./a".to_owned(),
                spans: vec![
                    lines(&["start a"]),
                    Span::Module(Box::new(Module {
                        is_test: false,
                        path: "./a/b".to_owned(),
                        spans: vec![lines(&["in b"])],
                    })),
                    lines(&["end a"]),
                ],
            })),
            lines(&["end root"]),
        ],
    }
}

#[test]
fn test_single_module() {
    let w = CrateWriter { name: "holy_crate", root: &sample_flat_root() };
    let result = w.to_text();
    let expected = "mod holy_crate {\n    1\n    2\n    3\n    4\n}\n";
    assert_eq!(result, expected);
}

#[test]
fn test_deep_modules() {
    let w = CrateWriter { name: "holy_crate", root: &sample_deep_root() };
    let result = w.to_text();
    let expected = "mod holy_crate {\n    start root\n    mod a {\n        start a\n        mod b {\n            in b\n        }\n        end a\n    }\n    end root\n}\n";
    assert_eq!(result, expected);
}

#[test]
fn fmt_test_single_module() {
    let w = Crate { name: "holy_crate".to_owned(), root: sample_flat_root() };
    let result = procon_bundler::fmt::format_crate_to_string(w);
    let expected = "// holy_crate {{{\n#[allow(dead_code)]\nmod holy_crate {\n    1\n    2\n    3\n    4\n}\n// }}}\n";
    assert_eq!(result, expected);
}

#[test]
fn fmt_test_deep_modules() {
    let w = Crate { name: "holy_crate".to_owned(), root: sample_deep_root() };
    let result = procon_bundler::fmt::format_crate_to_string(w);
    let expected = "// holy_crate {{{\n#[allow(dead_code)]\nmod holy_crate {\n    start root\n    mod a {\n        start a\n        mod b {\n            in b\n        }\n        end a\n    }\n    end root\n}\n// }}}\n";
    assert_eq!(result, expected);
}

#[test]
fn prettify_test_single_module() {
    let w = Crate { name: "holy_crate".to_owned(), root: sample_flat_root() };
    let result = procon_bundler::prettify::format_crate_to_string(w);
    let expected = "// holy_crate {{{\n// https://ngtkana.github.io/ac-adapter-rs/holy_crate/index.html\n\n#[allow(dead_code)]\nmod holy_crate {\n    1\n    2\n    3\n    4\n}\n// }}}";
    assert_eq!(result, expected);
}

#[test]
fn prettify_test_deep_modules() {
    let w = Crate { name: "holy_crate".to_owned(), root: sample_deep_root() };
    let result = procon_bundler::prettify::format_crate_to_string(w);
    let expected = "// holy_crate {{{\n// https://ngtkana.github.io/ac-adapter-rs/holy_crate/index.html\n\n#[allow(dead_code)]\nmod holy_crate {\n    start root\n    mod a {\n        start a\n        mod b {\n            in b\n        }\n        end a\n    }\n    end root\n}\n// }}}";
    assert_eq!(result, expected);
}

#[test]
fn test_module_subtree_is_dropped_from_output() {
    let w = Crate {
        name: "my_crate".to_owned(),
        root: Module {
            is_test: false,
            path: ".".to_owned(),
            spans: vec![
                lines(&["hi,"]),
                Span::Module(Box::new(Module {
                    is_test: true,
                    path: "./a".to_owned(),
                    spans: vec![lines(&["x"])],
                })),
                lines(&["hello!"]),
            ],
        },
    };
    let result = procon_bundler::fmt::format_crate_to_string(w);
    let expected = "// my_crate {{{\n#[allow(dead_code)]\nmod my_crate {\n    hi,\n    hello!\n}\n// }}}\n";
    assert_eq!(result, expected);
}

#[test]
fn dashes_in_crate_name_become_underscores() {
    let w = Crate {
        name: "my-crate".to_owned(),
        root: Module { is_test: false, path: ".".to_owned(), spans: vec![] },
    };
    let result = procon_bundler::fmt::format_crate_to_string(w);
    let expected = "// my_crate {{{\n#[allow(dead_code)]\nmod my_crate {\n}\n// }}}\n";
    assert_eq!(result, expected);
}
