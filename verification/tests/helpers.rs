use procon_bundler::bundle::make::make;
use procon_bundler::bundle::remove_test_modules;
use procon_bundler::bundle::wrap::wrap;
use procon_bundler::find_crate::{find, join_paths};
use procon_bundler::modules::data_structures::Location;
use procon_bundler::modules::extract;
use procon_bundler::remove::remove;

#[test]
fn make_reads_name_and_dependency_names() {
    let made = make(
        "[package]\nname = \"my-lib\"\nversion = \"0.1.0\"\n\n[dependencies]\nalpha = \"1\"\nbeta = { path = \"../beta\" }\n\n[dev-dependencies]\ngamma = \"2\"\n",
    );
    assert_eq!(made.name, "my-lib");
    assert_eq!(made.deps, vec!["alpha".to_owned(), "beta".to_owned()]);
}

#[test]
fn wrap_frames_a_file_into_a_fold_marked_module() {
    let result = wrap("a\n\nb", "m");
    let expected = "// m {{{\n#[allow(dead_code)]\n    mod m {\n    a\n\n    b\n}\n// }}}";
    assert_eq!(result, expected);
}

#[test]
fn remove_cleans_docs_tests_and_dependency_paths() {
    let content = "use dep_a::x;\n/// doc\n#[cfg(test)]\nmod tests {\n    t\n}\nend\n\n";
    let result = remove(content, &["dep_a".to_owned()]);
    assert_eq!(result, "use crate::constant::x;\nend");
}

#[test]
fn remove_without_tests_only_filters_and_trims() {
    let result = remove("x\n//! inner doc\ny\n\n\n", &[]);
    assert_eq!(result, "x\ny");
}

#[test]
fn extract_finds_inline_and_external_declarations() {
    let found = extract("mod a;\npub mod b {\nplain line\npub(crate) mod c;\n");
    assert_eq!(found.len(), 3);
    assert_eq!(found[0].vis.0, "");
    assert_eq!(found[0].name.0, "a");
    assert_eq!(found[0].location, Location::External);
    assert_eq!(found[1].vis.0, "pub");
    assert_eq!(found[1].name.0, "b");
    assert_eq!(found[1].location, Location::Inline);
    assert_eq!(found[2].vis.0, "pub(crate)");
    assert_eq!(found[2].name.0, "c");
    assert_eq!(found[2].location, Location::External);
}

#[test]
fn remove_test_modules_drops_marked_blocks() {
    let lines: Vec<String> = ["#[cfg(test)]", "mod t {", "x", "}", "after"]
        .iter()
        .map(|s| s.to_string())
        .collect();
    let result = remove_test_modules(lines);
    assert_eq!(result, vec!["after".to_owned()]);
}

#[test]
fn find_joins_through_the_libs_directory() {
    assert_eq!(find("ws", "my-crate"), "ws/libs/my-crate");
    assert_eq!(join_paths("a/", "b"), "a/b");
    assert_eq!(join_paths("a", "/b"), "/b");
    assert_eq!(join_paths("", "b"), "b");
}
