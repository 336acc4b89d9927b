use procon_bundler::config_toml::ConfigToml;
use procon_bundler::error::BundlerError;
use procon_bundler::find_crate::workspace_cargo_toml::WorkspaceCargoToml;

fn deps_equal(actual: &[(String, String)], expected: &[(&str, &str)]) -> bool {
    actual.len() == expected.len() && expected.iter().all(|(n, p)| {
        actual.iter().any(|(an, ap)| an == n && ap == p)
    })
}

#[test]
fn test_only_path_dependencies() {
    let config = ConfigToml::new(
        r#"
        [dependencies]
        a = { path = "../path/to/a"}
        b = { path = "../path/to/b"}
        c = { path = "../path/to/c"}
    "#,
    )
    .unwrap();
    let expected = [("a", "../path/to/a"), ("b", "../path/to/b"), ("c", "../path/to/c")];
    assert!(deps_equal(&config.deps, &expected));
}

#[test]
fn test_skips_git_and_crates_io_dependencies() {
    let config = ConfigToml::new(
        r#"
        [dependencies]
        a = { path = "../path/to/a"}
        toml = "0.5.8"
        b = { path = "../path/to/b"}
        dbg = { git = "https://github.com/ngtkana/ac-adapter-rs.git", optional = true }
        c = { path = "../path/to/c"}
    "#,
    )
    .unwrap();
    let expected = [("a", "../path/to/a"), ("b", "../path/to/b"), ("c", "../path/to/c")];
    assert!(deps_equal(&config.deps, &expected));
}

#[test]
fn test_skips_dev_dependencies() {
    let config = ConfigToml::new(
        r#"
        [dependencies]
        a = { path = "../path/to/a"}

        [dev-dependencies]
        b = { path = "../path/to/b"}
        c = { path = "../path/to/c"}
    "#,
    )
    .unwrap();
    let expected = [("a", "../path/to/a")];
    assert!(deps_equal(&config.deps, &expected));
}

#[test]
fn test_parse_typical_cargo_toml() {
    let config = ConfigToml::new(
        r#"
        [package]
        name = "hi!"
        version = "5.0.0"
        authors = ["me"]
        edition = "2018"

        # See more keys and their definitions at https://doc.rust-lang.org/cargo/reference/manifest.html

        [dependencies]
        lazy_static = "1.4"
        here = { path = "../here" }
        itertools = "0.8"
        semver = "0.9.0"
        thiserror = "1.0.16"
        num-traits = "0.2"
        there = { path = "../there" }
        boolinator = "2.4.0"

        [dev-dependencies]
        assert_approx_eq = "1"
        hamcrest2 = "0.3.0"
        test-case = { version = "1", features = ["hamcrest_assertions"] }
    "#,
    )
    .unwrap();
    let expected = [("here", "../here"), ("there", "../there")];
    assert!(deps_equal(&config.deps, &expected));
}

#[test]
fn empty_manifest_has_no_dependencies() {
    let config = ConfigToml::new("").unwrap();
    assert!(config.deps.is_empty());
}

#[test]
fn malformed_manifest_is_reported() {
    let result = ConfigToml::new("this is [ not toml");
    assert_eq!(result, Err(BundlerError::CargoTomlParseError));
}

#[test]
fn dependencies_must_be_a_table() {
    let result = ConfigToml::new("dependencies = \"nope\"");
    assert_eq!(result, Err(BundlerError::DependenciesNotTable));
}

#[test]
fn path_must_be_a_string() {
    let result = ConfigToml::new("[dependencies]\na = { path = 5 }\n");
    assert_eq!(result, Err(BundlerError::PathNotString { dependency: "a".to_owned() }));
}

#[test]
fn workspace_cargo_toml_test_parse_typical_cargo_toml() {
    let config = WorkspaceCargoToml::new(
        r#"
        [workspace]
        members = [
            "a/b/*",
            "c",
        ]
    "#,
    )
    .unwrap();
    let expected = vec!["a/b/*".to_owned(), "c".to_owned()];
    assert_eq!(config.members, expected);
}

#[test]
fn workspace_without_members_is_rejected() {
    assert!(WorkspaceCargoToml::new("[workspace]\n").is_none());
}
