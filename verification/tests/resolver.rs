use procon_bundler::error::BundlerError;
use procon_bundler::resolver::{ManualResolver, Resolve};

fn resolver(entries: &[(&str, &str)]) -> ManualResolver {
    ManualResolver::new(
        entries.iter().map(|(p, c)| (p.to_string(), c.to_string())).collect(),
    )
}

#[test]
fn test_manual_resolver() {
    let r = resolver(&[("a", "content of a"), ("b", "content of b")]);
    assert_eq!(r.resolve("a").unwrap(), vec!["content of a".to_owned()]);
    assert_eq!(r.resolve("b").unwrap(), vec!["content of b".to_owned()]);
}

#[test]
fn resolving_splits_lines_like_a_reader() {
    let r = resolver(&[(".", "first\nsecond\r\nthird\n")]);
    assert_eq!(
        r.resolve(".").unwrap(),
        vec!["first".to_owned(), "second".to_owned(), "third".to_owned()],
    );
}

#[test]
fn missing_path_reports_module_file_not_found() {
    let r = resolver(&[("a", "content of a")]);
    assert_eq!(
        r.resolve("b"),
        Err(BundlerError::ModuleFileNotFound { mod_path: "b".to_owned() }),
    );
}

#[test]
fn it_works() {
    assert_eq!(2 + 2, 4);
}
