use procon_bundler::parse_line::{
    parse_block_doc_comments_end, parse_block_doc_comments_start, parse_block_end, parse_cfg_test,
    parse_module_block_begin, parse_module_decl, parse_oneline_doc_comments, remove_indentation,
    substitute_path,
};

#[test]
fn module_decl_forms() {
    assert_eq!(parse_module_decl("mod a;"), Some("a".to_owned()));
    assert_eq!(parse_module_decl("pub mod a;"), Some("a".to_owned()));
    assert_eq!(parse_module_decl("pub(crate) mod a;"), Some("a".to_owned()));
    assert_eq!(parse_module_decl("pub(super::super) mod a;"), Some("a".to_owned()));
    assert_eq!(parse_module_decl("    mod a;"), Some("a".to_owned()));
    assert_eq!(parse_module_decl("use a;"), None);
    assert_eq!(parse_module_decl("mod ab;"), Some("ab".to_owned()));
    assert_eq!(parse_module_decl("mod a1;"), Some("a1".to_owned()));
    assert_eq!(parse_module_decl("mod a_;"), Some("a_".to_owned()));
    assert_eq!(parse_module_decl("mod _a;"), Some("_a".to_owned()));
    assert_eq!(
        parse_module_decl("pub ( path  ::hey )  mod  __my_42_fn  ; "),
        Some("__my_42_fn".to_owned()),
    );
}

#[test]
fn module_block_begin_forms() {
    assert_eq!(parse_module_block_begin("mod a {"), Some("a".to_owned()));
    assert_eq!(parse_module_block_begin("    pub ( foo   ) mod  bar  { "), Some("bar".to_owned()));
    assert_eq!(parse_module_block_begin("mod a;"), None);
}

#[test]
fn block_end_leading_spaces() {
    assert_eq!(parse_block_end("}"), Some(0));
    assert_eq!(parse_block_end("}      "), Some(0));
    assert_eq!(parse_block_end("      }"), Some(6));
    assert_eq!(parse_block_end("   }   "), Some(3));
    assert_eq!(parse_block_end("} x"), None);
}

#[test]
fn cfg_test_marker_forms() {
    assert!(parse_cfg_test("#[cfg(test)]"));
    assert!(parse_cfg_test("#  [  cfg  (  test  )  ]  "));
    assert!(!parse_cfg_test("#[cfg(feature = \"x\")]"));
}

#[test]
fn oneline_doc_comment_forms() {
    assert!(parse_oneline_doc_comments("/// hi"));
    assert!(parse_oneline_doc_comments("//! hi"));
    assert!(parse_oneline_doc_comments("    /// hi"));
    assert!(parse_oneline_doc_comments("    //! hi"));
    assert!(!parse_oneline_doc_comments("// plain comment"));
}

#[test]
fn block_doc_comment_start_forms() {
    assert!(parse_block_doc_comments_start("    /** hi    "));
    assert!(parse_block_doc_comments_start("    /*! hi    "));
    assert!(!parse_block_doc_comments_start("    /* plain */"));
}

#[test]
fn block_doc_comment_end_forms() {
    assert!(parse_block_doc_comments_end("    hi **/    "));
    assert!(parse_block_doc_comments_end("*/"));
    assert!(!parse_block_doc_comments_end("nothing here"));
}

#[test]
fn remove_indentation_counts_tabs_as_a_unit() {
    assert_eq!(remove_indentation("        x", 1), "    x");
    assert_eq!(remove_indentation("\t\tx", 1), "\tx");
    assert_eq!(remove_indentation("   shallow", 1), "shallow");
    assert_eq!(remove_indentation("     deep", 1), " deep");
    assert_eq!(remove_indentation("x", 3), "x");
}

#[test]
fn remove_indentation_stops_at_a_tab_that_does_not_fit() {
    // Two spaces leave only two columns of budget, which a whole tab cannot use.
    assert_eq!(remove_indentation("  \tx", 1), "\tx");
    // With two units of budget the tab fits after the two spaces, and the
    // remaining budget still takes the following space.
    assert_eq!(remove_indentation("  \t x", 2), "x");
}

#[test]
fn substitution_rewrites_each_kind_of_reference() {
    let config = procon_bundler::config_toml::ConfigToml::new(
        "[dependencies]\ncrate_a = { path = \"../crate_a\" }\n",
    )
    .unwrap();
    assert_eq!(substitute_path("use crate_a::f", "my_crate", &config), "use crate::crate_a::f");
    assert_eq!(
        substitute_path("use crate_a::f as _", "my_crate", &config),
        "use crate::crate_a::f as _",
    );
    assert_eq!(substitute_path("use crate_never::f", "my_crate", &config), "use crate_never::f");
    assert_eq!(
        substitute_path("let _: crate_a::Type = crate_a::Type::new()", "my_crate", &config),
        "let _: crate::crate_a::Type = crate::crate_a::Type::new()",
    );
    assert_eq!(substitute_path("$crate::a", "my_crate", &config), "$crate::my_crate::a");
    assert_eq!(substitute_path("crate::a", "my_crate", &config), "crate::a");
    assert_eq!(
        substitute_path("use crate::a;", "my-crate", &config),
        "use crate::my_crate::a;",
    );
}
