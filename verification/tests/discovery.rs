use rustbb::discovery::{
    analyze_main_function, collect_dependencies, crate_info, find_main_rs, main_rs_candidates,
    DepSpec, DiscoveryError, ManifestSummary, TransformStrategy,
};

#[test]
fn test_analyze_simple_main() {
    let source = r#"
fn main() {
    println!("Hello, world!");
}
"#;
    let strategy = analyze_main_function(source).unwrap();
    assert!(matches!(strategy, TransformStrategy::SimpleMain));
}

#[test]
fn test_analyze_attributed_main() {
    let source = r#"
#[tokio::main]
async fn main() {
    println!("Hello, async world!");
}
"#;
    let strategy = analyze_main_function(source).unwrap();
    assert!(matches!(strategy, TransformStrategy::AttributedMain { .. }));
}

#[test]
fn test_analyze_no_main() {
    let source = r#"
fn not_main() {
    println!("Hello!");
}
"#;
    let strategy = analyze_main_function(source).unwrap();
    assert!(matches!(strategy, TransformStrategy::Unsupported { .. }));
}

#[test]
fn analyze_lists_attribute_paths_without_doc_comments() {
    let source = "/// The entry point.\n#[tokio::main]\n#[allow(unused)]\nasync fn main() {}\n";
    match analyze_main_function(source).unwrap() {
        TransformStrategy::AttributedMain { attrs } => {
            assert_eq!(attrs, vec!["tokio::main".to_string(), "allow".to_string()]);
        }
        other => panic!("unexpected strategy {:?}", other),
    }
}

#[test]
fn analyze_doc_comment_only_is_simple() {
    let source = "/// Docs.\nfn main() {}\n";
    assert!(matches!(analyze_main_function(source).unwrap(), TransformStrategy::SimpleMain));
}

#[test]
fn analyze_build_script_code_is_unsupported() {
    let source = "include!(concat!(env!(\"OUT_DIR\"), \"/gen.rs\"));\nfn main() {}\n";
    match analyze_main_function(source).unwrap() {
        TransformStrategy::Unsupported { reason } => {
            assert_eq!(reason, "Uses build script generated code (include! with OUT_DIR)");
        }
        other => panic!("unexpected strategy {:?}", other),
    }
}

#[test]
fn analyze_syntax_error_is_reported() {
    let result = analyze_main_function("fn main( {");
    assert!(matches!(result, Err(DiscoveryError::RustSyntax(_))));
}

#[test]
fn analyze_no_main_reason() {
    match analyze_main_function("struct S;").unwrap() {
        TransformStrategy::Unsupported { reason } => assert_eq!(reason, "No main() function found"),
        other => panic!("unexpected strategy {:?}", other),
    }
}

#[test]
fn collect_dependencies_filters_and_renames() {
    let deps = vec![
        ("anyhow".to_string(), DepSpec::Simple { version: "1".to_string() }),
        (
            "local".to_string(),
            DepSpec::Detailed {
                version: None,
                package: None,
                has_path: true,
                has_git: false,
                features: vec![],
                optional: false,
            },
        ),
        (
            "opt".to_string(),
            DepSpec::Detailed {
                version: Some("2".to_string()),
                package: None,
                has_path: false,
                has_git: false,
                features: vec![],
                optional: true,
            },
        ),
        (
            "renamed".to_string(),
            DepSpec::Detailed {
                version: Some("0.8".to_string()),
                package: Some("rand".to_string()),
                has_path: false,
                has_git: false,
                features: vec!["small_rng".to_string()],
                optional: false,
            },
        ),
        (
            "ws".to_string(),
            DepSpec::Inherited { workspace: true, optional: false, features: vec![] },
        ),
        (
            "inh".to_string(),
            DepSpec::Inherited { workspace: false, optional: false, features: vec!["x".to_string()] },
        ),
    ];
    let table = collect_dependencies(&deps);
    assert_eq!(table.len(), 3);
    assert_eq!(table.key_at(0), "anyhow");
    assert_eq!(table.key_at(1), "inh");
    assert_eq!(table.key_at(2), "rand");
    let rand = table.get("rand").unwrap();
    assert_eq!(rand.version.as_deref(), Some("0.8"));
    assert_eq!(rand.features, vec!["small_rng".to_string()]);
    assert!(table.get("inh").unwrap().version.is_none());
    assert!(table.get("local").is_none());
}

#[test]
fn main_rs_candidates_in_order() {
    let bins = vec![Some("bin/tool.rs".to_string()), None, Some("/abs/main.rs".to_string())];
    let c = main_rs_candidates("/c", &bins);
    assert_eq!(
        c,
        vec!["/c/bin/tool.rs", "/abs/main.rs", "/c/src/main.rs", "/c/src/bin/main.rs"]
    );
    let c2 = main_rs_candidates("/c/", &vec![]);
    assert_eq!(c2, vec!["/c/src/main.rs", "/c/src/bin/main.rs"]);
}

#[test]
fn find_main_rs_takes_first_existing_or_fails() {
    let cands = vec![
        ("a".to_string(), false),
        ("b".to_string(), true),
        ("c".to_string(), true),
    ];
    assert_eq!(find_main_rs("/c", &cands).unwrap(), "b");
    let none = vec![("a".to_string(), false)];
    match find_main_rs("/c", &none) {
        Err(DiscoveryError::MainNotFound { crate_path }) => assert_eq!(crate_path, "/c"),
        other => panic!("unexpected result {:?}", other),
    }
}

#[test]
fn crate_info_defaults() {
    let manifest = ManifestSummary {
        package_name: None,
        package_version: Some("1.2.3".to_string()),
        dependencies: vec![],
        bin_paths: vec![],
        has_lib_section: false,
    };
    let info = crate_info("/c", "/c/src/main.rs".to_string(), &manifest, TransformStrategy::SimpleMain, true);
    assert_eq!(info.name, "unknown");
    assert!(info.has_library);
    assert_eq!(info.version.as_deref(), Some("1.2.3"));
    assert_eq!(info.dependencies.len(), 0);
}
