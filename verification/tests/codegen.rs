use rustbb::codegen::{
    format_dependency, generate_cargo_toml, generate_combined_crate, generate_main_rs,
    merge_dependencies,
};
use rustbb::discovery::{CrateInfo, DepInfo, TransformStrategy};
use rustbb::sorted_map::SortedMap;

fn simple_crate(name: &str, deps: SortedMap<DepInfo>, has_library: bool, version: Option<&str>) -> CrateInfo {
    CrateInfo {
        name: name.to_string(),
        path: format!("/tmp/{}", name),
        main_path: format!("/tmp/{}/src/main.rs", name),
        strategy: TransformStrategy::SimpleMain,
        dependencies: deps,
        has_library,
        version: version.map(|v| v.to_string()),
    }
}

fn dep(version: Option<&str>, features: &[&str]) -> DepInfo {
    DepInfo {
        version: version.map(|v| v.to_string()),
        features: features.iter().map(|f| f.to_string()).collect(),
        optional: false,
    }
}

#[test]
fn test_generate_main_rs() {
    let crates = vec![
        CrateInfo {
            name: "echo".to_string(),
            path: "/tmp/echo".to_string(),
            main_path: "/tmp/echo/src/main.rs".to_string(),
            strategy: TransformStrategy::SimpleMain,
            dependencies: SortedMap::new(),
            has_library: false,
            version: None,
        },
        CrateInfo {
            name: "cat".to_string(),
            path: "/tmp/cat".to_string(),
            main_path: "/tmp/cat/src/main.rs".to_string(),
            strategy: TransformStrategy::SimpleMain,
            dependencies: SortedMap::new(),
            has_library: false,
            version: None,
        },
    ];

    let main_rs = generate_main_rs(&crates).unwrap();
    assert!(main_rs.contains("mod echo;"));
    assert!(main_rs.contains("mod cat;"));
    assert!(main_rs.contains("registry.register(\"echo\""));
    assert!(main_rs.contains("registry.register(\"cat\""));
}

#[test]
fn test_merge_dependencies() {
    let crates = vec![
        CrateInfo {
            name: "cmd1".to_string(),
            path: "/tmp/cmd1".to_string(),
            main_path: "/tmp/cmd1/src/main.rs".to_string(),
            strategy: TransformStrategy::SimpleMain,
            dependencies: {
                let mut deps = SortedMap::new();
                deps.insert(
                    "clap".to_string(),
                    DepInfo {
                        version: Some("4".to_string()),
                        features: vec!["derive".to_string()],
                        optional: false,
                    },
                );
                deps
            },
            has_library: false,
            version: None,
        },
        CrateInfo {
            name: "cmd2".to_string(),
            path: "/tmp/cmd2".to_string(),
            main_path: "/tmp/cmd2/src/main.rs".to_string(),
            strategy: TransformStrategy::SimpleMain,
            dependencies: {
                let mut deps = SortedMap::new();
                deps.insert(
                    "clap".to_string(),
                    DepInfo {
                        version: Some("4".to_string()),
                        features: vec!["derive".to_string(), "env".to_string()],
                        optional: false,
                    },
                );
                deps
            },
            has_library: false,
            version: None,
        },
    ];

    let merged = merge_dependencies(&crates);
    let clap = merged.get("clap").unwrap();
    assert!(clap.features.contains(&"derive".to_string()));
    assert!(clap.features.contains(&"env".to_string()));
}

#[test]
fn test_format_dependency() {
    let info = DepInfo {
        version: Some("4".to_string()),
        features: vec!["derive".to_string()],
        optional: false,
    };
    let formatted = format_dependency("clap", &info);
    assert!(formatted.contains("clap"));
    assert!(formatted.contains("4"));
    assert!(formatted.contains("derive"));
}

#[test]
fn format_dependency_exact_forms() {
    assert_eq!(format_dependency("serde", &dep(Some("1.0"), &[])), "serde = \"1.0\"");
    assert_eq!(format_dependency("rand", &dep(None, &[])), "rand = \"*\"");
    assert_eq!(
        format_dependency("tokio", &dep(Some("1"), &["rt", "macros"])),
        "tokio = { version = \"1\", features = [\"rt\", \"macros\"] }"
    );
    assert_eq!(
        format_dependency("x", &dep(None, &["a"])),
        "x = { version = \"*\", features = [\"a\"] }"
    );
}

#[test]
fn main_rs_exact_text() {
    let crates = vec![simple_crate("my-cmd", SortedMap::new(), false, None)];
    let main_rs = generate_main_rs(&crates).unwrap();
    assert_eq!(
        main_rs,
        "use rustbb_runtime::{Registry, dispatch};\n\nmod my_cmd;\n\nfn main() {\n    let mut registry = Registry::new();\n\n    registry.register(\"my-cmd\", my_cmd::rustbb_cmd_my_cmd);\n\n    dispatch(&registry);\n}\n"
    );
}

#[test]
fn merged_features_are_sorted_union_and_first_version_wins() {
    let mut d1 = SortedMap::new();
    d1.insert("clap".to_string(), dep(None, &["zeta", "alpha"]));
    d1.insert("serde".to_string(), dep(Some("1"), &["derive"]));
    let mut d2 = SortedMap::new();
    d2.insert("clap".to_string(), dep(Some("4"), &["beta", "alpha"]));
    d2.insert("serde".to_string(), dep(Some("2"), &[]));
    let crates = vec![
        simple_crate("a", d1, false, None),
        simple_crate("b", d2, false, None),
    ];
    let merged = merge_dependencies(&crates);
    assert_eq!(merged.len(), 2);
    let clap = merged.get("clap").unwrap();
    assert_eq!(clap.features, vec!["alpha", "beta", "zeta"]);
    assert_eq!(clap.version.as_deref(), Some("4"));
    let serde = merged.get("serde").unwrap();
    assert_eq!(serde.version.as_deref(), Some("1"));
    assert_eq!(serde.features, vec!["derive"]);
}

#[test]
fn single_dependency_keeps_its_feature_order() {
    let mut d1 = SortedMap::new();
    d1.insert("clap".to_string(), dep(Some("4"), &["zeta", "alpha"]));
    let merged = merge_dependencies(&vec![simple_crate("a", d1, false, None)]);
    assert_eq!(merged.get("clap").unwrap().features, vec!["zeta", "alpha"]);
}

#[test]
fn library_crate_becomes_dependency() {
    let crates = vec![simple_crate("mylib", SortedMap::new(), true, Some("0.3.1"))];
    let merged = merge_dependencies(&crates);
    let d = merged.get("mylib").unwrap();
    assert_eq!(d.version.as_deref(), Some("0.3.1"));
    assert!(d.features.is_empty());
    assert!(!d.optional);
}

#[test]
fn cargo_toml_exact_text() {
    let mut deps = SortedMap::new();
    deps.insert("serde".to_string(), dep(Some("1"), &["derive"]));
    deps.insert("anyhow".to_string(), dep(Some("1"), &[]));
    let crates = vec![simple_crate("a", deps, false, None)];
    let toml = generate_cargo_toml(&crates, "bb", "/rt").unwrap();
    assert_eq!(
        toml,
        "[package]\nname = \"bb\"\nversion = \"0.1.0\"\nedition = \"2021\"\n\n[[bin]]\nname = \"bb\"\npath = \"src/main.rs\"\n\n[dependencies]\nrustbb_runtime = { path = \"/rt\" }\nanyhow = \"1\"\nserde = { version = \"1\", features = [\"derive\"] }\n\n[profile.release]\nopt-level = \"z\"\nlto = true\ncodegen-units = 1\npanic = \"abort\"\nstrip = true\n"
    );
}

#[test]
fn combined_crate_collects_transformed_modules() {
    let crates = vec![
        simple_crate("echo", SortedMap::new(), false, None),
        simple_crate("cat", SortedMap::new(), false, None),
    ];
    let mut sources = SortedMap::new();
    sources.insert("cat".to_string(), "fn cat() {}".to_string());
    sources.insert("other".to_string(), "fn other() {}".to_string());
    let generated = generate_combined_crate(&crates, "bb", &sources, "/rt").unwrap();
    assert_eq!(generated.command_modules.len(), 1);
    assert_eq!(generated.command_modules.get("cat").map(|s| s.as_str()), Some("fn cat() {}"));
    assert!(generated.command_modules.get("echo").is_none());
    assert!(generated.main_rs.contains("mod echo;"));
    assert!(generated.cargo_toml.contains("name = \"bb\""));
}
