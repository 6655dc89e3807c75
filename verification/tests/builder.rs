use rustbb::builder::{
    binary_artifact_path, cargo_build_args, generate_uucore_wrapper, plan_transform,
    select_transformed, skipped_line, source_entry_action, transform_crate_references,
    transformed_line, EntryAction, TransformPlan,
};
use rustbb::discovery::{CrateInfo, TransformStrategy};
use rustbb::sorted_map::SortedMap;

fn attrs(v: &[&str]) -> TransformStrategy {
    TransformStrategy::AttributedMain { attrs: v.iter().map(|s| s.to_string()).collect() }
}

#[test]
fn plans_by_strategy() {
    assert!(matches!(plan_transform(&TransformStrategy::SimpleMain), TransformPlan::Transform { is_async: false, stop_on_failure: true }));
    assert!(matches!(plan_transform(&attrs(&["tokio::main"])), TransformPlan::Transform { is_async: true, stop_on_failure: false }));
    assert!(matches!(plan_transform(&attrs(&["allow", "inline"])), TransformPlan::Transform { is_async: false, stop_on_failure: false }));
    assert!(matches!(
        plan_transform(&attrs(&["async_std::main", "custom"])),
        TransformPlan::Transform { is_async: true, .. }
    ));
    match plan_transform(&attrs(&["allow", "custom", "other::attr"])) {
        TransformPlan::UnsupportedAttributes { attrs } => {
            assert_eq!(attrs, vec!["custom".to_string(), "other::attr".to_string()])
        }
        other => panic!("unexpected plan {:?}", other),
    }
    assert!(matches!(
        plan_transform(&TransformStrategy::LibraryInterface { entry_fn: "run".to_string() }),
        TransformPlan::LibraryInterface
    ));
    assert!(matches!(
        plan_transform(&TransformStrategy::Unsupported { reason: "r".to_string() }),
        TransformPlan::Unsupported { reason } if reason == "r"
    ));
}

#[test]
fn progress_lines() {
    assert_eq!(transformed_line("cat", false), "  ✓ cat");
    assert_eq!(transformed_line("srv", true), "  ✓ srv (async)");
    assert_eq!(
        skipped_line("x", &TransformPlan::Unsupported { reason: "No main() function found".to_string() }),
        Some("  ✗ x - No main() function found".to_string())
    );
    assert_eq!(
        skipped_line("y", &TransformPlan::LibraryInterface),
        Some("  ⚠ y - library interface not yet supported".to_string())
    );
    assert_eq!(skipped_line("z", &TransformPlan::Transform { is_async: false, stop_on_failure: true }), None);
}

fn info(name: &str) -> CrateInfo {
    CrateInfo {
        name: name.to_string(),
        path: String::new(),
        main_path: String::new(),
        strategy: TransformStrategy::SimpleMain,
        dependencies: SortedMap::new(),
        has_library: false,
        version: None,
    }
}

#[test]
fn keeps_only_transformed_crates_in_order() {
    let mut t = SortedMap::new();
    t.insert("c".to_string(), String::new());
    t.insert("a".to_string(), String::new());
    let kept = select_transformed(vec![info("a"), info("b"), info("c")], &t);
    let names: Vec<&str> = kept.iter().map(|c| c.name.as_str()).collect();
    assert_eq!(names, vec!["a", "c"]);
}

#[test]
fn build_command_and_artifact() {
    assert_eq!(cargo_build_args(false), vec!["build"]);
    assert_eq!(cargo_build_args(true), vec!["build", "--release"]);
    assert_eq!(binary_artifact_path("bb", true), "target/release/bb");
    assert_eq!(binary_artifact_path("bb", false), "target/debug/bb");
}

#[test]
fn uucore_wrapper_text() {
    let w = generate_uucore_wrapper("uu_ls", "ls-x");
    assert!(w.contains("pub fn rustbb_cmd_ls_x() -> i32 {\n    uu_ls::uumain(rustbb_runtime::args_os())\n}\n"));
}

#[test]
fn entry_actions() {
    assert!(matches!(source_entry_action("main.rs", false), EntryAction::Skip));
    assert!(matches!(source_entry_action("sub", true), EntryAction::Recurse));
    assert!(matches!(source_entry_action("lib.rs", false), EntryAction::RewriteRust));
    assert!(matches!(source_entry_action("data.txt", false), EntryAction::Copy));
}

#[test]
fn crate_references_rewritten() {
    assert_eq!(
        transform_crate_references("use crate::util::f;\n", "lsd"),
        "use crate::lsd::util::f;\n"
    );
    assert_eq!(
        transform_crate_references("use   crate::a;", "m"),
        "use crate::m::a;"
    );
    assert_eq!(transform_crate_references("use crate::m::a;", "m"), "use crate::m::a;");
    assert_eq!(transform_crate_references("reuse crate::a;", "m"), "reuse crate::a;");
    assert_eq!(transform_crate_references("use std::x;", "m"), "use std::x;");
    let once = transform_crate_references("use crate::a;\n  use\tcrate::b::{c};", "m");
    assert_eq!(once, "use crate::m::a;\n  use crate::m::b::{c};");
    assert_eq!(transform_crate_references(&once, "m"), once);
}
