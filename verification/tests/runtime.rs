use rustbb::runtime::{plan_dispatch, DispatchPlan, Registry};

#[test]
fn test_registry_basic() {
    fn test_cmd() -> i32 {
        42
    }

    let mut registry = Registry::new();
    registry.register("test", test_cmd);

    assert!(registry.get("test").is_some());
    assert!(registry.get("nonexistent").is_none());
    assert_eq!(registry.try_run("test"), Some(42));
}

#[test]
fn test_registry_list() {
    fn cmd_a() -> i32 {
        0
    }
    fn cmd_b() -> i32 {
        0
    }

    let mut registry: Registry<fn() -> i32> = Registry::new();
    registry.register("beta", cmd_b);
    registry.register("alpha", cmd_a);

    let list = registry.list();
    assert_eq!(list, vec!["alpha", "beta"]);
}

fn seven() -> i32 {
    7
}

fn eight() -> i32 {
    8
}

fn registry() -> Registry<fn() -> i32> {
    let mut r: Registry<fn() -> i32> = Registry::default();
    r.register("cat", seven);
    r.register("echo", eight);
    r
}

#[test]
fn register_replaces_and_try_run_reports_missing() {
    let mut r = registry();
    assert_eq!(r.try_run("cat"), Some(7));
    r.register("cat", eight);
    assert_eq!(r.try_run("cat"), Some(8));
    assert_eq!(r.try_run("dog"), None);
    assert_eq!(r.list(), vec!["cat", "echo"]);
}

fn args(v: &[&str]) -> Vec<String> {
    v.iter().map(|s| s.to_string()).collect()
}

#[test]
fn dispatch_symlink_mode() {
    let p = plan_dispatch(&registry(), "cat", &args(&["/bin/cat", "file"]));
    assert!(matches!(p, DispatchPlan::Run { name, skip: 0 } if name == "cat"));
}

#[test]
fn dispatch_subcommand_mode() {
    let p = plan_dispatch(&registry(), "bb", &args(&["./bb", "echo", "hi"]));
    assert!(matches!(p, DispatchPlan::Run { name, skip: 1 } if name == "echo"));
}

#[test]
fn dispatch_flags_unknown_and_empty() {
    let r = registry();
    assert!(matches!(plan_dispatch(&r, "bb", &args(&["bb", "--help"])), DispatchPlan::Help { exit_code: 0 }));
    assert!(matches!(plan_dispatch(&r, "bb", &args(&["bb", "-h"])), DispatchPlan::Help { exit_code: 0 }));
    assert!(matches!(plan_dispatch(&r, "bb", &args(&["bb", "--list"])), DispatchPlan::List));
    assert!(matches!(plan_dispatch(&r, "bb", &args(&["bb", "-l"])), DispatchPlan::List));
    assert!(matches!(
        plan_dispatch(&r, "bb", &args(&["bb", "nonexistent_command"])),
        DispatchPlan::Unknown { name } if name == "nonexistent_command"
    ));
    assert!(matches!(plan_dispatch(&r, "bb", &args(&["bb"])), DispatchPlan::Help { exit_code: 1 }));
}
