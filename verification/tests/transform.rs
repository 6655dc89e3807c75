use rustbb::transform::{
    clap_parse_call, command_fn_name, detect_async_runtime, is_env_args_call, is_env_args_os_call,
    keeps_attribute, sanitize_name, AsyncRuntime,
};

fn segs(v: &[&str]) -> Vec<String> {
    v.iter().map(|s| s.to_string()).collect()
}

#[test]
fn sanitize_names() {
    assert_eq!(sanitize_name("My-Cmd.v2"), "my_cmd_v2");
    assert_eq!(sanitize_name("echo"), "echo");
    assert_eq!(command_fn_name("async-cmd"), "rustbb_cmd_async_cmd");
}

#[test]
fn env_args_calls() {
    assert!(is_env_args_call(&segs(&["std", "env", "args"])));
    assert!(is_env_args_call(&segs(&["env", "args"])));
    assert!(is_env_args_call(&segs(&["args"])));
    assert!(!is_env_args_call(&segs(&["std", "env", "args_os"])));
    assert!(is_env_args_os_call(&segs(&["std", "env", "args_os"])));
    assert!(is_env_args_os_call(&segs(&["args_os"])));
    assert!(!is_env_args_os_call(&segs(&["other", "args_os"])));
}

#[test]
fn clap_parse_calls() {
    assert_eq!(
        clap_parse_call(&segs(&["Args", "parse"]), 0).as_deref(),
        Some("Args::parse_from(rustbb_runtime::args_os())")
    );
    assert_eq!(
        clap_parse_call(&segs(&["cli", "Cli", "parse"]), 0).as_deref(),
        Some("cli::Cli::parse_from(rustbb_runtime::args_os())")
    );
    assert_eq!(clap_parse_call(&segs(&["parse"]), 0), None);
    assert_eq!(clap_parse_call(&segs(&["Args", "parse"]), 1), None);
    assert_eq!(clap_parse_call(&segs(&["Args", "new"]), 0), None);
}

#[test]
fn async_runtime_detection() {
    let tokio = vec![segs(&["tokio", "main"])];
    assert!(matches!(detect_async_runtime(&tokio, true), Some(AsyncRuntime::Tokio)));
    let astd = vec![segs(&["allow"]), segs(&["async_std", "main"])];
    assert!(matches!(detect_async_runtime(&astd, true), Some(AsyncRuntime::AsyncStd)));
    let bare = vec![segs(&["main"])];
    assert!(matches!(detect_async_runtime(&bare, true), Some(AsyncRuntime::Tokio)));
    assert!(detect_async_runtime(&bare, false).is_none());
    assert!(detect_async_runtime(&vec![], true).is_none());
}

#[test]
fn runtime_attributes_are_removed() {
    assert!(!keeps_attribute(&segs(&["tokio", "main"])));
    assert!(!keeps_attribute(&segs(&["async_std", "main"])));
    assert!(!keeps_attribute(&segs(&["main"])));
    assert!(keeps_attribute(&segs(&["allow"])));
}
