use std::path::Path;

use rustbb::fetch::{
    crates_io_dir_names, extract_repo_name, fetch_manifest, git_clone_args, git_clone_dir_name,
    registry_dir_match, simple_hash, CrateSource,
};

fn parse(s: &str) -> CrateSource {
    CrateSource::parse(s, Path::new(s).exists()).unwrap()
}

#[test]
fn test_parse_local_path() {
    let source = CrateSource::parse("./examples/echo", Path::new("./examples/echo").exists()).unwrap();
    assert!(matches!(source, CrateSource::Local(_)));
}

#[test]
fn test_parse_crates_io() {
    let source = CrateSource::parse("clap", Path::new("clap").exists()).unwrap();
    assert!(matches!(
        source,
        CrateSource::CratesIo {
            name,
            version: None
        } if name == "clap"
    ));

    let source = CrateSource::parse("clap@4.0", Path::new("clap@4.0").exists()).unwrap();
    assert!(matches!(
        source,
        CrateSource::CratesIo {
            name,
            version: Some(v)
        } if name == "clap" && v == "4.0"
    ));
}

#[test]
fn test_parse_git() {
    let source = parse("git:https://github.com/user/repo.git");
    assert!(
        matches!(source, CrateSource::Git { url, reference: None } if url.contains("github"))
    );

    let source = parse("git:https://github.com/user/repo.git#main");
    assert!(matches!(source, CrateSource::Git { url: _, reference: Some(r) } if r == "main"));
}

#[test]
fn test_parse_github_shorthand() {
    let source = parse("github:user/repo");
    assert!(
        matches!(source, CrateSource::Git { url, reference: None } if url == "https://github.com/user/repo.git")
    );

    let source = parse("github:user/repo#v1.0");
    assert!(matches!(source, CrateSource::Git { url: _, reference: Some(r) } if r == "v1.0"));
}

#[test]
fn parse_gitlab_and_second_hash() {
    let source = parse("gitlab:group/proj#a#b");
    match source {
        CrateSource::Git { url, reference } => {
            assert_eq!(url, "https://gitlab.com/group/proj.git");
            assert_eq!(reference.as_deref(), Some("a"));
        }
        other => panic!("unexpected source {:?}", other),
    }
    match parse("git:u#a#b") {
        CrateSource::Git { url, reference } => {
            assert_eq!(url, "u");
            assert_eq!(reference.as_deref(), Some("a#b"));
        }
        other => panic!("unexpected source {:?}", other),
    }
}

#[test]
fn parse_existing_path_is_local() {
    assert!(matches!(CrateSource::parse("clap", true).unwrap(), CrateSource::Local(p) if p == "clap"));
    assert!(matches!(CrateSource::parse("a/b", false).unwrap(), CrateSource::Local(_)));
}

#[test]
fn display_name_round_trips() {
    for s in ["clap", "clap@4.0", "a@b@c", "./local/path"] {
        assert_eq!(CrateSource::parse(s, false).unwrap().display_name(), s);
    }
    assert_eq!(parse("git:https://x/y.git#dev").display_name(), "https://x/y.git#dev");
    assert_eq!(
        parse("github:user/repo#v1").display_name(),
        "https://github.com/user/repo.git#v1"
    );
}

#[test]
fn repo_names() {
    assert_eq!(extract_repo_name("https://github.com/user/repo.git"), "repo");
    assert_eq!(extract_repo_name("https://x/repo.git.git"), "repo");
    assert_eq!(extract_repo_name("plain"), "plain");
    assert_eq!(extract_repo_name("https://x/dir/"), "");
}

#[test]
fn hash_is_sixteen_hex_digits() {
    assert_eq!(simple_hash(""), "0000000000000000");
    assert_eq!(simple_hash("a"), "0000000000000061");
    assert_eq!(simple_hash("ab"), format!("{:016x}", 97u64 * 31 + 98));
    let long = "https://github.com/sharkdp/hexyl.git";
    let mut h: u64 = 0;
    for b in long.bytes() {
        h = h.wrapping_mul(31).wrapping_add(b as u64);
    }
    assert_eq!(simple_hash(long), format!("{:016x}", h));
    assert_eq!(git_clone_dir_name(long), format!("git-{:016x}", h));
}

#[test]
fn registry_dirs() {
    assert!(registry_dir_match("clap-4.0", "clap", Some("4.0")));
    assert!(!registry_dir_match("clap-4.1", "clap", Some("4.0")));
    assert!(registry_dir_match("clap-4.1", "clap", None));
    assert!(!registry_dir_match("clap_derive-4.1", "clap", None));
}

#[test]
fn fetch_manifest_text() {
    assert_eq!(
        fetch_manifest("hexyl", Some("0.14")),
        "[package]\nname = \"fetch-hexyl\"\nversion = \"0.0.0\"\nedition = \"2021\"\n\n[dependencies]\nhexyl = \"0.14\"\n"
    );
    assert!(fetch_manifest("hexyl", None).ends_with("hexyl = \"*\"\n"));
    let (f, c) = crates_io_dir_names("hexyl");
    assert_eq!(f, "fetch-hexyl");
    assert_eq!(c, "crate-hexyl");
}

#[test]
fn clone_arguments() {
    assert_eq!(git_clone_args("u", None), vec!["clone", "--depth=1", "u"]);
    assert_eq!(
        git_clone_args("u", Some("v1")),
        vec!["clone", "--depth=1", "--branch", "v1", "u"]
    );
}
