use toolset::env::{compose_env, env_with_path, full_env, join_paths, EnvVars};
use toolset::report::missing_warning;

fn pairs(v: &[(&str, &str)]) -> Vec<(String, String)> {
    v.iter().map(|(k, x)| (k.to_string(), x.to_string())).collect()
}

fn vars(v: &[(&str, &str)]) -> EnvVars {
    EnvVars { entries: pairs(v) }
}

#[test]
fn earlier_tool_wins_on_conflict() {
    let tools = pairs(&[("FOO", "from_first"), ("BAR", "b"), ("FOO", "from_second")]);
    let env = compose_env(&tools, EnvVars::new());
    assert_eq!(env.get("FOO").map(|s| s.as_str()), Some("from_first"));
    assert_eq!(env.get("BAR").map(|s| s.as_str()), Some("b"));
}

#[test]
fn add_path_keys_become_path() {
    let tools = pairs(&[
        ("MISE_ADD_PATH", "/a/bin"),
        ("X", "1"),
        ("RTX_ADD_PATH", "/b/bin"),
        ("RTX_TOOL_OPTS__FOO", "o"),
        ("MISE_TOOL_OPTS__BAR", "o"),
    ]);
    let env = compose_env(&tools, EnvVars::new());
    assert_eq!(env.get("PATH").map(|s| s.as_str()), Some("/a/bin:/b/bin"));
    assert!(env.get("MISE_ADD_PATH").is_none());
    assert!(env.get("RTX_ADD_PATH").is_none());
    assert!(env.get("RTX_TOOL_OPTS__FOO").is_none());
    assert!(env.get("MISE_TOOL_OPTS__BAR").is_none());
    assert_eq!(env.get("X").map(|s| s.as_str()), Some("1"));
}

#[test]
fn no_add_path_means_no_path() {
    let env = compose_env(&pairs(&[("X", "1")]), EnvVars::new());
    assert!(env.get("PATH").is_none());
}

#[test]
fn config_env_overrides_tools() {
    let env = compose_env(&pairs(&[("X", "tool")]), vars(&[("X", "config"), ("Y", "y")]));
    assert_eq!(env.get("X").map(|s| s.as_str()), Some("config"));
    assert_eq!(env.get("Y").map(|s| s.as_str()), Some("y"));
}

#[test]
fn path_layers() {
    let env = compose_env(&pairs(&[("MISE_ADD_PATH", "/t/add"), ("K", "v")]), EnvVars::new());
    let ewp = env_with_path(
        env,
        vec!["/cfg".to_string()],
        vec!["/tool/bin".to_string()],
        vec!["/usr/bin".to_string(), "/bin".to_string()],
    );
    assert_eq!(ewp.get("PATH").map(|s| s.as_str()), Some("/cfg:/t/add:/tool/bin:/usr/bin:/bin"));
    assert_eq!(ewp.get("K").map(|s| s.as_str()), Some("v"));
    let full = full_env(vars(&[("HOME", "/home/u"), ("K", "old"), ("PATH", "/x")]), ewp);
    assert_eq!(full.get("HOME").map(|s| s.as_str()), Some("/home/u"));
    assert_eq!(full.get("K").map(|s| s.as_str()), Some("v"));
    assert_eq!(full.get("PATH").map(|s| s.as_str()), Some("/cfg:/t/add:/tool/bin:/usr/bin:/bin"));
}

#[test]
fn join_paths_uses_colons() {
    assert_eq!(join_paths(&vec![]), "");
    assert_eq!(join_paths(&vec!["/a".to_string()]), "/a");
    assert_eq!(join_paths(&vec!["/a".to_string(), "/b".to_string()]), "/a:/b");
}

#[test]
fn insert_and_extend() {
    let mut e = EnvVars::new();
    e.insert("A".to_string(), "1".to_string());
    e.insert("A".to_string(), "2".to_string());
    assert_eq!(e.get("A").map(|s| s.as_str()), Some("2"));
    e.extend(vars(&[("A", "3"), ("B", "4")]));
    assert_eq!(e.get("A").map(|s| s.as_str()), Some("3"));
    assert_eq!(e.get("B").map(|s| s.as_str()), Some("4"));
    assert!(e.get("C").is_none());
}

#[test]
fn missing_warning_lists_and_truncates() {
    assert_eq!(missing_warning(&vec![], 80), None);
    let styles = vec!["node@20".to_string(), "python@3".to_string()];
    assert_eq!(missing_warning(&styles, 80), Some("missing: node@20 python@3".to_string()));
    assert_eq!(missing_warning(&styles, 20), Some("missing: node@…".to_string()));
}
