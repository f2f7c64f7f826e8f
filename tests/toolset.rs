use toolset::forge_arg::{Dirs, ForgeArg};
use toolset::tool::{RequestKind, ToolRequest, ToolSource, ToolVersion, ToolVersionList};
use toolset::toolset::{is_outdated, reports_missing, MissingToolsReport, Toolset};

fn dirs() -> Dirs {
    Dirs {
        cache: "/c".to_string(),
        installs: "/i".to_string(),
        downloads: "/d".to_string(),
    }
}

fn fa(s: &str) -> ForgeArg {
    ForgeArg::parse(s, &dirs())
}

fn req(tool: &str, version: &str) -> ToolRequest {
    ToolRequest {
        forge: fa(tool),
        kind: RequestKind::Version,
        version: version.to_string(),
        dependencies: vec![],
    }
}

fn ids(ts: &Toolset) -> Vec<String> {
    ts.versions.iter().map(|t| t.forge.id.clone()).collect()
}

fn with_tools(source: ToolSource, tools: &[&str]) -> Toolset {
    let mut ts = Toolset::new(source);
    for t in tools {
        ts.add_version(req(t, "1"));
    }
    ts
}

#[test]
fn add_version_groups_by_tool() {
    let mut ts = Toolset::new(ToolSource::Argument);
    ts.add_version(req("node", "20"));
    ts.add_version(req("cargo:eza", "0.18"));
    ts.add_version(req("asdf:node", "18"));
    assert_eq!(ids(&ts), vec!["node", "cargo:eza"]);
    let versions: Vec<&str> = ts.versions[0].requests.iter().map(|r| r.version.as_str()).collect();
    assert_eq!(versions, vec!["20", "18"]);
    assert!(ts.versions[0].source.is_argument());
}

#[test]
fn add_version_skips_disabled_and_filtered() {
    let mut ts = Toolset::new(ToolSource::Argument);
    ts.disable_tools = vec!["node".to_string()];
    ts.add_version(req("node", "20"));
    assert!(ts.versions.is_empty());
    ts.tool_filter = Some(vec!["python".to_string()]);
    ts.add_version(req("cargo:eza", "1"));
    assert!(ts.versions.is_empty());
    ts.add_version(req("python", "3"));
    assert_eq!(ids(&ts), vec!["python"]);
    assert!(ts.is_disabled(&fa("node")));
    assert!(ts.is_disabled(&fa("cargo:eza")));
    assert!(!ts.is_disabled(&fa("python")));
}

#[test]
fn merge_order_puts_other_first() {
    let mut a = with_tools(ToolSource::ToolVersionsFile("a".to_string()), &["node", "python"]);
    let c = with_tools(ToolSource::ConfigFile("b".to_string()), &["ruby", "node"]);
    a.merge(c);
    assert_eq!(ids(&a), vec!["ruby", "node", "python"]);
    match &a.source {
        Some(ToolSource::ConfigFile(p)) => assert_eq!(p, "b"),
        other => panic!("unexpected source {:?}", other),
    }
    match &a.versions[1].source {
        ToolSource::ConfigFile(p) => assert_eq!(p, "b"),
        other => panic!("unexpected source {:?}", other),
    }
}

#[test]
fn merge_drops_disabled_tools() {
    let mut a = with_tools(ToolSource::Argument, &["node", "python"]);
    a.disable_tools = vec!["go".to_string(), "python".to_string()];
    let other = with_tools(ToolSource::Argument, &["go", "ruby"]);
    a.merge(other);
    assert_eq!(ids(&a), vec!["ruby", "node"]);
}

fn resolved(ts: &mut Toolset, counts: &[usize]) {
    for (t, n) in ts.versions.iter_mut().zip(counts) {
        for k in 0..*n {
            let r = req(&t.forge.id, &format!("{}", k));
            t.versions.push(ToolVersion { forge: t.forge.clone(), version: format!("{}", k), request: r });
        }
    }
}

#[test]
fn current_versions_respect_installed_only() {
    let mut ts = with_tools(ToolSource::Argument, &["node", "python", "ruby"]);
    resolved(&mut ts, &[2, 1, 1]);
    let installed = vec![vec![true, false], vec![true], vec![false]];
    assert_eq!(ts.list_current_versions(&installed), vec![(0, 0), (0, 1), (1, 0), (2, 0)]);
    assert_eq!(ts.list_current_installed_versions(&installed), vec![(0, 0), (1, 0)]);
    assert_eq!(ts.list_missing_versions(&installed), vec![(0, 1), (2, 0)]);
    assert_eq!(ts.list_versions_by_plugin(&installed), vec![0, 1, 2]);
    ts.installed_only = true;
    assert_eq!(ts.list_versions_by_plugin(&installed), vec![1]);
    assert_eq!(ts.list_current_versions(&installed), vec![(1, 0)]);
}

#[test]
fn install_arg_versions_takes_missing_argument_tools() {
    let mut ts = with_tools(ToolSource::Argument, &["node", "python"]);
    let mut file = with_tools(ToolSource::ToolVersionsFile("f".to_string()), &["ruby"]);
    file.merge(ts);
    ts = file;
    // order is now node, python, ruby; ruby comes from the file
    resolved(&mut ts, &[1, 1, 1]);
    let installed = vec![vec![true], vec![false], vec![false]];
    assert_eq!(ts.install_arg_versions(&installed, false), vec![(1, 0)]);
    assert_eq!(ts.install_arg_versions(&installed, true), vec![(0, 0), (1, 0)]);
}

#[test]
fn which_picks_first_provider_in_order() {
    let mut ts = with_tools(ToolSource::Argument, &["node", "python", "ruby"]);
    resolved(&mut ts, &[1, 1, 1]);
    let installed = vec![vec![false], vec![true], vec![true]];
    let provides = vec![vec![true], vec![true], vec![true]];
    assert_eq!(ts.which(&installed, &provides), Some((1, 0)));
    let none = vec![vec![false], vec![false], vec![false]];
    assert_eq!(ts.which(&installed, &none), None);
}

#[test]
fn outdated_and_missing_reports() {
    let a = "1.0".to_string();
    let b = "2.0".to_string();
    assert!(is_outdated(false, true, &a, &b));
    assert!(!is_outdated(false, true, &a, &a));
    assert!(is_outdated(false, false, &a, &a));
    assert!(!is_outdated(true, false, &a, &b));
    assert!(!reports_missing(MissingToolsReport::Never, true));
    assert!(reports_missing(MissingToolsReport::Always, false));
    assert!(reports_missing(MissingToolsReport::IfOtherVersionsInstalled, true));
    assert!(!reports_missing(MissingToolsReport::IfOtherVersionsInstalled, false));
}

#[test]
fn new_list_is_empty() {
    let l = ToolVersionList::new(fa("node"), ToolSource::Argument);
    assert!(l.requests.is_empty() && l.versions.is_empty());
    assert_eq!(l.forge.id, "node");
}

#[test]
fn from_request_set_keeps_order_and_source() {
    let tools = vec![
        (fa("python"), vec![req("python", "3.11"), req("python", "3.12")]),
        (fa("node"), vec![req("node", "20")]),
    ];
    let ts = Toolset::from_request_set(ToolSource::ToolVersionsFile(".tool-versions".to_string()), tools);
    assert_eq!(ids(&ts), vec!["python", "node"]);
    assert_eq!(ts.versions[0].requests.len(), 2);
    match &ts.versions[1].source {
        ToolSource::ToolVersionsFile(p) => assert_eq!(p, ".tool-versions"),
        other => panic!("unexpected source {:?}", other),
    }
    let all: Vec<String> = ts
        .list_current_requests()
        .iter()
        .map(|r| format!("{}@{}", r.forge.id, r.version))
        .collect();
    assert_eq!(all, vec!["python@3.11", "python@3.12", "node@20"]);
}

#[test]
fn install_missing_bin_takes_first_provider_with_missing() {
    let mut ts = with_tools(ToolSource::Argument, &["node", "python", "ruby"]);
    resolved(&mut ts, &[1, 2, 1]);
    let installed = vec![vec![true], vec![true, false], vec![false]];
    let providers = vec!["node".to_string(), "python".to_string(), "ruby".to_string()];
    assert_eq!(ts.install_missing_bin(&installed, &providers), Some(vec![(1, 1)]));
    let only_node = vec!["node".to_string()];
    assert_eq!(ts.install_missing_bin(&installed, &only_node), None);
}

#[test]
fn toolset_display_text() {
    let mut ts = Toolset::new(ToolSource::Argument);
    ts.add_version(req("node", "20"));
    ts.add_version(req("node", "18"));
    let mut sys = req("cargo:eza", "");
    sys.kind = RequestKind::System;
    ts.add_version(sys);
    let mut pre = req("python", "3.1");
    pre.kind = RequestKind::Prefix;
    ts.add_version(pre);
    assert_eq!(ts.to_string(), "node@20 node@18, cargo:eza@system, python@prefix:3.1");
    assert_eq!(ts.versions[0].requests[0].to_string(), "node@20");
}
