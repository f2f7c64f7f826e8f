use toolset::forge_arg::{Dirs, ForgeArg};
use toolset::scheduler::{get_leaf_dependencies, job_count, plan_queue, InstallOptions, Scheduler};
use toolset::tool::{RequestKind, ToolRequest};

fn fa(s: &str) -> ForgeArg {
    let d = Dirs { cache: "/c".to_string(), installs: "/i".to_string(), downloads: "/d".to_string() };
    ForgeArg::parse(s, &d)
}

fn req(tool: &str, version: &str, deps: &[&str]) -> ToolRequest {
    ToolRequest {
        forge: fa(tool),
        kind: RequestKind::Version,
        version: version.to_string(),
        dependencies: deps.iter().map(|d| fa(d)).collect(),
    }
}

#[test]
fn leaves_are_requests_without_batch_dependencies() {
    let batch = vec![req("npm:prettier", "3", &["node"]), req("node", "20", &[]), req("python", "3", &["gcc"])];
    assert_eq!(get_leaf_dependencies(&batch), vec![1, 2]);
    let leaves_only = vec![req("node", "20", &[])];
    assert_eq!(get_leaf_dependencies(&leaves_only), vec![0]);
}

#[test]
fn queue_has_one_job_per_tool_in_declared_order() {
    let batch = vec![req("node", "20", &[]), req("python", "3", &[]), req("node", "18", &[])];
    let q = plan_queue(&batch);
    assert_eq!(q.len(), 2);
    assert_eq!(q[0].forge.id, "node");
    assert_eq!(q[0].requests, vec![0, 2]);
    assert_eq!(q[1].forge.id, "python");
    assert_eq!(q[1].requests, vec![1]);
}

#[test]
fn leaf_first_dependency_waits_for_install() {
    // X depends on Y; two workers
    let batch = vec![req("npm:x", "1", &["y"]), req("y", "1", &[])];
    let leaves = get_leaf_dependencies(&batch);
    assert_eq!(leaves, vec![1]);
    let mut s = Scheduler::new(plan_queue(&batch));
    // the first worker takes X's job, the second Y's
    let x = s.next_job().unwrap();
    assert_eq!(x.forge.id, "npm:x");
    let y = s.next_job().unwrap();
    assert_eq!(y.forge.id, "y");
    let deps = &batch[x.requests[0]].dependencies;
    assert!(!s.can_start(deps));
    s.finish(&y.forge.id);
    assert!(s.can_start(deps));
    assert!(s.next_job().is_none());
    s.finish(&x.forge.id);
    assert!(s.installing.is_empty());
}

#[test]
fn one_tool_in_flight_at_a_time() {
    let batch = vec![req("node", "20", &[]), req("node", "18", &[]), req("ruby", "3", &[])];
    let mut s = Scheduler::new(plan_queue(&batch));
    let a = s.next_job().unwrap();
    let b = s.next_job().unwrap();
    assert_ne!(a.forge.id, b.forge.id);
    assert_eq!(s.installing, vec!["node".to_string(), "ruby".to_string()]);
    assert!(s.next_job().is_none());
}

#[test]
fn job_count_rules() {
    let mut opts = InstallOptions::new(4, false);
    assert_eq!(opts.jobs, Some(4));
    assert_eq!(job_count(&opts, 8, false), 4);
    assert_eq!(job_count(&opts, 8, true), 1);
    opts.jobs = None;
    assert_eq!(job_count(&opts, 8, false), 8);
    opts.raw = true;
    assert_eq!(job_count(&opts, 8, false), 1);
}
