use moon_dst::model::{FailedPackage, RepoResult};
use moon_dst::orchestrator::{
    resolve_worker_count, result_lines, status_label, worker_count, ApplyReport, Orchestrator,
};
use moon_dst::justfile::JustfileMode;
use moon_dst::model::{MoonModInfo, RepoInfo};
use moon_dst::path::{Component, FsPath};
use moon_dst::tool::exit_code;
use moon_dst::worker::{Action, ApplyOptions, Outcome, Worker};
use std::path::Path;

fn fs_path(text: &str) -> FsPath {
    let mut parts = Vec::new();
    for c in Path::new(text).components() {
        parts.push(match c {
            std::path::Component::Prefix(p) => {
                Component::Prefix(p.as_os_str().to_string_lossy().into_owned())
            }
            std::path::Component::RootDir => Component::RootDir,
            std::path::Component::CurDir => Component::CurDir,
            std::path::Component::ParentDir => Component::ParentDir,
            std::path::Component::Normal(n) => Component::Normal(n.to_string_lossy().into_owned()),
        });
    }
    FsPath::new(parts)
}

fn names(list: &[&str]) -> Vec<String> {
    list.iter().map(|s| s.to_string()).collect()
}

fn result(root: &str, success: bool) -> RepoResult {
    RepoResult {
        repo_root: fs_path(root),
        success,
        updated_packages: Vec::new(),
        failed_packages: Vec::new(),
        errors: Vec::new(),
    }
}

#[test]
fn worker_count_is_half_the_cores_and_at_least_one() {
    assert_eq!(worker_count(None, 8), 4);
    assert_eq!(worker_count(None, 9), 4);
    assert_eq!(worker_count(None, 1), 1);
    assert_eq!(worker_count(None, 0), 1);
    assert_eq!(worker_count(Some(3), 64), 3);
    assert_eq!(worker_count(Some(0), 64), 1);
    assert_eq!(worker_count(Some(usize::MAX), 2), usize::MAX);
}

#[test]
fn worker_count_follows_the_machine() {
    assert_eq!(resolve_worker_count(Some(5)), 5);
    assert_eq!(resolve_worker_count(Some(0)), 1);
    let n = resolve_worker_count(None);
    assert!(n >= 1);
    assert_eq!(n, std::cmp::max(1, num_cpus::get() / 2));
}

#[test]
fn all_repositories_run_without_fail_fast() {
    let mut o = Orchestrator::new(3, false);
    assert!(o.try_start());
    assert!(o.collect(result("/w/b", false)));
    assert!(!o.stopped());
    assert!(o.try_start());
    assert!(o.collect(result("/w/a", true)));
    assert!(o.try_start());
    assert!(o.collect(result("/w/c", true)));
    assert!(!o.try_start());
    let report = o.finish();
    assert!(!report.success);
    assert_eq!(report.succeeded, 2);
    assert_eq!(
        report.results,
        vec![result("/w/a", true), result("/w/b", false), result("/w/c", true)]
    );
    assert_eq!(report.summary_line(), "Summary: 2/3 repos succeeded");
}

#[test]
fn fail_fast_stops_new_workers_after_a_failure() {
    let mut o = Orchestrator::new(3, true);
    assert!(o.try_start());
    assert!(!o.stopped());
    assert!(o.collect(result("/w/1", false)));
    assert!(o.stopped());
    assert!(!o.try_start());
    assert!(!o.try_start());
    assert!(!o.try_start());
    let report = o.finish();
    assert!(!report.success);
    assert_eq!(report.results, vec![result("/w/1", false)]);
    assert_eq!(report.summary_line(), "Summary: 0/1 repos succeeded");
}

#[test]
fn fail_fast_lets_workers_in_flight_finish() {
    let mut o = Orchestrator::new(3, true);
    assert!(o.try_start());
    assert!(o.try_start());
    assert!(o.collect(result("/w/2", false)));
    assert!(!o.try_start());
    assert!(o.collect(result("/w/1", true)));
    let report = o.finish();
    assert!(!report.success);
    assert_eq!(report.succeeded, 1);
    assert_eq!(report.results, vec![result("/w/1", true), result("/w/2", false)]);
    assert!(report.results.len() <= 3);
}

#[test]
fn fail_fast_without_failure_runs_everything() {
    let mut o = Orchestrator::new(2, true);
    assert!(o.try_start());
    assert!(o.collect(result("/w/1", true)));
    assert!(o.try_start());
    assert!(o.collect(result("/w/2", true)));
    let report = o.finish();
    assert!(report.success);
    assert_eq!(report.succeeded, 2);
}

#[test]
fn fail_fast_needs_a_result_for_every_repository() {
    let mut o = Orchestrator::new(2, true);
    assert!(o.try_start());
    assert!(o.collect(result("/w/1", true)));
    let report = o.finish();
    assert!(!report.success);
    assert_eq!(report.succeeded, 1);

    let mut o = Orchestrator::new(2, false);
    assert!(o.try_start());
    assert!(o.collect(result("/w/1", true)));
    assert!(o.finish().success);
}

#[test]
fn a_result_without_a_started_worker_is_refused() {
    let mut o = Orchestrator::new(1, false);
    assert!(!o.collect(result("/w/1", true)));
    assert!(o.try_start());
    assert!(o.collect(result("/w/1", true)));
    assert!(!o.collect(result("/w/1", true)));
    assert_eq!(o.finish().results.len(), 1);
}

#[test]
fn empty_run_succeeds() {
    let mut o = Orchestrator::new(0, true);
    assert!(!o.try_start());
    let report = o.finish();
    assert!(report.success);
    assert_eq!(report.succeeded, 0);
    assert_eq!(report.summary_line(), "Summary: 0/0 repos succeeded");
}

#[test]
fn report_lines_list_updates_failures_and_errors() {
    assert_eq!(status_label(true), "OK");
    assert_eq!(status_label(false), "FAILED");
    let r = RepoResult {
        repo_root: fs_path("/w/1"),
        success: false,
        updated_packages: names(&["a", "b"]),
        failed_packages: vec![
            FailedPackage { name: "c".to_string(), message: "exit code 1: x".to_string() },
            FailedPackage { name: "d".to_string(), message: "exit code -1: ".to_string() },
        ],
        errors: names(&["justfile handling failed: denied"]),
    };
    assert_eq!(
        result_lines(&r),
        names(&[
            "  Updated: 2 packages",
            "  Failed packages:",
            "    - c: exit code 1: x",
            "    - d: exit code -1: ",
            "  Error: justfile handling failed: denied",
        ])
    );
    assert_eq!(result_lines(&result("/w/1", true)), Vec::<String>::new());
}

#[test]
fn summary_counts_what_was_reported() {
    let report = ApplyReport {
        results: vec![result("/a", true), result("/b", true)],
        succeeded: 2,
        success: true,
    };
    assert_eq!(report.summary_line(), "Summary: 2/2 repos succeeded");
}

fn repo(root: &str, deps: &[&str]) -> RepoInfo {
    RepoInfo {
        root: fs_path(root),
        moon_mods: vec![MoonModInfo {
            path: fs_path(root).child("moon.mod.json"),
            deps: names(deps),
        }],
    }
}

fn work(repo: &RepoInfo, options: &ApplyOptions, failing: &str) -> RepoResult {
    let mut worker = Worker::new(repo, options);
    loop {
        let outcome = match worker.next_action() {
            Action::Add { dep, .. } if dep == failing => Outcome::Failure("exit code 1: no".to_string()),
            Action::Finished => break,
            _ => Outcome::Success,
        };
        worker.advance(outcome);
    }
    worker.finish().unwrap()
}

#[test]
fn fail_fast_run_reports_failure_and_only_complete_results() {
    let repos = vec![repo("/w/1", &["a", "bad", "c"]), repo("/w/2", &["a"]), repo("/w/3", &["a"])];
    let options = ApplyOptions {
        skip_update: false,
        repeat: 1,
        packages: Vec::new(),
        dry_run: false,
        verbose: false,
        write_justfile: true,
        justfile_mode: JustfileMode::Create,
    };
    let mut o = Orchestrator::new(repos.len(), true);
    for r in &repos {
        if o.try_start() {
            assert!(o.collect(work(r, &options, "bad")));
        }
    }
    let report = o.finish();
    assert!(!report.success);
    assert_eq!(exit_code(&Ok(report.success)), 1);
    assert!(report.results.len() <= repos.len());
    assert_eq!(report.results.len(), 1);
    let first = &report.results[0];
    assert_eq!(first.repo_root, fs_path("/w/1"));
    assert!(!first.success);
    assert_eq!(first.updated_packages, names(&["a", "c"]));
    assert_eq!(
        first.failed_packages,
        vec![FailedPackage { name: "bad".to_string(), message: "exit code 1: no".to_string() }]
    );
    assert_eq!(report.summary_line(), "Summary: 0/1 repos succeeded");
}
