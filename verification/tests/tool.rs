use moon_dst::path::{Component, FsPath};
use moon_dst::tool::{
    check_moon_available, exit_code, get_moon_bin, home_moon_path, probe_args, run_moon_command,
    step_outcome, tool_args, Fatal, ToolError, ToolOutput, ToolUnavailable,
};
use moon_dst::worker::{Action, Outcome};
use moon_dst::justfile::JustfileMode;
use std::path::Path;

fn fs_path(text: &str) -> FsPath {
    let mut parts = Vec::new();
    for c in Path::new(text).components() {
        parts.push(match c {
            std::path::Component::Prefix(p) => {
                Component::Prefix(p.as_os_str().to_string_lossy().into_owned())
            }
            std::path::Component::RootDir => Component::RootDir,
            std::path::Component::CurDir => Component::CurDir,
            std::path::Component::ParentDir => Component::ParentDir,
            std::path::Component::Normal(n) => Component::Normal(n.to_string_lossy().into_owned()),
        });
    }
    FsPath::new(parts)
}

fn names(list: &[&str]) -> Vec<String> {
    list.iter().map(|s| s.to_string()).collect()
}

fn output(success: bool, code: Option<i32>, stdout: &str, stderr: &str) -> ToolOutput {
    ToolOutput { success, code, stdout: stdout.to_string(), stderr: stderr.to_string() }
}

#[test]
fn binary_on_the_search_path_wins() {
    let home = fs_path("/home/u");
    assert_eq!(get_moon_bin(true, Some(&home), true), fs_path("moon"));
    assert_eq!(get_moon_bin(true, None, false), fs_path("moon"));
}

#[test]
fn home_installation_is_the_fallback() {
    let home = fs_path("/home/u");
    assert_eq!(home_moon_path(&home), fs_path("/home/u/.moon/bin/moon"));
    assert_eq!(get_moon_bin(false, Some(&home), true), fs_path("/home/u/.moon/bin/moon"));
}

#[test]
fn bare_name_is_kept_when_nothing_is_found() {
    let home = fs_path("/home/u");
    assert_eq!(get_moon_bin(false, Some(&home), false), fs_path("moon"));
    assert_eq!(get_moon_bin(false, None, false), fs_path("moon"));
    assert_eq!(get_moon_bin(false, None, true), fs_path("moon"));
}

#[test]
fn preflight_fails_when_the_probe_fails() {
    assert_eq!(check_moon_available(true), Ok(()));
    assert_eq!(check_moon_available(false), Err(ToolUnavailable));
    assert_eq!(
        ToolUnavailable.message(),
        "'moon' CLI not found. Checked PATH and ~/.moon/bin/moon. Please install MoonBit first."
    );
    assert_eq!(probe_args(), names(&["version"]));
}

#[test]
fn zero_exit_gives_stdout() {
    let r = run_moon_command(&names(&["update"]), Some(output(true, Some(0), "done\n", "warn")));
    assert_eq!(r, Ok("done\n".to_string()));
}

#[test]
fn non_zero_exit_gives_code_and_stderr() {
    let r = run_moon_command(&names(&["add", "x/core"]), Some(output(false, Some(2), "out", "bad dep")));
    assert_eq!(r, Err(ToolError::Failed { exit_code: 2, stderr: "bad dep".to_string() }));
    assert_eq!(r.unwrap_err().message(), "exit code 2: bad dep");
}

#[test]
fn signal_gives_minus_one() {
    let r = run_moon_command(&names(&["update"]), Some(output(false, None, "", "killed")));
    assert_eq!(r, Err(ToolError::Failed { exit_code: -1, stderr: "killed".to_string() }));
    assert_eq!(r.unwrap_err().message(), "exit code -1: killed");
}

#[test]
fn launch_failure_names_the_command() {
    let r = run_moon_command(&names(&["add", "x/core"]), None);
    assert_eq!(r, Err(ToolError::Launch { args: names(&["add", "x/core"]) }));
    assert_eq!(r.unwrap_err().message(), "Failed to execute moon add x/core");
    assert_eq!(ToolError::Launch { args: Vec::new() }.message(), "Failed to execute moon");
}

#[test]
fn step_outcome_carries_the_message() {
    assert_eq!(step_outcome(Ok("out".to_string())), Outcome::Success);
    assert_eq!(
        step_outcome(Err(ToolError::Failed { exit_code: 101, stderr: "x".to_string() })),
        Outcome::Failure("exit code 101: x".to_string())
    );
}

#[test]
fn steps_invoke_update_and_add() {
    assert_eq!(tool_args(&Action::Update { announce: false, execute: true, confirm: false }), names(&["update"]));
    assert_eq!(
        tool_args(&Action::Add { dep: "x/core".to_string(), announce: true, execute: true }),
        names(&["add", "x/core"])
    );
    assert_eq!(
        tool_args(&Action::Justfile { mode: JustfileMode::Create, dry_run: false, verbose: false }),
        Vec::<String>::new()
    );
    assert_eq!(tool_args(&Action::Finished), Vec::<String>::new());
}

#[test]
fn exit_code_is_zero_only_on_full_success() {
    assert_eq!(exit_code(&Ok(true)), 0);
    assert_eq!(exit_code(&Ok(false)), 1);
    assert_eq!(exit_code(&Err(Fatal::ToolUnavailable)), 1);
    assert_eq!(exit_code(&Err(Fatal::BadRoot { message: "Invalid root path: x".to_string() })), 1);
    assert_eq!(exit_code(&Err(Fatal::Walk { message: "loop".to_string() })), 1);
}
