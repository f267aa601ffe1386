use moon_dst::justfile::{
    cmd_just, handle_justfile, install_outcome, justfile_path, JustTally, JustfileMode, JustfileNote,
    JustfilePlan, JustfileWriteFailed, JUSTFILE_TEMPLATE,
};
use moon_dst::path::{Component, FsPath};
use std::path::Path;

fn fs_path(text: &str) -> FsPath {
    let mut parts = Vec::new();
    for c in Path::new(text).components() {
        parts.push(match c {
            std::path::Component::Prefix(p) => {
                Component::Prefix(p.as_os_str().to_string_lossy().into_owned())
            }
            std::path::Component::RootDir => Component::RootDir,
            std::path::Component::CurDir => Component::CurDir,
            std::path::Component::ParentDir => Component::ParentDir,
            std::path::Component::Normal(n) => Component::Normal(n.to_string_lossy().into_owned()),
        });
    }
    FsPath::new(parts)
}

#[test]
fn default_mode_is_create() {
    assert_eq!(JustfileMode::default(), JustfileMode::Create);
}

#[test]
fn skip_never_writes() {
    for present in [false, true] {
        for dry_run in [false, true] {
            assert_eq!(
                handle_justfile(JustfileMode::Skip, present, dry_run, false),
                JustfilePlan { note: JustfileNote::Silent, write: false, created: false }
            );
            assert_eq!(
                handle_justfile(JustfileMode::Skip, present, dry_run, true),
                JustfilePlan { note: JustfileNote::SkipMode, write: false, created: false }
            );
        }
    }
}

#[test]
fn merge_behaves_as_skip_with_a_diagnostic() {
    for present in [false, true] {
        for dry_run in [false, true] {
            assert_eq!(
                handle_justfile(JustfileMode::Merge, present, dry_run, true),
                JustfilePlan { note: JustfileNote::MergeUnsupported, write: false, created: false }
            );
            assert_eq!(
                handle_justfile(JustfileMode::Merge, present, dry_run, false),
                JustfilePlan { note: JustfileNote::Silent, write: false, created: false }
            );
        }
    }
}

#[test]
fn create_writes_only_where_the_file_is_missing() {
    assert_eq!(
        handle_justfile(JustfileMode::Create, false, false, false),
        JustfilePlan { note: JustfileNote::Silent, write: true, created: true }
    );
    assert_eq!(
        handle_justfile(JustfileMode::Create, false, false, true),
        JustfilePlan { note: JustfileNote::Creating, write: true, created: true }
    );
    assert_eq!(
        handle_justfile(JustfileMode::Create, true, false, false),
        JustfilePlan { note: JustfileNote::Silent, write: false, created: false }
    );
    assert_eq!(
        handle_justfile(JustfileMode::Create, true, false, true),
        JustfilePlan { note: JustfileNote::AlreadyExists, write: false, created: false }
    );
}

#[test]
fn dry_run_creates_without_writing() {
    assert_eq!(
        handle_justfile(JustfileMode::Create, false, true, false),
        JustfilePlan { note: JustfileNote::Creating, write: false, created: true }
    );
    assert_eq!(
        handle_justfile(JustfileMode::Create, true, true, false),
        JustfilePlan { note: JustfileNote::Silent, write: false, created: false }
    );
}

#[test]
fn create_mode_is_idempotent() {
    let root = fs_path("/repo");
    let mut present = false;

    let first = handle_justfile(JustfileMode::Create, present, false, false);
    present = present || first.write;
    let first_outcome = install_outcome(&root, first, None);
    assert_eq!(first_outcome, Ok(true));
    assert_eq!(cmd_just(&vec![Some(true)]).summary_line(), "Summary: 1 created, 0 skipped");

    let second = handle_justfile(JustfileMode::Create, present, false, false);
    assert!(!second.write);
    let second_outcome = install_outcome(&root, second, None);
    assert_eq!(second_outcome, Ok(false));
    assert_eq!(cmd_just(&vec![Some(false)]).summary_line(), "Summary: 0 created, 1 skipped");
}

#[test]
fn second_run_never_writes() {
    for mode in [JustfileMode::Skip, JustfileMode::Create, JustfileMode::Merge] {
        for present in [false, true] {
            for dry_run in [false, true] {
                let first = handle_justfile(mode, present, dry_run, false);
                let second = handle_justfile(mode, present || first.write, dry_run, false);
                assert!(!second.write);
                if !dry_run {
                    assert!(!second.created);
                }
            }
        }
    }
}

#[test]
fn write_failure_names_the_file() {
    let plan = handle_justfile(JustfileMode::Create, false, false, false);
    assert_eq!(justfile_path(&fs_path("/repo")), fs_path("/repo/justfile"));
    assert_eq!(
        install_outcome(&fs_path("/repo"), plan, Some("permission denied".to_string())),
        Err(JustfileWriteFailed {
            path: fs_path("/repo/justfile"),
            cause: "permission denied".to_string()
        })
    );
}

#[test]
fn tally_counts_created_and_skipped() {
    let outcomes = vec![Some(true), Some(false), None, Some(true), Some(false), Some(false)];
    let tally = cmd_just(&outcomes);
    assert_eq!(tally, JustTally { created: 2, skipped: 3 });
    assert_eq!(tally.summary_line(), "Summary: 2 created, 3 skipped");
    assert_eq!(cmd_just(&Vec::new()), JustTally { created: 0, skipped: 0 });
}

#[test]
fn template_holds_the_standard_tasks() {
    let expected = r#"# https://github.com/mizchi/moonbit-template
# SPDX-License-Identifier: MIT
# MoonBit Project Commands

target := "js"

default: check test

fmt:
    moon fmt

check:
    moon check --deny-warn --target {{target}}

test:
    moon test --target {{target}}

test-update:
    moon test --update --target {{target}}

run:
    moon run src/main --target {{target}}

info:
    moon info

clean:
    moon clean

release-check: fmt info check test
"#;
    assert_eq!(JUSTFILE_TEMPLATE, expected);
}
