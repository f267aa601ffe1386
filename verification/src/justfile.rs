//! Installing the task-runner file of a repository: what to do under each
//! mode, and the tally over many repositories.

use crate::path::{FsPath, Segment};
use crate::text::{decimal, decimal_string, joined};
use vstd::prelude::*;

verus! {

/// The text written to a new `justfile`.
pub const JUSTFILE_TEMPLATE: &'static str =
    "# https://github.com/mizchi/moonbit-template\n# SPDX-License-Identifier: MIT\n# MoonBit Project Commands\n\ntarget := \"js\"\n\ndefault: check test\n\nfmt:\n    moon fmt\n\ncheck:\n    moon check --deny-warn --target {{target}}\n\ntest:\n    moon test --target {{target}}\n\ntest-update:\n    moon test --update --target {{target}}\n\nrun:\n    moon run src/main --target {{target}}\n\ninfo:\n    moon info\n\nclean:\n    moon clean\n\nrelease-check: fmt info check test\n";

/// How an existing or missing `justfile` is treated.
#[derive(Clone, Copy, Debug, PartialEq, Eq, Structural)]
pub enum JustfileMode {
    /// Never write.
    Skip,
    /// Write the template where no file exists yet.
    Create,
    /// Reserved; behaves as `Skip`.
    Merge,
}

impl Default for JustfileMode {
    fn default() -> (m: JustfileMode)
        ensures
            m == JustfileMode::Create,
    {
        JustfileMode::Create
    }
}

/// The diagnostic that goes with a decision.
#[derive(Clone, Copy, Debug, PartialEq, Eq, Structural)]
pub enum JustfileNote {
    /// Nothing to say.
    Silent,
    /// The file is skipped because the mode is `Skip`.
    SkipMode,
    /// The file exists already and is left alone.
    AlreadyExists,
    /// The file is being created.
    Creating,
    /// Merging is not available.
    MergeUnsupported,
}

/// What the installer does for one repository.
#[derive(Clone, Copy, Debug, PartialEq, Eq, Structural)]
pub struct JustfilePlan {
    /// The diagnostic to print.
    pub note: JustfileNote,
    /// Whether the template is to be written to disk.
    pub write: bool,
    /// Whether the file counts as created.
    pub created: bool,
}

/// The decision for one repository. Only `Create` on a missing file creates;
/// a dry run creates without writing. Diagnostics other than the creation
/// notice appear only when verbose.
pub open spec fn justfile_plan(
    mode: JustfileMode,
    present: bool,
    dry_run: bool,
    verbose: bool,
) -> JustfilePlan {
    match mode {
        JustfileMode::Skip => JustfilePlan {
            note: if verbose {
                JustfileNote::SkipMode
            } else {
                JustfileNote::Silent
            },
            write: false,
            created: false,
        },
        JustfileMode::Create => if present {
            JustfilePlan {
                note: if verbose {
                    JustfileNote::AlreadyExists
                } else {
                    JustfileNote::Silent
                },
                write: false,
                created: false,
            }
        } else {
            JustfilePlan {
                note: if verbose || dry_run {
                    JustfileNote::Creating
                } else {
                    JustfileNote::Silent
                },
                write: !dry_run,
                created: true,
            }
        },
        JustfileMode::Merge => JustfilePlan {
            note: if verbose {
                JustfileNote::MergeUnsupported
            } else {
                JustfileNote::Silent
            },
            write: false,
            created: false,
        },
    }
}

/// Decides what to do about the `justfile` of one repository, given whether
/// it exists.
pub fn handle_justfile(mode: JustfileMode, present: bool, dry_run: bool, verbose: bool) -> (plan:
    JustfilePlan)
    ensures
        plan == justfile_plan(mode, present, dry_run, verbose),
{
    match mode {
        JustfileMode::Skip => JustfilePlan {
            note: if verbose {
                JustfileNote::SkipMode
            } else {
                JustfileNote::Silent
            },
            write: false,
            created: false,
        },
        JustfileMode::Create => {
            if present {
                JustfilePlan {
                    note: if verbose {
                        JustfileNote::AlreadyExists
                    } else {
                        JustfileNote::Silent
                    },
                    write: false,
                    created: false,
                }
            } else {
                JustfilePlan {
                    note: if verbose || dry_run {
                        JustfileNote::Creating
                    } else {
                        JustfileNote::Silent
                    },
                    write: !dry_run,
                    created: true,
                }
            }
        },
        JustfileMode::Merge => JustfilePlan {
            note: if verbose {
                JustfileNote::MergeUnsupported
            } else {
                JustfileNote::Silent
            },
            write: false,
            created: false,
        },
    }
}

/// Whether the file exists once a plan has been carried out without error.
pub open spec fn exists_after(present: bool, plan: JustfilePlan) -> bool {
    present || plan.write
}

/// The plan of a second run on what a first run, carried out without error,
/// left behind.
pub open spec fn second_plan(
    mode: JustfileMode,
    present: bool,
    dry_run: bool,
    verbose: bool,
) -> JustfilePlan {
    justfile_plan(
        mode,
        exists_after(present, justfile_plan(mode, present, dry_run, verbose)),
        dry_run,
        verbose,
    )
}

/// Installing twice writes at most once: whatever the mode and the flags, a
/// second run on what the first run left behind writes nothing, and outside a
/// dry run it creates nothing.
pub proof fn lemma_second_install_creates_nothing(
    mode: JustfileMode,
    present: bool,
    dry_run: bool,
    verbose: bool,
)
    ensures
        !second_plan(mode, present, dry_run, verbose).write,
        !dry_run ==> !second_plan(mode, present, dry_run, verbose).created,
{
}

/// The path of the `justfile` of the repository at `root`.
pub fn justfile_path(root: &FsPath) -> (p: FsPath)
    ensures
        p@ == root@.push(Segment::Normal("justfile"@)),
{
    root.child("justfile")
}

/// The template could not be written.
#[derive(Clone, Debug, PartialEq, Eq)]
pub struct JustfileWriteFailed {
    /// The file that was to be written.
    pub path: FsPath,
    /// What the system reported.
    pub cause: String,
}

/// The result of installing into the repository at `root`, once the plan
/// has been carried out: the write error where there was one, else whether
/// the file was created.
pub fn install_outcome(
    root: &FsPath,
    plan: JustfilePlan,
    write_error: Option<String>,
) -> (r: Result<bool, JustfileWriteFailed>)
    ensures
        match r {
            Ok(created) => write_error is None && created == plan.created,
            Err(e) => write_error is Some && e.cause == write_error->0 && e.path@ == root@.push(
                Segment::Normal("justfile"@),
            ),
        },
{
    match write_error {
        Some(cause) => Err(JustfileWriteFailed { path: justfile_path(root), cause }),
        None => Ok(plan.created),
    }
}

/// How often the installer created a file and how often it did not.
#[derive(Clone, Copy, Debug, PartialEq, Eq, Structural)]
pub struct JustTally {
    pub created: usize,
    pub skipped: usize,
}

/// What installing into one repository came to: `Some(created)`, or `None`
/// where the write failed.
pub open spec fn count_outcomes(outcomes: Seq<Option<bool>>, wanted: bool) -> nat
    decreases outcomes.len(),
{
    if outcomes.len() == 0 {
        0
    } else {
        count_outcomes(outcomes.drop_last(), wanted) + if outcomes.last() == Some(wanted) {
            1nat
        } else {
            0nat
        }
    }
}

/// Counts the repositories where a file was created and those where none
/// was; a failed write counts as neither.
pub fn cmd_just(outcomes: &Vec<Option<bool>>) -> (tally: JustTally)
    ensures
        tally.created == count_outcomes(outcomes@, true),
        tally.skipped == count_outcomes(outcomes@, false),
{
    let mut tally = JustTally { created: 0, skipped: 0 };
    let mut i: usize = 0;
    while i < outcomes.len()
        invariant
            i <= outcomes.len(),
            tally.created == count_outcomes(outcomes@.subrange(0, i as int), true),
            tally.skipped == count_outcomes(outcomes@.subrange(0, i as int), false),
            tally.created + tally.skipped <= i,
        decreases outcomes.len() - i,
    {
        assert(outcomes@.subrange(0, i + 1).drop_last() =~= outcomes@.subrange(0, i as int));
        match outcomes[i] {
            Some(true) => {
                tally.created = tally.created + 1;
            },
            Some(false) => {
                tally.skipped = tally.skipped + 1;
            },
            None => {},
        }
        i = i + 1;
    }
    assert(outcomes@.subrange(0, i as int) =~= outcomes@);
    tally
}

/// The summary line of a tally.
pub open spec fn just_summary(tally: JustTally) -> Seq<char> {
    "Summary: "@ + decimal(tally.created as nat) + " created, "@ + decimal(tally.skipped as nat)
        + " skipped"@
}

impl JustTally {
    /// Renders the summary line: how many files were created, how many
    /// skipped.
    pub fn summary_line(&self) -> (s: String)
        ensures
            s@ == just_summary(*self),
    {
        let a = joined("Summary: ", decimal_string(self.created as u64).as_str());
        let b = joined(a.as_str(), " created, ");
        let c = joined(b.as_str(), decimal_string(self.skipped as u64).as_str());
        joined(c.as_str(), " skipped")
    }
}

} // verus!
