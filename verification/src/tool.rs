//! The adapter to the external `moon` tool: which binary to launch, what a
//! finished invocation amounts to, and how a failure reads.

use crate::model::duplicate_names;
use crate::path::{FsPath, Segment};
use crate::sorting::views;
use crate::text::{joined, signed_decimal, signed_decimal_string};
use crate::worker::{Action, ActionView, Outcome};
use vstd::prelude::*;

verus! {

/// The bare name of the tool, which the system looks up on the search path.
pub open spec fn bare_moon() -> Seq<Segment> {
    seq![Segment::Normal("moon"@)]
}

/// Where the tool is installed below the home directory `home`.
pub open spec fn home_moon(home: Seq<Segment>) -> Seq<Segment> {
    home.push(Segment::Normal(".moon"@)).push(Segment::Normal("bin"@)).push(
        Segment::Normal("moon"@),
    )
}

/// The binary to launch: the bare name where the tool answers on the search
/// path; else the installation below the home directory where that file
/// exists; else the bare name again, so that launching it reports that the
/// tool is missing.
pub open spec fn moon_bin(on_path: bool, home: Option<Seq<Segment>>, home_bin_exists: bool) -> Seq<
    Segment,
> {
    if !on_path && home is Some && home_bin_exists {
        home_moon(home->0)
    } else {
        bare_moon()
    }
}

/// Computes where the tool is installed below `home`.
pub fn home_moon_path(home: &FsPath) -> (p: FsPath)
    ensures
        p@ == home_moon(home@),
{
    home.child(".moon").child("bin").child("moon")
}

/// Chooses the binary to launch. `on_path` tells whether `moon version`
/// succeeded through the search path, `home` is the home directory where one
/// is known, and `home_bin_exists` tells whether the installation below it
/// exists.
pub fn get_moon_bin(on_path: bool, home: Option<&FsPath>, home_bin_exists: bool) -> (bin: FsPath)
    ensures
        bin@ == moon_bin(
            on_path,
            match home {
                Some(h) => Some(h@),
                None => None,
            },
            home_bin_exists,
        ),
{
    if !on_path && home_bin_exists {
        match home {
            Some(h) => {
                return home_moon_path(h);
            },
            None => {},
        }
    }
    let mut parts: Vec<crate::path::Component> = Vec::new();
    parts.push(crate::path::Component::Normal(String::from_str("moon")));
    let bin = FsPath::new(parts);
    assert(bin@ =~= bare_moon());
    bin
}

/// The tool could not be run at all.
#[derive(Clone, Copy, Debug, PartialEq, Eq, Structural)]
pub struct ToolUnavailable;

/// What is said when the tool is unavailable; it names both places that
/// were looked at.
pub open spec fn unavailable_message() -> Seq<char> {
    "'moon' CLI not found. Checked PATH and ~/.moon/bin/moon. Please install MoonBit first."@
}

impl ToolUnavailable {
    /// The message for the user.
    pub fn message(&self) -> (s: String)
        ensures
            s@ == unavailable_message(),
    {
        String::from_str(
            "'moon' CLI not found. Checked PATH and ~/.moon/bin/moon. Please install MoonBit first.",
        )
    }
}

/// The pre-flight check: `probe_ok` tells whether `moon version`, launched
/// through the chosen binary, succeeded.
pub fn check_moon_available(probe_ok: bool) -> (r: Result<(), ToolUnavailable>)
    ensures
        r is Ok <==> probe_ok,
{
    if probe_ok {
        Ok(())
    } else {
        Err(ToolUnavailable)
    }
}

/// What a finished process left behind.
#[derive(Clone, Debug, PartialEq, Eq)]
pub struct ToolOutput {
    /// Whether the process reported success.
    pub success: bool,
    /// The exit code, unless a signal ended the process.
    pub code: Option<i32>,
    pub stdout: String,
    pub stderr: String,
}

/// Why an invocation of the tool failed.
#[derive(Clone, Debug, PartialEq, Eq)]
pub enum ToolError {
    /// The process could not be launched.
    Launch { args: Vec<String> },
    /// The process ran and reported failure.
    Failed { exit_code: i32, stderr: String },
}

/// The mathematical value of a [`ToolError`].
pub enum ToolErrorView {
    Launch { args: Seq<Seq<char>> },
    Failed { exit_code: int, stderr: Seq<char> },
}

impl View for ToolError {
    type V = ToolErrorView;

    open spec fn view(&self) -> ToolErrorView {
        match *self {
            ToolError::Launch { args } => ToolErrorView::Launch { args: views(args@) },
            ToolError::Failed { exit_code, stderr } => ToolErrorView::Failed {
                exit_code: exit_code as int,
                stderr: stderr@,
            },
        }
    }
}

/// The exit code that is reported: the process's own, or -1 where a signal
/// ended it.
pub open spec fn reported_code(code: Option<i32>) -> int {
    match code {
        Some(c) => c as int,
        None => -1,
    }
}

/// `words` with a blank before each of them.
pub open spec fn spaced(words: Seq<Seq<char>>) -> Seq<char>
    decreases words.len(),
{
    if words.len() == 0 {
        Seq::empty()
    } else {
        spaced(words.drop_last()) + " "@ + words.last()
    }
}

/// How a failure reads.
pub open spec fn error_message(e: ToolErrorView) -> Seq<char> {
    match e {
        ToolErrorView::Launch { args } => "Failed to execute moon"@ + spaced(args),
        ToolErrorView::Failed { exit_code, stderr } => "exit code "@ + signed_decimal(exit_code)
            + ": "@ + stderr,
    }
}

impl ToolError {
    /// Renders the failure as a message.
    pub fn message(&self) -> (s: String)
        ensures
            s@ == error_message(self@),
    {
        match self {
            ToolError::Launch { args } => {
                let mut s: String = String::from_str("Failed to execute moon");
                let mut i: usize = 0;
                assert(views(args@).subrange(0, 0) =~= Seq::<Seq<char>>::empty());
                assert(s@ =~= "Failed to execute moon"@ + spaced(views(args@).subrange(0, 0)));
                while i < args.len()
                    invariant
                        i <= args.len(),
                        s@ == "Failed to execute moon"@ + spaced(
                            views(args@).subrange(0, i as int),
                        ),
                    decreases args.len() - i,
                {
                    proof {
                        let next = views(args@).subrange(0, i + 1);
                        assert(next.drop_last() =~= views(args@).subrange(0, i as int));
                        assert(next.last() == args[i as int]@);
                    }
                    let ghost before = s@;
                    s.append(" ");
                    s.append(args[i].as_str());
                    assert(s@ =~= "Failed to execute moon"@ + spaced(
                        views(args@).subrange(0, i + 1),
                    ));
                    i = i + 1;
                }
                assert(views(args@).subrange(0, i as int) =~= views(args@));
                s
            },
            ToolError::Failed { exit_code, stderr } => {
                let a = joined("exit code ", signed_decimal_string(*exit_code).as_str());
                let b = joined(a.as_str(), ": ");
                joined(b.as_str(), stderr.as_str())
            },
        }
    }
}

/// What an invocation of the tool with `args` amounts to. `output` is what
/// the process left behind, or nothing where it could not be launched. A
/// process that reports success gives its standard output; any other gives
/// its exit code, -1 where a signal ended it, and its standard error.
pub fn run_moon_command(args: &Vec<String>, output: Option<ToolOutput>) -> (r: Result<
    String,
    ToolError,
>)
    ensures
        match r {
            Ok(out) => output is Some && output->0.success && out == output->0.stdout,
            Err(e) => match output {
                None => e@ == (ToolErrorView::Launch { args: views(args@) }),
                Some(o) => !o.success && e@ == (ToolErrorView::Failed {
                    exit_code: reported_code(o.code),
                    stderr: o.stderr@,
                }),
            },
        },
{
    match output {
        None => Err(ToolError::Launch { args: duplicate_names(args) }),
        Some(o) => {
            if o.success {
                Ok(o.stdout)
            } else {
                let exit_code: i32 = match o.code {
                    Some(c) => c,
                    None => -1,
                };
                Err(ToolError::Failed { exit_code, stderr: o.stderr })
            }
        },
    }
}

/// How a step went, given what the invocation of the tool amounted to: a
/// failure carries its message.
pub fn step_outcome(result: Result<String, ToolError>) -> (o: Outcome)
    ensures
        o@ == match result {
            Ok(_) => None,
            Err(e) => Some(error_message(e@)),
        },
{
    match result {
        Ok(_) => Outcome::Success,
        Err(e) => Outcome::Failure(e.message()),
    }
}

/// The arguments of the invocation that checks for the tool.
pub fn probe_args() -> (args: Vec<String>)
    ensures
        views(args@) == seq!["version"@],
{
    let mut args: Vec<String> = Vec::new();
    args.push(String::from_str("version"));
    assert(views(args@) =~= seq!["version"@]);
    args
}

/// The arguments with which a step invokes the tool; none for a step that
/// does not invoke it.
pub open spec fn args_of(a: ActionView) -> Seq<Seq<char>> {
    match a {
        ActionView::Update { .. } => seq!["update"@],
        ActionView::Add { dep, .. } => seq!["add"@, dep],
        _ => Seq::empty(),
    }
}

/// Computes the arguments with which `action` invokes the tool.
pub fn tool_args(action: &Action) -> (args: Vec<String>)
    ensures
        views(args@) == args_of(action@),
{
    let mut args: Vec<String> = Vec::new();
    match action {
        Action::Update { .. } => {
            args.push(String::from_str("update"));
        },
        Action::Add { dep, .. } => {
            args.push(String::from_str("add"));
            args.push(dep.clone());
        },
        _ => {},
    }
    assert(views(args@) =~= args_of(action@));
    args
}

/// Why the program ends before any repository is worked on.
#[derive(Clone, Debug, PartialEq, Eq)]
pub enum Fatal {
    /// The root directory does not exist or is no directory.
    BadRoot { message: String },
    /// The tool is unavailable.
    ToolUnavailable,
    /// The walk failed at an entry.
    Walk { message: String },
}

/// The exit code of the program: 0 where the command completed and every
/// repository succeeded, else 1.
pub fn exit_code(outcome: &Result<bool, Fatal>) -> (code: u8)
    ensures
        code == if outcome == Ok::<bool, Fatal>(true) {
            0u8
        } else {
            1u8
        },
{
    match outcome {
        Ok(true) => 0,
        _ => 1,
    }
}

} // verus!
