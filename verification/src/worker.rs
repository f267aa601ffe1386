//! The plan for one repository as a state machine: the worker says which
//! step comes next, the caller carries it out and reports how it went, and
//! the worker accumulates the result.

use crate::justfile::JustfileMode;
use crate::model::{has_name, FailedPackage, RepoInfo, RepoResult, RepoView, ResultView};
use crate::path::Segment;
use crate::plan::{collect_deps, lemma_planned_deps, planned_deps, selected};
use crate::sorting::views;
use crate::text::joined;
use vstd::prelude::*;

verus! {

/// The options of an `apply` run that shape the plan of every repository.
#[derive(Clone, Debug, PartialEq, Eq)]
pub struct ApplyOptions {
    /// Leave out the update step.
    pub skip_update: bool,
    /// How many rounds of `add` to run.
    pub repeat: u32,
    /// The package filter; empty lets every dependency through.
    pub packages: Vec<String>,
    /// Announce every step and carry none out.
    pub dry_run: bool,
    /// Announce every step.
    pub verbose: bool,
    /// Install the task-runner file at the end.
    pub write_justfile: bool,
    /// How the task-runner file is installed.
    pub justfile_mode: JustfileMode,
}

/// Where a worker stands in its plan.
#[derive(Clone, Copy, Debug, PartialEq, Eq, Structural)]
pub enum Phase {
    /// The update step is next.
    Update,
    /// An `add` is next.
    Add,
    /// The task-runner file is next.
    Justfile,
    /// Nothing is left to do.
    Done,
}

/// How a step went: well, or badly with a message.
#[derive(Clone, Debug, PartialEq, Eq)]
pub enum Outcome {
    Success,
    Failure(String),
}

impl View for Outcome {
    type V = Option<Seq<char>>;

    /// The failure message, where the step failed.
    open spec fn view(&self) -> Option<Seq<char>> {
        match *self {
            Outcome::Success => None,
            Outcome::Failure(m) => Some(m@),
        }
    }
}

/// The step that the caller is to carry out next.
#[derive(Clone, Debug, PartialEq, Eq)]
pub enum Action {
    /// Run the tool's `update` in the repository root; `confirm` asks for a
    /// notice once it has succeeded.
    Update { announce: bool, execute: bool, confirm: bool },
    /// Run the tool's `add` for one dependency in the repository root.
    Add { dep: String, announce: bool, execute: bool },
    /// Install the task-runner file.
    Justfile { mode: JustfileMode, dry_run: bool, verbose: bool },
    /// The plan is complete.
    Finished,
}

/// The mathematical value of an [`Action`].
pub enum ActionView {
    Update { announce: bool, execute: bool, confirm: bool },
    Add { dep: Seq<char>, announce: bool, execute: bool },
    Justfile { mode: JustfileMode, dry_run: bool, verbose: bool },
    Finished,
}

impl View for Action {
    type V = ActionView;

    open spec fn view(&self) -> ActionView {
        match *self {
            Action::Update { announce, execute, confirm } => ActionView::Update {
                announce,
                execute,
                confirm,
            },
            Action::Add { dep, announce, execute } => ActionView::Add {
                dep: dep@,
                announce,
                execute,
            },
            Action::Justfile { mode, dry_run, verbose } => ActionView::Justfile {
                mode,
                dry_run,
                verbose,
            },
            Action::Finished => ActionView::Finished,
        }
    }
}

/// The action has the caller invoke the external tool.
pub open spec fn runs_tool(a: ActionView) -> bool {
    match a {
        ActionView::Update { execute, .. } => execute,
        ActionView::Add { execute, .. } => execute,
        _ => false,
    }
}

/// The mathematical value of a [`Worker`].
pub struct WorkerView {
    pub repeat: nat,
    pub dry_run: bool,
    pub verbose: bool,
    pub write_justfile: bool,
    pub justfile_mode: JustfileMode,
    /// The dependencies to work on, in the order of the `add` calls.
    pub deps: Seq<Seq<char>>,
    pub phase: Phase,
    /// The number of completed rounds of `add`.
    pub round: nat,
    /// The position in `deps` of the next `add`.
    pub index: nat,
    /// The update step ran and failed.
    pub update_failed: bool,
    pub result: ResultView,
}

/// The text that an update failure is recorded with.
pub open spec fn update_error(message: Seq<char>) -> Seq<char> {
    "moon update failed: "@ + message
}

/// The text that a failure to install the task-runner file is recorded with.
pub open spec fn justfile_error(message: Seq<char>) -> Seq<char> {
    "justfile handling failed: "@ + message
}

/// `list` with `name` appended unless it is there already.
pub open spec fn unique_push(list: Seq<Seq<char>>, name: Seq<char>) -> Seq<Seq<char>> {
    if list.contains(name) {
        list
    } else {
        list.push(name)
    }
}

/// The state once every round of `add` is through.
pub open spec fn leave_adds(v: WorkerView) -> WorkerView {
    WorkerView {
        phase: if v.write_justfile {
            Phase::Justfile
        } else {
            Phase::Done
        },
        ..v
    }
}

/// The state once the update step is through: the first `add`, where there
/// is one.
pub open spec fn enter_adds(v: WorkerView) -> WorkerView {
    if v.repeat > 0 && v.deps.len() > 0 {
        WorkerView { phase: Phase::Add, round: 0, index: 0, ..v }
    } else {
        leave_adds(v)
    }
}

/// The state a worker starts in.
pub open spec fn initial(
    root: Seq<Segment>,
    deps: Seq<Seq<char>>,
    skip_update: bool,
    repeat: nat,
    dry_run: bool,
    verbose: bool,
    write_justfile: bool,
    justfile_mode: JustfileMode,
) -> WorkerView {
    let v = WorkerView {
        repeat,
        dry_run,
        verbose,
        write_justfile,
        justfile_mode,
        deps,
        phase: Phase::Update,
        round: 0,
        index: 0,
        update_failed: false,
        result: ResultView {
            repo_root: root,
            success: true,
            updated_packages: Seq::empty(),
            failed_packages: Seq::empty(),
            errors: Seq::empty(),
        },
    };
    if skip_update {
        enter_adds(v)
    } else {
        v
    }
}

/// The step that comes next in state `v`. Steps are announced when verbose
/// or in a dry run, and carried out unless in a dry run; a successful update
/// is confirmed when verbose.
pub open spec fn action_of(v: WorkerView) -> ActionView {
    match v.phase {
        Phase::Update => ActionView::Update {
            announce: v.verbose || v.dry_run,
            execute: !v.dry_run,
            confirm: v.verbose && !v.dry_run,
        },
        Phase::Add => ActionView::Add {
            dep: v.deps[v.index as int],
            announce: v.verbose || v.dry_run,
            execute: !v.dry_run,
        },
        Phase::Justfile => ActionView::Justfile {
            mode: v.justfile_mode,
            dry_run: v.dry_run,
            verbose: v.verbose,
        },
        Phase::Done => ActionView::Finished,
    }
}

/// The result after an `add` of `dep`: a success puts the name among the
/// updated packages once, a failure is recorded and clears the success flag.
/// In a dry run nothing is recorded.
pub open spec fn record_add(
    r: ResultView,
    dep: Seq<char>,
    dry_run: bool,
    failure: Option<Seq<char>>,
) -> ResultView {
    if dry_run {
        r
    } else {
        match failure {
            None => ResultView { updated_packages: unique_push(r.updated_packages, dep), ..r },
            Some(m) => ResultView {
                success: false,
                failed_packages: r.failed_packages.push((dep, m)),
                ..r
            },
        }
    }
}

/// The state after the `add` at the current position: the next dependency,
/// else the next round, else what follows the rounds.
pub open spec fn advance_position(v: WorkerView) -> WorkerView {
    if v.index + 1 < v.deps.len() {
        WorkerView { index: v.index + 1, ..v }
    } else if v.round + 1 < v.repeat {
        WorkerView { round: v.round + 1, index: 0, ..v }
    } else {
        leave_adds(v)
    }
}

/// The state after the step of `v` was carried out with the given failure,
/// if any. A failed update ends the plan; a failed `add` does not; a failure
/// to install the task-runner file is recorded and leaves the success flag.
pub open spec fn step(v: WorkerView, failure: Option<Seq<char>>) -> WorkerView {
    match v.phase {
        Phase::Update => if v.dry_run || failure is None {
            enter_adds(v)
        } else {
            WorkerView {
                phase: Phase::Done,
                update_failed: true,
                result: ResultView {
                    success: false,
                    errors: v.result.errors.push(update_error(failure->0)),
                    ..v.result
                },
                ..v
            }
        },
        Phase::Add => advance_position(
            WorkerView {
                result: record_add(v.result, v.deps[v.index as int], v.dry_run, failure),
                ..v
            },
        ),
        Phase::Justfile => WorkerView {
            phase: Phase::Done,
            result: match failure {
                None => v.result,
                Some(m) => ResultView {
                    errors: v.result.errors.push(justfile_error(m)),
                    ..v.result
                },
            },
            ..v
        },
        Phase::Done => v,
    }
}

/// The state after the steps of `v` were carried out one after the other
/// with the given outcomes.
pub open spec fn run(v: WorkerView, outcomes: Seq<Option<Seq<char>>>) -> WorkerView
    decreases outcomes.len(),
{
    if outcomes.len() == 0 {
        v
    } else {
        step(run(v, outcomes.drop_last()), outcomes.last())
    }
}

/// What holds of every state a worker can reach.
pub open spec fn consistent(v: WorkerView) -> bool {
    &&& v.phase is Add ==> v.index < v.deps.len() && v.round < v.repeat
    &&& v.update_failed ==> v.phase is Done
    &&& v.result.updated_packages.no_duplicates()
    &&& forall|i: int|
        0 <= i < v.result.updated_packages.len() ==> v.deps.contains(
            #[trigger] v.result.updated_packages[i],
        )
    &&& v.result.success <==> v.result.failed_packages.len() == 0 && !v.update_failed
    &&& v.dry_run ==> v.result.success && v.result.updated_packages.len() == 0
}

/// A step leads from a reachable state to a reachable state, and changes
/// neither the options nor the dependencies nor the repository root.
pub proof fn lemma_step_consistent(v: WorkerView, failure: Option<Seq<char>>)
    requires
        consistent(v),
    ensures
        consistent(step(v, failure)),
        step(v, failure).deps == v.deps,
        step(v, failure).repeat == v.repeat,
        step(v, failure).dry_run == v.dry_run,
        step(v, failure).result.repo_root == v.result.repo_root,
{
    if v.phase is Add {
        let dep = v.deps[v.index as int];
        let r = record_add(v.result, dep, v.dry_run, failure);
        if !v.dry_run && failure is None && !v.result.updated_packages.contains(dep) {
            let u = v.result.updated_packages;
            assert(r.updated_packages == u.push(dep));
            assert forall|i: int, j: int|
                0 <= i < u.push(dep).len() && 0 <= j < u.push(dep).len() && i != j implies u.push(
                dep,
            )[i] != u.push(dep)[j] by {
                if i < u.len() {
                    assert(u.contains(u[i]));
                }
                if j < u.len() {
                    assert(u.contains(u[j]));
                }
            }
        }
    }
}

/// Every state reached from a reachable state is reachable.
pub proof fn lemma_run_consistent(v: WorkerView, outcomes: Seq<Option<Seq<char>>>)
    requires
        consistent(v),
    ensures
        consistent(run(v, outcomes)),
        run(v, outcomes).deps == v.deps,
        run(v, outcomes).repeat == v.repeat,
        run(v, outcomes).dry_run == v.dry_run,
        run(v, outcomes).result.repo_root == v.result.repo_root,
    decreases outcomes.len(),
{
    if outcomes.len() > 0 {
        lemma_run_consistent(v, outcomes.drop_last());
        lemma_step_consistent(run(v, outcomes.drop_last()), outcomes.last());
    }
}

/// The `add` of `n` succeeded among the first `k` calls of a round with the
/// given outcomes.
pub open spec fn succeeded_in_round(
    deps: Seq<Seq<char>>,
    outcomes: Seq<Option<Seq<char>>>,
    k: nat,
    n: Seq<char>,
) -> bool {
    exists|i: int| 0 <= i < k && outcomes[i] is None && deps[i] == n
}

/// The updated packages hold no name twice, and every one of them is a
/// dependency that a manifest of the repository declares and the filter lets
/// through, whatever the outcomes of the steps were.
pub proof fn lemma_updated_packages_sound(
    repo: RepoView,
    filter: Seq<Seq<char>>,
    skip_update: bool,
    repeat: nat,
    dry_run: bool,
    verbose: bool,
    write_justfile: bool,
    justfile_mode: JustfileMode,
    outcomes: Seq<Option<Seq<char>>>,
)
    ensures
        ({
            let start = initial(
                repo.root,
                planned_deps(repo, filter),
                skip_update,
                repeat,
                dry_run,
                verbose,
                write_justfile,
                justfile_mode,
            );
            let updated = run(start, outcomes).result.updated_packages;
            &&& updated.no_duplicates()
            &&& forall|n: Seq<char>| #[trigger]
                updated.contains(n) ==> selected(n, filter) && exists|k: int|
                    0 <= k < repo.moon_mods.len() && (#[trigger] repo.moon_mods[k]).deps.contains(n)
        }),
{
    let start = initial(
        repo.root,
        planned_deps(repo, filter),
        skip_update,
        repeat,
        dry_run,
        verbose,
        write_justfile,
        justfile_mode,
    );
    lemma_planned_deps(repo, filter);
    lemma_run_consistent(start, outcomes);
    let updated = run(start, outcomes).result.updated_packages;
    assert forall|n: Seq<char>| #[trigger] updated.contains(n) implies planned_deps(
        repo,
        filter,
    ).contains(n) by {
        let i = choose|i: int| 0 <= i < updated.len() && updated[i] == n;
        assert(planned_deps(repo, filter).contains(updated[i]));
    }
}

/// In a dry run no step invokes the tool, the result stays a success, and
/// no package is recorded as updated or failed, whatever the caller reports.
pub proof fn lemma_dry_run_is_inert(v: WorkerView, outcomes: Seq<Option<Seq<char>>>)
    requires
        consistent(v),
        v.dry_run,
    ensures
        !runs_tool(action_of(run(v, outcomes))),
        run(v, outcomes).result.success,
        run(v, outcomes).result.updated_packages.len() == 0,
        run(v, outcomes).result.failed_packages.len() == 0,
{
    lemma_run_consistent(v, outcomes);
}

/// Carrying out `a` and then `b` is carrying out `a + b`.
pub proof fn lemma_run_concat(
    v: WorkerView,
    a: Seq<Option<Seq<char>>>,
    b: Seq<Option<Seq<char>>>,
)
    ensures
        run(v, a + b) == run(run(v, a), b),
    decreases b.len(),
{
    if b.len() == 0 {
        assert(a + b =~= a);
    } else {
        lemma_run_concat(v, a, b.drop_last());
        assert((a + b).drop_last() =~= a + b.drop_last());
    }
}

/// A finished worker stays as it is.
pub proof fn lemma_run_done(v: WorkerView, outcomes: Seq<Option<Seq<char>>>)
    requires
        v.phase is Done,
    ensures
        run(v, outcomes) == v,
    decreases outcomes.len(),
{
    if outcomes.len() > 0 {
        lemma_run_done(v, outcomes.drop_last());
    }
}

/// The updated packages after the first `k` calls of a round of `add`
/// that starts with `updated`.
pub open spec fn round_updated(
    updated: Seq<Seq<char>>,
    deps: Seq<Seq<char>>,
    outcomes: Seq<Option<Seq<char>>>,
    k: nat,
) -> Seq<Seq<char>>
    decreases k,
{
    if k == 0 {
        updated
    } else {
        let before = round_updated(updated, deps, outcomes, (k - 1) as nat);
        if outcomes[k - 1] is None {
            unique_push(before, deps[k - 1])
        } else {
            before
        }
    }
}

/// The updated packages after a round are those from before it together
/// with every dependency whose `add` succeeded in it, and no others.
pub proof fn lemma_round_updated_exact(
    updated: Seq<Seq<char>>,
    deps: Seq<Seq<char>>,
    outcomes: Seq<Option<Seq<char>>>,
    k: nat,
)
    requires
        k <= deps.len(),
        k <= outcomes.len(),
    ensures
        forall|n: Seq<char>| #[trigger]
            round_updated(updated, deps, outcomes, k).contains(n) <==> updated.contains(n)
                || succeeded_in_round(deps, outcomes, k, n),
    decreases k,
{
    if k > 0 {
        let before = round_updated(updated, deps, outcomes, (k - 1) as nat);
        let after = round_updated(updated, deps, outcomes, k);
        lemma_round_updated_exact(updated, deps, outcomes, (k - 1) as nat);
        assert forall|n: Seq<char>| #[trigger]
            after.contains(n) <==> updated.contains(n) || succeeded_in_round(
                deps,
                outcomes,
                k,
                n,
            ) by {
            if before.contains(n) {
                let i = choose|i: int| 0 <= i < before.len() && before[i] == n;
                assert(after[i] == n);
            }
            if succeeded_in_round(deps, outcomes, (k - 1) as nat, n) {
                let i = choose|i: int| 0 <= i < k - 1 && outcomes[i] is None && deps[i] == n;
                assert(0 <= i < k && outcomes[i] is None && deps[i] == n);
            }
            if succeeded_in_round(deps, outcomes, k, n) {
                let i = choose|i: int| 0 <= i < k && outcomes[i] is None && deps[i] == n;
                if i < k - 1 {
                    assert(succeeded_in_round(deps, outcomes, (k - 1) as nat, n));
                } else if !before.contains(n) {
                    assert(after[after.len() - 1] == n);
                }
            }
            if after.contains(n) && !before.contains(n) {
                let i = choose|i: int| 0 <= i < after.len() && after[i] == n;
                if i < before.len() {
                    assert(before[i] == n);
                }
                assert(outcomes[k - 1] is None && deps[k - 1] == n);
            }
        }
    }
}

/// A round in which only dependencies succeed that were updated before
/// changes nothing in the updated packages.
pub proof fn lemma_round_updated_same(
    updated: Seq<Seq<char>>,
    deps: Seq<Seq<char>>,
    outcomes: Seq<Option<Seq<char>>>,
    k: nat,
)
    requires
        k <= deps.len(),
        k <= outcomes.len(),
        forall|i: int| 0 <= i < k && outcomes[i] is None ==> updated.contains(#[trigger] deps[i]),
    ensures
        round_updated(updated, deps, outcomes, k) == updated,
    decreases k,
{
    if k > 0 {
        lemma_round_updated_same(updated, deps, outcomes, (k - 1) as nat);
    }
}

/// The state after the first `k` calls of a round of `add`: the updated
/// packages are those of `round_updated`, and the position has moved on by
/// `k`.
pub proof fn lemma_round_prefix(v: WorkerView, outcomes: Seq<Option<Seq<char>>>, k: nat)
    requires
        consistent(v),
        v.phase is Add,
        v.index == 0,
        !v.dry_run,
        k <= v.deps.len(),
        k <= outcomes.len(),
    ensures
        ({
            let w = run(v, outcomes.subrange(0, k as int));
            &&& w.result.updated_packages == round_updated(
                v.result.updated_packages,
                v.deps,
                outcomes,
                k,
            )
            &&& w == WorkerView {
                phase: w.phase,
                round: w.round,
                index: w.index,
                result: w.result,
                ..v
            }
            &&& k < v.deps.len() ==> w.phase is Add && w.round == v.round && w.index == k
            &&& k == v.deps.len() && v.round + 1 < v.repeat ==> w.phase is Add && w.round == v.round
                + 1 && w.index == 0
            &&& k == v.deps.len() && v.round + 1 >= v.repeat ==> w.phase == leave_adds(v).phase
        }),
    decreases k,
{
    if k == 0 {
        assert(outcomes.subrange(0, 0) =~= Seq::empty());
    } else {
        lemma_round_prefix(v, outcomes, (k - 1) as nat);
        assert(outcomes.subrange(0, k as int).drop_last() =~= outcomes.subrange(0, k - 1));
        assert(outcomes.subrange(0, k as int).last() == outcomes[k - 1]);
    }
}

/// A second round of `add` in which no dependency succeeds that failed in
/// the first leaves the updated packages as the first round made them:
/// whatever the options, the plan with two rounds ends with the same updated
/// packages as the plan with one round. `update` holds the outcome of the
/// update step, and is empty where that step is left out.
pub proof fn lemma_second_round_adds_nothing_new(
    root: Seq<Segment>,
    deps: Seq<Seq<char>>,
    skip_update: bool,
    dry_run: bool,
    verbose: bool,
    write_justfile: bool,
    justfile_mode: JustfileMode,
    update: Seq<Option<Seq<char>>>,
    first: Seq<Option<Seq<char>>>,
    second: Seq<Option<Seq<char>>>,
)
    requires
        update.len() == if skip_update {
            0nat
        } else {
            1nat
        },
        first.len() == deps.len(),
        second.len() == deps.len(),
        forall|i: int| 0 <= i < deps.len() && second[i] is None ==> first[i] is None,
    ensures
        run(
            initial(root, deps, skip_update, 2, dry_run, verbose, write_justfile, justfile_mode),
            update + first + second,
        ).result.updated_packages == run(
            initial(root, deps, skip_update, 1, dry_run, verbose, write_justfile, justfile_mode),
            update + first,
        ).result.updated_packages,
{
    let one = initial(root, deps, skip_update, 1, dry_run, verbose, write_justfile, justfile_mode);
    let two = initial(root, deps, skip_update, 2, dry_run, verbose, write_justfile, justfile_mode);
    if dry_run {
        lemma_dry_run_is_inert(one, update + first);
        lemma_dry_run_is_inert(two, update + first + second);
        assert(run(one, update + first).result.updated_packages =~= run(
            two,
            update + first + second,
        ).result.updated_packages);
    } else {
        lemma_run_concat(one, update, first);
        lemma_run_concat(two, update + first, second);
        lemma_run_concat(two, update, first);
        let a = run(one, update);
        let b = run(two, update);
        if skip_update {
            assert(update =~= Seq::empty());
            assert(a == one && b == two);
        } else {
            assert(update.drop_last() =~= Seq::empty());
            assert(run(one, update.drop_last()) == one);
            assert(run(two, update.drop_last()) == two);
            assert(a == step(one, update[0]));
            assert(b == step(two, update[0]));
        }
        assert(a.phase is Done <==> b.phase is Done);
        lemma_run_consistent(one, update);
        lemma_run_consistent(two, update);
        if a.phase is Done {
            lemma_run_done(a, first);
            if b.phase is Done {
                lemma_run_done(b, first);
                lemma_run_done(b, second);
            }
        }
        if deps.len() == 0 {
            assert(first =~= Seq::empty());
            assert(second =~= Seq::empty());
        } else if !(a.phase is Done) {
            let n = deps.len();
            assert(first.subrange(0, n as int) =~= first);
            assert(second.subrange(0, n as int) =~= second);
            lemma_round_prefix(a, first, n);
            lemma_round_prefix(b, first, n);
            let c = run(b, first);
            lemma_run_consistent(b, first);
            lemma_round_prefix(c, second, n);
            let u = c.result.updated_packages;
            lemma_round_updated_exact(Seq::empty(), deps, first, n);
            assert forall|i: int| 0 <= i < n && second[i] is None implies u.contains(
                #[trigger] deps[i],
            ) by {
                assert(succeeded_in_round(deps, first, n, deps[i]));
            }
            lemma_round_updated_same(u, deps, second, n);
        }
    }
}

/// The worker on one repository.
pub struct Worker {
    repeat: u32,
    dry_run: bool,
    verbose: bool,
    write_justfile: bool,
    justfile_mode: JustfileMode,
    deps: Vec<String>,
    phase: Phase,
    round: u32,
    index: usize,
    update_failed: bool,
    result: RepoResult,
}

impl View for Worker {
    type V = WorkerView;

    closed spec fn view(&self) -> WorkerView {
        WorkerView {
            repeat: self.repeat as nat,
            dry_run: self.dry_run,
            verbose: self.verbose,
            write_justfile: self.write_justfile,
            justfile_mode: self.justfile_mode,
            deps: views(self.deps@),
            phase: self.phase,
            round: self.round as nat,
            index: self.index as nat,
            update_failed: self.update_failed,
            result: self.result@,
        }
    }
}

impl Worker {
    /// The worker is in a reachable state.
    pub open spec fn wf(&self) -> bool {
        consistent(self@)
    }

    /// A worker at the start of the plan for `repo`.
    pub fn new(repo: &RepoInfo, options: &ApplyOptions) -> (w: Worker)
        ensures
            w.wf(),
            w@ == initial(
                repo@.root,
                planned_deps(repo@, views(options.packages@)),
                options.skip_update,
                options.repeat as nat,
                options.dry_run,
                options.verbose,
                options.write_justfile,
                options.justfile_mode,
            ),
    {
        let deps = collect_deps(repo, &options.packages);
        proof {
            lemma_planned_deps(repo@, views(options.packages@));
        }
        let has_adds: bool = options.repeat > 0 && deps.len() > 0;
        let after_adds: Phase = if options.write_justfile {
            Phase::Justfile
        } else {
            Phase::Done
        };
        let phase: Phase = if !options.skip_update {
            Phase::Update
        } else if has_adds {
            Phase::Add
        } else {
            after_adds
        };
        Worker {
            repeat: options.repeat,
            dry_run: options.dry_run,
            verbose: options.verbose,
            write_justfile: options.write_justfile,
            justfile_mode: options.justfile_mode,
            deps,
            phase,
            round: 0,
            index: 0,
            update_failed: false,
            result: RepoResult::new(repo.root.duplicate()),
        }
    }

    /// The step to carry out next. In a dry run no step invokes the tool.
    pub fn next_action(&self) -> (a: Action)
        requires
            self.wf(),
        ensures
            a@ == action_of(self@),
            self@.dry_run ==> !runs_tool(a@),
    {
        match self.phase {
            Phase::Update => Action::Update {
                announce: self.verbose || self.dry_run,
                execute: !self.dry_run,
                confirm: self.verbose && !self.dry_run,
            },
            Phase::Add => Action::Add {
                dep: self.deps[self.index].clone(),
                announce: self.verbose || self.dry_run,
                execute: !self.dry_run,
            },
            Phase::Justfile => Action::Justfile {
                mode: self.justfile_mode,
                dry_run: self.dry_run,
                verbose: self.verbose,
            },
            Phase::Done => Action::Finished,
        }
    }

    /// Tells whether the plan is complete.
    pub fn is_done(&self) -> (b: bool)
        ensures
            b == (self@.phase is Done),
    {
        match self.phase {
            Phase::Done => true,
            _ => false,
        }
    }

    fn leave_adds(&mut self)
        ensures
            final(self)@ == leave_adds(old(self)@),
    {
        self.phase = if self.write_justfile {
            Phase::Justfile
        } else {
            Phase::Done
        };
    }

    fn enter_adds(&mut self)
        ensures
            final(self)@ == enter_adds(old(self)@),
    {
        if self.repeat > 0 && self.deps.len() > 0 {
            self.phase = Phase::Add;
            self.round = 0;
            self.index = 0;
        } else {
            self.leave_adds();
        }
    }

    /// Takes in how the step just carried out went, and moves on.
    pub fn advance(&mut self, outcome: Outcome)
        requires
            old(self).wf(),
        ensures
            final(self).wf(),
            final(self)@ == step(old(self)@, outcome@),
    {
        proof {
            lemma_step_consistent(self@, outcome@);
        }
        match self.phase {
            Phase::Update => {
                match outcome {
                    Outcome::Failure(m) => {
                        if self.dry_run {
                            self.enter_adds();
                        } else {
                            let ghost before = self.result@;
                            self.result.errors.push(joined("moon update failed: ", m.as_str()));
                            self.result.success = false;
                            self.update_failed = true;
                            self.phase = Phase::Done;
                            assert(self.result@.errors =~= before.errors.push(update_error(m@)));
                        }
                    },
                    Outcome::Success => {
                        self.enter_adds();
                    },
                }
            },
            Phase::Add => {
                assert(self.index < self.deps.len() && self.round < self.repeat);
                if !self.dry_run {
                    let ghost before = self.result@;
                    match outcome {
                        Outcome::Success => {
                            let dep = self.deps[self.index].clone();
                            if !has_name(&self.result.updated_packages, dep.as_str()) {
                                self.result.updated_packages.push(dep);
                                assert(self.result@.updated_packages
                                    =~= before.updated_packages.push(dep@));
                            }
                        },
                        Outcome::Failure(m) => {
                            let name = self.deps[self.index].clone();
                            self.result.failed_packages.push(FailedPackage { name, message: m });
                            self.result.success = false;
                            assert(self.result@.failed_packages =~= before.failed_packages.push(
                                (self.deps[self.index as int]@, m@),
                            ));
                        },
                    }
                }
                if self.index + 1 < self.deps.len() {
                    self.index = self.index + 1;
                } else if self.round + 1 < self.repeat {
                    self.round = self.round + 1;
                    self.index = 0;
                } else {
                    self.leave_adds();
                }
            },
            Phase::Justfile => {
                match outcome {
                    Outcome::Failure(m) => {
                        let ghost before = self.result@;
                        self.result.errors.push(joined("justfile handling failed: ", m.as_str()));
                        assert(self.result@.errors =~= before.errors.push(justfile_error(m@)));
                    },
                    Outcome::Success => {},
                }
                self.phase = Phase::Done;
            },
            Phase::Done => {},
        }
    }

    /// Surrenders the result once the plan is complete; an unfinished worker
    /// gives none.
    pub fn finish(self) -> (r: Option<RepoResult>)
        ensures
            match r {
                Some(res) => self@.phase is Done && res@ == self@.result,
                None => !(self@.phase is Done),
            },
    {
        match self.phase {
            Phase::Done => Some(self.result),
            _ => None,
        }
    }
}

} // verus!
