//! Scheduling the workers of an `apply` run: how many run at once, which
//! repositories are still started once a failure has been seen, and what the
//! run as a whole comes to.

use crate::model::{RepoResult, ResultView};
use crate::sorting::{
    ascending, insert_ordered, key_fn, lemma_ordered_insert, ordered_insert, views,
};
use crate::text::{decimal, decimal_string, joined};
use vstd::prelude::*;

verus! {

/// The number of worker slots: the configured number, else half the cores,
/// and at least one.
pub open spec fn pool_size(jobs: Option<usize>, cores: usize) -> int {
    let wanted: int = match jobs {
        Some(j) => j as int,
        None => cores as int / 2,
    };
    if wanted < 1 {
        1
    } else {
        wanted
    }
}

/// Computes the number of worker slots from the configured number, if any,
/// and the number of cores.
pub fn worker_count(jobs: Option<usize>, cores: usize) -> (n: usize)
    ensures
        n == pool_size(jobs, cores),
{
    let wanted: usize = match jobs {
        Some(j) => j,
        None => cores / 2,
    };
    if wanted < 1 {
        1
    } else {
        wanted
    }
}

/// `num_cpus::get`: the number of logical cores available to this process.
/// The number depends on the machine and on the limits set for the process,
/// so nothing is claimed of it.
#[verifier::external_body]
fn available_cores() -> usize {
    num_cpus::get()
}

/// The number of worker slots on this machine. A configured number decides
/// alone; without one the number follows the machine's cores.
pub fn resolve_worker_count(jobs: Option<usize>) -> (n: usize)
    ensures
        n >= 1,
        jobs is Some ==> n == pool_size(jobs, 0),
        jobs is None ==> exists|cores: usize| n == pool_size(jobs, cores),
{
    match jobs {
        Some(_) => worker_count(jobs, 0),
        None => {
            let cores = available_cores();
            worker_count(jobs, cores)
        },
    }
}

/// Some result is a failure.
pub open spec fn any_failed(results: Seq<ResultView>) -> bool {
    exists|i: int| 0 <= i < results.len() && !(#[trigger] results[i]).success
}

/// Every result is a success.
pub open spec fn all_succeeded(results: Seq<ResultView>) -> bool {
    forall|i: int| 0 <= i < results.len() ==> (#[trigger] results[i]).success
}

/// The number of successes among `results`.
pub open spec fn count_succeeded(results: Seq<ResultView>) -> nat
    decreases results.len(),
{
    if results.len() == 0 {
        0
    } else {
        count_succeeded(results.drop_last()) + if results.last().success {
            1nat
        } else {
            0nat
        }
    }
}

/// The mathematical value of an [`Orchestrator`].
pub struct PoolView {
    /// Whether a failure keeps further workers from starting.
    pub fail_fast: bool,
    /// The number of repositories of the run.
    pub total: nat,
    /// The number of repositories whose worker was started.
    pub started: nat,
    /// The number of repositories that were passed over.
    pub skipped: nat,
    /// The stop signal.
    pub stop: bool,
    /// The results collected so far, in ascending order of repository root.
    pub results: Seq<ResultView>,
}

/// What holds of every state an orchestrator can reach: no more results
/// than started workers, no more decisions than repositories; the stop signal
/// is up exactly if fail-fast is on and a failure was collected; and a
/// repository is passed over only once the stop signal is up.
pub open spec fn coherent(v: PoolView) -> bool {
    &&& v.results.len() <= v.started
    &&& v.started + v.skipped <= v.total
    &&& v.stop <==> v.fail_fast && any_failed(v.results)
    &&& v.skipped > 0 ==> v.stop
    &&& ascending(v.results, key_fn::<RepoResult>())
}

/// The state after the decision on the next repository, and the decision:
/// its worker starts unless the stop signal is up. Once every repository is
/// decided nothing starts and nothing changes.
pub open spec fn decide(v: PoolView) -> (PoolView, bool) {
    if v.started + v.skipped >= v.total {
        (v, false)
    } else if v.stop {
        (PoolView { skipped: v.skipped + 1, ..v }, false)
    } else {
        (PoolView { started: v.started + 1, ..v }, true)
    }
}

/// The state after a worker handed in `r`: the result is filed by repository
/// root, and under fail-fast a failure raises the stop signal.
pub open spec fn collected(v: PoolView, r: ResultView) -> PoolView {
    PoolView {
        stop: v.stop || (v.fail_fast && !r.success),
        results: ordered_insert(v.results, r, key_fn::<RepoResult>()),
        ..v
    }
}

/// The run as a whole succeeded: every result is a success and, under
/// fail-fast, every repository has a result.
pub open spec fn overall_success(v: PoolView) -> bool {
    all_succeeded(v.results) && (v.fail_fast ==> v.results.len() == v.total)
}

/// The run is over: every repository is decided and every started worker
/// has handed in its result.
pub open spec fn settled(v: PoolView) -> bool {
    v.started + v.skipped == v.total && v.results.len() == v.started
}

/// A result of `ordered_insert` is a failure exactly if the new record is
/// one or one of the old ones was.
proof fn lemma_insert_any_failed(results: Seq<ResultView>, r: ResultView)
    ensures
        any_failed(ordered_insert(results, r, key_fn::<RepoResult>())) <==> any_failed(results)
            || !r.success,
{
    let key = key_fn::<RepoResult>();
    crate::sorting::lemma_ordered_insert_is_insert(results, r, key);
    let p = crate::sorting::insert_position(results, r, key);
    let after = results.insert(p, r);
    if any_failed(after) {
        let i = choose|i: int| 0 <= i < after.len() && !(#[trigger] after[i]).success;
        if i < p {
            assert(!results[i].success);
        } else if i > p {
            assert(!results[i - 1].success);
        }
    }
    if any_failed(results) {
        let i = choose|i: int| 0 <= i < results.len() && !(#[trigger] results[i]).success;
        if i < p {
            assert(!after[i].success);
        } else {
            assert(!after[i + 1].success);
        }
    }
    if !r.success {
        assert(!after[p].success);
    }
}

/// There are never more results than repositories, and a repository is
/// passed over only under fail-fast and only after a failure has been
/// collected: the failure is among the results before the repository goes
/// without one.
pub proof fn lemma_fail_fast(v: PoolView)
    requires
        coherent(v),
    ensures
        v.results.len() <= v.total,
        v.results.len() + v.skipped <= v.total,
        v.skipped > 0 ==> v.fail_fast && any_failed(v.results),
        v.started + v.skipped < v.total && !decide(v).1 ==> v.fail_fast && any_failed(v.results),
        coherent(decide(v).0),
{
}

/// Collecting a result leads from a reachable state to a reachable state,
/// as long as a started worker is outstanding.
pub proof fn lemma_collected_coherent(v: PoolView, r: ResultView)
    requires
        coherent(v),
        v.results.len() < v.started,
    ensures
        coherent(collected(v, r)),
{
    lemma_insert_any_failed(v.results, r);
    lemma_ordered_insert(v.results, r, key_fn::<RepoResult>());
}

/// Once the run is over, it succeeded as a whole exactly if every result is
/// a success: a repository that was passed over implies a failure among the
/// results.
pub proof fn lemma_overall_success(v: PoolView)
    requires
        coherent(v),
        settled(v),
    ensures
        overall_success(v) <==> all_succeeded(v.results),
        overall_success(v) ==> v.results.len() == v.total,
{
}

/// The bookkeeping of an `apply` run, shared by its workers.
pub struct Orchestrator {
    fail_fast: bool,
    total: usize,
    started: usize,
    skipped: usize,
    stop: bool,
    results: Vec<RepoResult>,
}

impl View for Orchestrator {
    type V = PoolView;

    closed spec fn view(&self) -> PoolView {
        PoolView {
            fail_fast: self.fail_fast,
            total: self.total as nat,
            started: self.started as nat,
            skipped: self.skipped as nat,
            stop: self.stop,
            results: views(self.results@),
        }
    }
}

/// What an `apply` run came to.
#[derive(Clone, Debug, PartialEq, Eq)]
pub struct ApplyReport {
    /// The results, in ascending order of repository root.
    pub results: Vec<RepoResult>,
    /// The number of successes among them.
    pub succeeded: usize,
    /// Whether the run as a whole succeeded.
    pub success: bool,
}

/// The status of a repository in the report.
pub open spec fn status_text(success: bool) -> Seq<char> {
    if success {
        "OK"@
    } else {
        "FAILED"@
    }
}

/// The status of a repository in the report: `OK` or `FAILED`.
pub fn status_label(success: bool) -> (s: &'static str)
    ensures
        s@ == status_text(success),
{
    if success {
        "OK"
    } else {
        "FAILED"
    }
}

/// The line that reports how many packages were updated.
pub open spec fn updated_line(count: nat) -> Seq<char> {
    "  Updated: "@ + decimal(count) + " packages"@
}

/// The line that reports one failed package.
pub open spec fn failure_line(failed: (Seq<char>, Seq<char>)) -> Seq<char> {
    "    - "@ + failed.0 + ": "@ + failed.1
}

/// The line that reports one repository-level error.
pub open spec fn error_line(error: Seq<char>) -> Seq<char> {
    "  Error: "@ + error
}

/// The lines below the status line of a repository: the number of updated
/// packages where there are any, the failed packages under their heading
/// where there are any, and the repository-level errors.
pub open spec fn detail_lines(r: ResultView) -> Seq<Seq<char>> {
    (if r.updated_packages.len() > 0 {
        seq![updated_line(r.updated_packages.len())]
    } else {
        Seq::empty()
    }) + (if r.failed_packages.len() > 0 {
        seq!["  Failed packages:"@] + Seq::new(
            r.failed_packages.len(),
            |i: int| failure_line(r.failed_packages[i]),
        )
    } else {
        Seq::empty()
    }) + Seq::new(r.errors.len(), |i: int| error_line(r.errors[i]))
}

/// Renders the lines below the status line of a repository.
pub fn result_lines(r: &RepoResult) -> (lines: Vec<String>)
    ensures
        views(lines@) == detail_lines(r@),
{
    let mut lines: Vec<String> = Vec::new();
    if r.updated_packages.len() > 0 {
        let a = joined("  Updated: ", decimal_string(r.updated_packages.len() as u64).as_str());
        lines.push(joined(a.as_str(), " packages"));
    }
    let ghost head = views(lines@);
    assert(head =~= if r@.updated_packages.len() > 0 {
        seq![updated_line(r@.updated_packages.len())]
    } else {
        Seq::empty()
    });
    if r.failed_packages.len() > 0 {
        lines.push(String::from_str("  Failed packages:"));
        let mut i: usize = 0;
        while i < r.failed_packages.len()
            invariant
                i <= r.failed_packages.len(),
                views(lines@) =~= head + (seq!["  Failed packages:"@] + Seq::new(
                    i as nat,
                    |k: int| failure_line(r@.failed_packages[k]),
                )),
            decreases r.failed_packages.len() - i,
        {
            let f = &r.failed_packages[i];
            let a = joined("    - ", f.name.as_str());
            let b = joined(a.as_str(), ": ");
            let line = joined(b.as_str(), f.message.as_str());
            let ghost before = views(lines@);
            assert(r@.failed_packages[i as int] == (f.name@, f.message@));
            assert(line@ == failure_line(r@.failed_packages[i as int]));
            lines.push(line);
            assert(views(lines@) =~= before.push(line@));
            i = i + 1;
        }
    }
    let ghost mid = views(lines@);
    let mut j: usize = 0;
    while j < r.errors.len()
        invariant
            j <= r.errors.len(),
            views(lines@) =~= mid + Seq::new(j as nat, |k: int| error_line(r@.errors[k])),
        decreases r.errors.len() - j,
    {
        let line = joined("  Error: ", r.errors[j].as_str());
        let ghost before = views(lines@);
        assert(r@.errors[j as int] == r.errors[j as int]@);
        lines.push(line);
        assert(views(lines@) =~= before.push(line@));
        j = j + 1;
    }
    assert(views(lines@) =~= detail_lines(r@));
    lines
}

/// The summary line of a run with `succeeded` successes among `reported`
/// results.
pub open spec fn apply_summary(succeeded: nat, reported: nat) -> Seq<char> {
    "Summary: "@ + decimal(succeeded) + "/"@ + decimal(reported) + " repos succeeded"@
}

impl ApplyReport {
    /// Renders the summary line: how many of the reported repositories
    /// succeeded.
    pub fn summary_line(&self) -> (s: String)
        ensures
            s@ == apply_summary(self.succeeded as nat, self.results@.len()),
    {
        let a = joined("Summary: ", decimal_string(self.succeeded as u64).as_str());
        let b = joined(a.as_str(), "/");
        let c = joined(b.as_str(), decimal_string(self.results.len() as u64).as_str());
        joined(c.as_str(), " repos succeeded")
    }
}

impl Orchestrator {
    /// The orchestrator is in a reachable state.
    pub open spec fn wf(&self) -> bool {
        coherent(self@)
    }

    /// The bookkeeping for a run over `total` repositories.
    pub fn new(total: usize, fail_fast: bool) -> (o: Orchestrator)
        ensures
            o.wf(),
            o@ == (PoolView {
                fail_fast,
                total: total as nat,
                started: 0,
                skipped: 0,
                stop: false,
                results: Seq::empty(),
            }),
    {
        let o = Orchestrator {
            fail_fast,
            total,
            started: 0,
            skipped: 0,
            stop: false,
            results: Vec::new(),
        };
        assert(o@.results =~= Seq::empty());
        o
    }

    /// Decides on the next repository: `true` means that its worker is to
    /// run, `false` that the repository is passed over.
    pub fn try_start(&mut self) -> (go: bool)
        requires
            old(self).wf(),
        ensures
            final(self).wf(),
            (final(self)@, go) == decide(old(self)@),
    {
        if self.total - self.started <= self.skipped {
            false
        } else if self.stop {
            self.skipped = self.skipped + 1;
            false
        } else {
            self.started = self.started + 1;
            true
        }
    }

    /// Takes in the result of a worker that has completed its plan. Returns
    /// `false`, and changes nothing, where no started worker is outstanding.
    pub fn collect(&mut self, result: RepoResult) -> (accepted: bool)
        requires
            old(self).wf(),
        ensures
            final(self).wf(),
            accepted == (old(self)@.results.len() < old(self)@.started),
            accepted ==> final(self)@ == collected(old(self)@, result@),
            !accepted ==> final(self)@ == old(self)@,
    {
        if self.results.len() >= self.started {
            return false;
        }
        proof {
            lemma_insert_any_failed(self@.results, result@);
            lemma_ordered_insert(self@.results, result@, key_fn::<RepoResult>());
        }
        if self.fail_fast && !result.success {
            self.stop = true;
        }
        insert_ordered(&mut self.results, result);
        true
    }

    /// Tells whether the stop signal is up.
    pub fn stopped(&self) -> (b: bool)
        ensures
            b == self@.stop,
    {
        self.stop
    }

    /// Ends the run: the results in ascending order of repository root, the
    /// number of successes, and whether the run as a whole succeeded.
    pub fn finish(self) -> (report: ApplyReport)
        requires
            self.wf(),
        ensures
            views(report.results@) == self@.results,
            ascending(views(report.results@), key_fn::<RepoResult>()),
            report.succeeded == count_succeeded(self@.results),
            report.success == overall_success(self@),
    {
        let mut succeeded: usize = 0;
        let mut i: usize = 0;
        let ghost rs = views(self.results@);
        while i < self.results.len()
            invariant
                i <= self.results.len(),
                rs == views(self.results@),
                succeeded == count_succeeded(rs.subrange(0, i as int)),
                succeeded <= i,
                succeeded == i <==> all_succeeded(rs.subrange(0, i as int)),
            decreases self.results.len() - i,
        {
            proof {
                let cur = rs.subrange(0, i as int);
                let next = rs.subrange(0, i + 1);
                assert(next.drop_last() =~= cur);
                assert(next.last() == rs[i as int]);
                if all_succeeded(next) {
                    assert forall|j: int| 0 <= j < cur.len() implies (#[trigger] cur[j]).success
                    by {
                        assert(next[j].success);
                    }
                    assert(next[i as int].success);
                }
                if all_succeeded(cur) && rs[i as int].success {
                    assert forall|j: int| 0 <= j < next.len() implies (#[trigger] next[j]).success
                    by {
                        if j < i {
                            assert(cur[j].success);
                        }
                    }
                }
            }
            if self.results[i].success {
                succeeded = succeeded + 1;
            }
            i = i + 1;
        }
        assert(rs.subrange(0, i as int) =~= rs);
        let all: bool = succeeded == self.results.len();
        let success: bool = all && (!self.fail_fast || self.results.len() == self.total);
        ApplyReport { results: self.results, succeeded, success }
    }
}

} // verus!
