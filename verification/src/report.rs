//! What a scan reports: every repository with its manifests, each under its
//! path relative to the repository root, and the totals.

use crate::model::{duplicate_names, ManifestView, MoonModInfo, RepoInfo, RepoView};
use crate::path::{is_prefix_of, FsPath, Segment};
use crate::sorting::views;
use crate::text::{decimal, decimal_string, joined};
use vstd::prelude::*;

verus! {

/// `path` as seen from `root`: the part behind `root` where `root` is a
/// leading part of it, else `path` itself.
pub open spec fn relative_to(path: Seq<Segment>, root: Seq<Segment>) -> Seq<Segment> {
    if is_prefix_of(root, path) {
        path.subrange(root.len() as int, path.len() as int)
    } else {
        path
    }
}

/// Computes `path` as seen from `root`.
pub fn relative_path(path: &FsPath, root: &FsPath) -> (p: FsPath)
    ensures
        p@ == relative_to(path@, root@),
{
    match path.strip_prefix(root) {
        Some(rest) => rest,
        None => path.duplicate(),
    }
}

/// One manifest in the report.
#[derive(Clone, Debug, PartialEq, Eq)]
pub struct MoonModOutput {
    /// The manifest's path, relative to its repository where possible.
    pub path: FsPath,
    pub deps: Vec<String>,
}

impl View for MoonModOutput {
    type V = ManifestView;

    open spec fn view(&self) -> ManifestView {
        ManifestView { path: self.path@, deps: views(self.deps@) }
    }
}

/// One repository in the report.
#[derive(Clone, Debug, PartialEq, Eq)]
pub struct RepoOutput {
    pub repo_root: FsPath,
    pub moon_mods: Vec<MoonModOutput>,
}

impl View for RepoOutput {
    type V = RepoView;

    open spec fn view(&self) -> RepoView {
        RepoView { root: self.repo_root@, moon_mods: views(self.moon_mods@) }
    }
}

/// The report of a scan.
#[derive(Clone, Debug, PartialEq, Eq)]
pub struct ScanOutput {
    pub repos: Vec<RepoOutput>,
}

impl View for ScanOutput {
    type V = Seq<RepoView>;

    open spec fn view(&self) -> Seq<RepoView> {
        views(self.repos@)
    }
}

/// A repository as it is reported: each manifest under its path relative to
/// the root.
pub open spec fn reported_repo(repo: RepoView) -> RepoView {
    RepoView {
        root: repo.root,
        moon_mods: Seq::new(
            repo.moon_mods.len(),
            |i: int|
                ManifestView {
                    path: relative_to(repo.moon_mods[i].path, repo.root),
                    deps: repo.moon_mods[i].deps,
                },
        ),
    }
}

/// The report on `repos`: the repositories in the given order, each as it
/// is reported.
pub open spec fn reported(repos: Seq<RepoView>) -> Seq<RepoView> {
    Seq::new(repos.len(), |i: int| reported_repo(repos[i]))
}

fn report_repo(repo: &RepoInfo) -> (out: RepoOutput)
    ensures
        out@ == reported_repo(repo@),
{
    let mut mods: Vec<MoonModOutput> = Vec::new();
    let mut i: usize = 0;
    while i < repo.moon_mods.len()
        invariant
            i <= repo.moon_mods.len(),
            mods.len() == i,
            forall|j: int| 0 <= j < i ==> mods[j]@ == reported_repo(repo@).moon_mods[j],
        decreases repo.moon_mods.len() - i,
    {
        let m: &MoonModInfo = &repo.moon_mods[i];
        mods.push(
            MoonModOutput {
                path: relative_path(&m.path, &repo.root),
                deps: duplicate_names(&m.deps),
            },
        );
        i = i + 1;
    }
    let out = RepoOutput { repo_root: repo.root.duplicate(), moon_mods: mods };
    assert(out@.moon_mods =~= reported_repo(repo@).moon_mods);
    out
}

/// Builds the report of a scan over `repos`.
pub fn cmd_scan(repos: &Vec<RepoInfo>) -> (out: ScanOutput)
    ensures
        out@ == reported(views(repos@)),
{
    let mut list: Vec<RepoOutput> = Vec::new();
    let mut i: usize = 0;
    while i < repos.len()
        invariant
            i <= repos.len(),
            list.len() == i,
            forall|j: int| 0 <= j < i ==> list[j]@ == reported_repo(repos[j]@),
        decreases repos.len() - i,
    {
        list.push(report_repo(&repos[i]));
        i = i + 1;
    }
    let out = ScanOutput { repos: list };
    assert(out@ =~= reported(views(repos@)));
    out
}

/// The number of manifests in `repos`.
pub open spec fn total_mods(repos: Seq<RepoView>) -> nat
    decreases repos.len(),
{
    if repos.len() == 0 {
        0
    } else {
        total_mods(repos.drop_last()) + repos.last().moon_mods.len()
    }
}

/// The number of dependency declarations in `mods`.
pub open spec fn count_deps(mods: Seq<ManifestView>) -> nat
    decreases mods.len(),
{
    if mods.len() == 0 {
        0
    } else {
        count_deps(mods.drop_last()) + mods.last().deps.len()
    }
}

/// The number of dependency declarations in `repos`; a name that several
/// manifests declare counts once for each.
pub open spec fn total_deps(repos: Seq<RepoView>) -> nat
    decreases repos.len(),
{
    if repos.len() == 0 {
        0
    } else {
        total_deps(repos.drop_last()) + count_deps(repos.last().moon_mods)
    }
}

/// The totals of a scan.
#[derive(Clone, Copy, Debug, PartialEq, Eq, Structural)]
pub struct ScanTotals {
    pub repos: usize,
    pub moon_mods: usize,
    pub deps: usize,
}

proof fn lemma_total_mods_prefix(repos: Seq<RepoView>, i: int)
    requires
        0 <= i <= repos.len(),
    ensures
        total_mods(repos.subrange(0, i)) <= total_mods(repos),
    decreases repos.len() - i,
{
    if i < repos.len() {
        lemma_total_mods_prefix(repos, i + 1);
        assert(repos.subrange(0, i + 1).drop_last() =~= repos.subrange(0, i));
    } else {
        assert(repos.subrange(0, i) =~= repos);
    }
}

proof fn lemma_total_deps_prefix(repos: Seq<RepoView>, i: int)
    requires
        0 <= i <= repos.len(),
    ensures
        total_deps(repos.subrange(0, i)) <= total_deps(repos),
    decreases repos.len() - i,
{
    if i < repos.len() {
        lemma_total_deps_prefix(repos, i + 1);
        assert(repos.subrange(0, i + 1).drop_last() =~= repos.subrange(0, i));
    } else {
        assert(repos.subrange(0, i) =~= repos);
    }
}

proof fn lemma_count_deps_prefix(mods: Seq<ManifestView>, i: int)
    requires
        0 <= i <= mods.len(),
    ensures
        count_deps(mods.subrange(0, i)) <= count_deps(mods),
    decreases mods.len() - i,
{
    if i < mods.len() {
        lemma_count_deps_prefix(mods, i + 1);
        assert(mods.subrange(0, i + 1).drop_last() =~= mods.subrange(0, i));
    } else {
        assert(mods.subrange(0, i) =~= mods);
    }
}

/// Counts the dependency declarations of `mods`, where the count fits.
fn count_manifest_deps(mods: &Vec<MoonModInfo>) -> (n: Option<usize>)
    ensures
        match n {
            Some(c) => c == count_deps(views(mods@)),
            None => count_deps(views(mods@)) > usize::MAX,
        },
{
    let ghost ms = views(mods@);
    let mut n: usize = 0;
    let mut i: usize = 0;
    while i < mods.len()
        invariant
            i <= mods.len(),
            ms == views(mods@),
            n == count_deps(ms.subrange(0, i as int)),
        decreases mods.len() - i,
    {
        proof {
            assert(ms.subrange(0, i + 1).drop_last() =~= ms.subrange(0, i as int));
            assert(ms.subrange(0, i + 1).last().deps.len() == mods[i as int].deps.len());
            lemma_count_deps_prefix(ms, i + 1);
        }
        let d: usize = mods[i].deps.len();
        if d > usize::MAX - n {
            return None;
        }
        n = n + d;
        i = i + 1;
    }
    assert(ms.subrange(0, i as int) =~= ms);
    Some(n)
}

/// Counts the repositories, manifests and dependency declarations of a
/// scan. Gives nothing where a count exceeds what the machine can hold.
pub fn scan_totals(repos: &Vec<RepoInfo>) -> (t: Option<ScanTotals>)
    ensures
        match t {
            Some(t) => {
                &&& t.repos == repos@.len()
                &&& t.moon_mods == total_mods(views(repos@))
                &&& t.deps == total_deps(views(repos@))
            },
            None => total_mods(views(repos@)) > usize::MAX || total_deps(views(repos@))
                > usize::MAX,
        },
{
    let ghost rs = views(repos@);
    let mut mods: usize = 0;
    let mut deps: usize = 0;
    let mut i: usize = 0;
    while i < repos.len()
        invariant
            i <= repos.len(),
            rs == views(repos@),
            mods == total_mods(rs.subrange(0, i as int)),
            deps == total_deps(rs.subrange(0, i as int)),
        decreases repos.len() - i,
    {
        proof {
            assert(rs.subrange(0, i + 1).drop_last() =~= rs.subrange(0, i as int));
            assert(rs.subrange(0, i + 1).last() == repos[i as int]@);
            lemma_total_mods_prefix(rs, i + 1);
            lemma_total_deps_prefix(rs, i + 1);
        }
        let m: usize = repos[i].moon_mods.len();
        if m > usize::MAX - mods {
            return None;
        }
        match count_manifest_deps(&repos[i].moon_mods) {
            None => {
                return None;
            },
            Some(d) => {
                if d > usize::MAX - deps {
                    return None;
                }
                deps = deps + d;
            },
        }
        mods = mods + m;
        i = i + 1;
    }
    assert(rs.subrange(0, i as int) =~= rs);
    Some(ScanTotals { repos: repos.len(), moon_mods: mods, deps })
}

/// The summary line of a scan.
pub open spec fn scan_summary(t: ScanTotals) -> Seq<char> {
    "Summary: "@ + decimal(t.repos as nat) + " repos, "@ + decimal(t.moon_mods as nat)
        + " moon.mod.json files, "@ + decimal(t.deps as nat) + " dependencies"@
}

impl ScanTotals {
    /// Renders the summary line of a scan.
    pub fn summary_line(&self) -> (s: String)
        ensures
            s@ == scan_summary(*self),
    {
        let a = joined("Summary: ", decimal_string(self.repos as u64).as_str());
        let b = joined(a.as_str(), " repos, ");
        let c = joined(b.as_str(), decimal_string(self.moon_mods as u64).as_str());
        let d = joined(c.as_str(), " moon.mod.json files, ");
        let e = joined(d.as_str(), decimal_string(self.deps as u64).as_str());
        joined(e.as_str(), " dependencies")
    }
}

} // verus!
