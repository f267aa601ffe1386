//! The records that the engine passes around: manifests, repositories and
//! the result of working on one repository.

use crate::path::{FsPath, Segment};
use crate::sorting::{views, Keyed};
use crate::text::same_text;
use vstd::prelude::*;

verus! {

/// A copy of a list of names.
pub fn duplicate_names(names: &Vec<String>) -> (out: Vec<String>)
    ensures
        views(out@) == views(names@),
{
    let mut out: Vec<String> = Vec::new();
    let mut i: usize = 0;
    while i < names.len()
        invariant
            i <= names.len(),
            out.len() == i,
            forall|j: int| 0 <= j < i ==> out[j]@ == names[j]@,
        decreases names.len() - i,
    {
        out.push(names[i].clone());
        i = i + 1;
    }
    assert(views(out@) =~= views(names@));
    out
}

/// Tells whether `name` is one of `names`.
pub fn has_name(names: &Vec<String>, name: &str) -> (b: bool)
    ensures
        b == views(names@).contains(name@),
{
    let mut i: usize = 0;
    while i < names.len()
        invariant
            i <= names.len(),
            forall|j: int| 0 <= j < i ==> names[j]@ != name@,
        decreases names.len() - i,
    {
        if same_text(names[i].as_str(), name) {
            assert(views(names@)[i as int] == name@);
            return true;
        }
        i = i + 1;
    }
    false
}

/// One module manifest: where it lies and the names of the dependencies it
/// declares.
#[derive(Clone, Debug, PartialEq, Eq)]
pub struct MoonModInfo {
    pub path: FsPath,
    pub deps: Vec<String>,
}

/// The mathematical value of a [`MoonModInfo`].
pub struct ManifestView {
    pub path: Seq<Segment>,
    pub deps: Seq<Seq<char>>,
}

impl View for MoonModInfo {
    type V = ManifestView;

    open spec fn view(&self) -> ManifestView {
        ManifestView { path: self.path@, deps: views(self.deps@) }
    }
}

impl Keyed for MoonModInfo {
    open spec fn key_of(v: ManifestView) -> Seq<Segment> {
        v.path
    }

    fn key(&self) -> (k: &FsPath) {
        &self.path
    }
}

impl MoonModInfo {
    /// A copy of this manifest.
    pub fn duplicate(&self) -> (m: MoonModInfo)
        ensures
            m@ == self@,
    {
        MoonModInfo { path: self.path.duplicate(), deps: duplicate_names(&self.deps) }
    }
}

/// A repository: its root and the manifests that lie under it.
#[derive(Clone, Debug, PartialEq, Eq)]
pub struct RepoInfo {
    pub root: FsPath,
    pub moon_mods: Vec<MoonModInfo>,
}

/// The mathematical value of a [`RepoInfo`].
pub struct RepoView {
    pub root: Seq<Segment>,
    pub moon_mods: Seq<ManifestView>,
}

impl View for RepoInfo {
    type V = RepoView;

    open spec fn view(&self) -> RepoView {
        RepoView { root: self.root@, moon_mods: views(self.moon_mods@) }
    }
}

impl Keyed for RepoInfo {
    open spec fn key_of(v: RepoView) -> Seq<Segment> {
        v.root
    }

    fn key(&self) -> (k: &FsPath) {
        &self.root
    }
}

/// A dependency whose `add` failed, with the error message.
#[derive(Clone, Debug, PartialEq, Eq)]
pub struct FailedPackage {
    pub name: String,
    pub message: String,
}

impl View for FailedPackage {
    type V = (Seq<char>, Seq<char>);

    open spec fn view(&self) -> (Seq<char>, Seq<char>) {
        (self.name@, self.message@)
    }
}

/// What working on one repository came to.
#[derive(Clone, Debug, PartialEq, Eq)]
pub struct RepoResult {
    pub repo_root: FsPath,
    pub success: bool,
    pub updated_packages: Vec<String>,
    pub failed_packages: Vec<FailedPackage>,
    pub errors: Vec<String>,
}

/// The mathematical value of a [`RepoResult`].
pub struct ResultView {
    pub repo_root: Seq<Segment>,
    pub success: bool,
    pub updated_packages: Seq<Seq<char>>,
    pub failed_packages: Seq<(Seq<char>, Seq<char>)>,
    pub errors: Seq<Seq<char>>,
}

impl View for RepoResult {
    type V = ResultView;

    open spec fn view(&self) -> ResultView {
        ResultView {
            repo_root: self.repo_root@,
            success: self.success,
            updated_packages: views(self.updated_packages@),
            failed_packages: views(self.failed_packages@),
            errors: views(self.errors@),
        }
    }
}

impl Keyed for RepoResult {
    open spec fn key_of(v: ResultView) -> Seq<Segment> {
        v.repo_root
    }

    fn key(&self) -> (k: &FsPath) {
        &self.repo_root
    }
}

impl RepoResult {
    /// The result a worker starts from: success, with nothing recorded.
    pub fn new(repo_root: FsPath) -> (r: RepoResult)
        ensures
            r@ == (ResultView {
                repo_root: repo_root@,
                success: true,
                updated_packages: Seq::empty(),
                failed_packages: Seq::empty(),
                errors: Seq::empty(),
            }),
    {
        let r = RepoResult {
            repo_root,
            success: true,
            updated_packages: Vec::new(),
            failed_packages: Vec::new(),
            errors: Vec::new(),
        };
        assert(r@.updated_packages =~= Seq::empty());
        assert(r@.failed_packages =~= Seq::empty());
        assert(r@.errors =~= Seq::empty());
        r
    }
}

} // verus!
