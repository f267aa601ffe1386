//! Grouping manifests under repository roots: the root of a manifest is the
//! nearest directory above it that holds a version-control marker.

use crate::model::{ManifestView, MoonModInfo, RepoInfo, RepoView};
use crate::path::{is_prefix_of, lemma_path_order_total, parent_of, path_lt, FsPath, Segment};
use crate::sorting::{
    insert_ordered, insert_position, key_fn, lemma_insert_position, lemma_ordered_insert_is_insert,
    ordered_insert, strictly_ascending, views,
};
use vstd::prelude::*;

verus! {

/// The name of the entry that marks a repository root.
pub open spec fn marker_name() -> Seq<char> {
    ".git"@
}

/// The path of the marker in the directory `dir`; a file and a directory
/// both count as one.
pub fn marker_path(dir: &FsPath) -> (p: FsPath)
    ensures
        p@ == dir@.push(Segment::Normal(marker_name())),
{
    dir.child(".git")
}

/// The directory of the manifest at `path`: its parent, or the path itself
/// where it has none.
pub open spec fn manifest_dir(path: Seq<Segment>) -> Seq<Segment> {
    match parent_of(path) {
        Some(p) => p,
        None => path,
    }
}

/// The nearest of `dir` and the directories above it that is among
/// `marked`.
pub open spec fn nearest_marked(dir: Seq<Segment>, marked: Seq<Seq<Segment>>) -> Option<
    Seq<Segment>,
>
    decreases dir.len(),
{
    if marked.contains(dir) {
        Some(dir)
    } else {
        match parent_of(dir) {
            Some(p) => nearest_marked(p, marked),
            None => None,
        }
    }
}

/// The repository root of the manifest at `path`, where `marked` are the
/// directories that hold a marker: the nearest marked directory from the
/// manifest's own upwards, else the manifest's own directory.
pub open spec fn repo_root(path: Seq<Segment>, marked: Seq<Seq<Segment>>) -> Seq<Segment> {
    match nearest_marked(manifest_dir(path), marked) {
        Some(r) => r,
        None => manifest_dir(path),
    }
}

/// The nearest marked directory is marked, lies at or above `dir`, and no
/// directory between the two is marked.
pub proof fn lemma_nearest_marked(dir: Seq<Segment>, marked: Seq<Seq<Segment>>)
    ensures
        match nearest_marked(dir, marked) {
            Some(r) => {
                &&& marked.contains(r)
                &&& is_prefix_of(r, dir)
                &&& forall|n: int|
                    r.len() < n <= dir.len() ==> !marked.contains(#[trigger] dir.subrange(0, n))
            },
            None => !marked.contains(dir),
        },
    decreases dir.len(),
{
    assert(dir.subrange(0, dir.len() as int) =~= dir);
    if !marked.contains(dir) {
        match parent_of(dir) {
            Some(p) => {
                lemma_nearest_marked(p, marked);
                assert forall|n: int| 0 <= n <= p.len() implies p.subrange(0, n) == dir.subrange(
                    0,
                    n,
                ) by {
                    assert(p.subrange(0, n) =~= dir.subrange(0, n));
                }
                match nearest_marked(p, marked) {
                    Some(r) => {
                        assert(dir.subrange(0, r.len() as int) =~= p.subrange(0, r.len() as int));
                    },
                    None => {},
                }
            },
            None => {},
        }
    }
}

/// The root of a manifest lies at or above the manifest's directory.
pub proof fn lemma_root_is_ancestor(path: Seq<Segment>, marked: Seq<Seq<Segment>>)
    ensures
        is_prefix_of(repo_root(path, marked), manifest_dir(path)),
{
    let dir = manifest_dir(path);
    lemma_nearest_marked(dir, marked);
    assert(dir.subrange(0, dir.len() as int) =~= dir);
}

/// Tells whether `dir` is one of `marked`.
fn is_marked(dir: &FsPath, marked: &Vec<FsPath>) -> (b: bool)
    ensures
        b == views(marked@).contains(dir@),
{
    let mut i: usize = 0;
    while i < marked.len()
        invariant
            i <= marked.len(),
            forall|j: int| 0 <= j < i ==> views(marked@)[j] != dir@,
        decreases marked.len() - i,
    {
        if marked[i].same(dir) {
            assert(views(marked@)[i as int] == dir@);
            return true;
        }
        i = i + 1;
    }
    false
}

/// The directories in which a marker decides the root of the manifest at
/// `path`: the manifest's own directory, then each directory above it, the
/// nearest first.
pub fn marker_candidates(path: &FsPath) -> (dirs: Vec<FsPath>)
    ensures
        dirs@.len() >= 1,
        dirs@[0]@ == manifest_dir(path@),
        forall|i: int|
            0 < i < dirs@.len() ==> parent_of(dirs@[i - 1]@) == Some(#[trigger] dirs@[i]@),
        parent_of(dirs@.last()@) is None,
{
    let mut dirs: Vec<FsPath> = Vec::new();
    let first: FsPath = match path.parent() {
        Some(p) => p,
        None => path.duplicate(),
    };
    let mut next: Option<FsPath> = first.parent();
    dirs.push(first);
    loop
        invariant
            dirs@.len() >= 1,
            dirs@[0]@ == manifest_dir(path@),
            forall|i: int|
                0 < i < dirs@.len() ==> parent_of(dirs@[i - 1]@) == Some(#[trigger] dirs@[i]@),
            match next {
                Some(p) => parent_of(dirs@.last()@) == Some(p@),
                None => parent_of(dirs@.last()@) is None,
            },
        decreases
            (match next {
                Some(p) => p@.len() + 1,
                None => 0,
            }),
    {
        match next {
            None => {
                return dirs;
            },
            Some(p) => {
                next = p.parent();
                dirs.push(p);
            },
        }
    }
}

/// Finds the repository root of the manifest at `path`, given the
/// directories that hold a marker.
pub fn find_repo_root(path: &FsPath, marked: &Vec<FsPath>) -> (root: FsPath)
    ensures
        root@ == repo_root(path@, views(marked@)),
{
    let dir: FsPath = match path.parent() {
        Some(p) => p,
        None => path.duplicate(),
    };
    let mut n: usize = dir.len();
    assert(dir@.subrange(0, n as int) =~= dir@);
    while n > 0
        invariant
            n <= dir@.len(),
            dir@ == manifest_dir(path@),
            nearest_marked(dir@, views(marked@)) == nearest_marked(
                dir@.subrange(0, n as int),
                views(marked@),
            ),
        decreases n,
    {
        let cur = dir.prefix(n);
        if is_marked(&cur, marked) {
            return cur;
        }
        match cur.parent() {
            None => {
                return dir;
            },
            Some(_) => {
                assert(cur@.drop_last() =~= dir@.subrange(0, n - 1));
                n = n - 1;
            },
        }
    }
    let top = dir.prefix(0);
    if is_marked(&top, marked) {
        top
    } else {
        dir
    }
}

/// The manifests of `mods` whose root is `root`, in the order of `mods`.
pub open spec fn members(
    mods: Seq<ManifestView>,
    marked: Seq<Seq<Segment>>,
    root: Seq<Segment>,
) -> Seq<ManifestView>
    decreases mods.len(),
{
    if mods.len() == 0 {
        Seq::empty()
    } else {
        let rest = members(mods.drop_last(), marked, root);
        if repo_root(mods.last().path, marked) == root {
            rest.push(mods.last())
        } else {
            rest
        }
    }
}

/// One of `repos` has the given root.
pub open spec fn has_root(repos: Seq<RepoView>, root: Seq<Segment>) -> bool {
    exists|i: int| 0 <= i < repos.len() && (#[trigger] repos[i]).root == root
}

/// The position in `repos` of the repository with the given root, if there
/// is one.
pub open spec fn position_of(repos: Seq<RepoView>, root: Seq<Segment>) -> Option<int> {
    if has_root(repos, root) {
        Some(choose|i: int| 0 <= i < repos.len() && (#[trigger] repos[i]).root == root)
    } else {
        None
    }
}

/// `repos` with the manifest `m` of root `root` put in: into the repository
/// of that root where there is one, else into a new repository that takes its
/// place in the order of roots.
pub open spec fn placed(repos: Seq<RepoView>, m: ManifestView, root: Seq<Segment>) -> Seq<
    RepoView,
> {
    match position_of(repos, root) {
        Some(i) => repos.update(i, RepoView { root, moon_mods: repos[i].moon_mods.push(m) }),
        None => ordered_insert(repos, RepoView { root, moon_mods: seq![m] }, key_fn::<RepoInfo>()),
    }
}

/// The repositories of `mods`: the manifests are placed one after the other
/// in the order of discovery.
pub open spec fn grouped(mods: Seq<ManifestView>, marked: Seq<Seq<Segment>>) -> Seq<RepoView>
    decreases mods.len(),
{
    if mods.len() == 0 {
        Seq::empty()
    } else {
        placed(grouped(mods.drop_last(), marked), mods.last(), repo_root(mods.last().path, marked))
    }
}

/// What holds of the grouping of `mods`: the roots strictly ascend; every
/// repository holds exactly the manifests of its root, in the order of
/// discovery, and at least one; and every manifest's root is the root of a
/// repository.
pub open spec fn is_grouping(
    repos: Seq<RepoView>,
    mods: Seq<ManifestView>,
    marked: Seq<Seq<Segment>>,
) -> bool {
    &&& strictly_ascending(repos, key_fn::<RepoInfo>())
    &&& forall|k: int|
        0 <= k < repos.len() ==> (#[trigger] repos[k]).moon_mods == members(
            mods,
            marked,
            repos[k].root,
        ) && repos[k].moon_mods.len() > 0
    &&& forall|i: int|
        0 <= i < mods.len() ==> has_root(repos, repo_root((#[trigger] mods[i]).path, marked))
}

/// Placing one more manifest keeps a grouping a grouping.
proof fn lemma_placed(
    repos: Seq<RepoView>,
    mods: Seq<ManifestView>,
    marked: Seq<Seq<Segment>>,
    m: ManifestView,
)
    requires
        is_grouping(repos, mods, marked),
    ensures
        is_grouping(placed(repos, m, repo_root(m.path, marked)), mods.push(m), marked),
{
    let key = key_fn::<RepoInfo>();
    let root = repo_root(m.path, marked);
    let after = placed(repos, m, root);
    let all = mods.push(m);
    assert(all.drop_last() =~= mods);
    assert(all.last() == m);
    lemma_path_order_total();
    match position_of(repos, root) {
        Some(i) => {
            assert forall|a: int, b: int| 0 <= a < b < after.len() implies path_lt(
                #[trigger] key(after[a]),
                #[trigger] key(after[b]),
            ) by {
                assert(key(after[a]) == key(repos[a]));
                assert(key(after[b]) == key(repos[b]));
            }
            assert forall|k: int| 0 <= k < after.len() implies (#[trigger] after[k]).moon_mods
                == members(all, marked, after[k].root) && after[k].moon_mods.len() > 0 by {
                if k != i {
                    assert(after[k] == repos[k]);
                    if k < i {
                        assert(path_lt(key(repos[k]), key(repos[i])));
                    } else {
                        assert(path_lt(key(repos[i]), key(repos[k])));
                    }
                }
            }
            assert forall|j: int| 0 <= j < all.len() implies has_root(
                after,
                repo_root((#[trigger] all[j]).path, marked),
            ) by {
                if j < mods.len() {
                    assert(all[j] == mods[j]);
                    let k = choose|k: int|
                        0 <= k < repos.len() && (#[trigger] repos[k]).root == repo_root(
                            mods[j].path,
                            marked,
                        );
                    assert(after[k].root == repos[k].root);
                } else {
                    assert(after[i].root == root);
                }
            }
        },
        None => {
            let fresh = RepoView { root, moon_mods: seq![m] };
            lemma_ordered_insert_is_insert(repos, fresh, key);
            let p = insert_position(repos, fresh, key);
            assert forall|a: int, b: int| 0 <= a < b < repos.len() implies crate::path::path_le(
                #[trigger] key(repos[a]),
                #[trigger] key(repos[b]),
            ) by {
                assert(path_lt(key(repos[a]), key(repos[b])));
            }
            lemma_insert_position(repos, fresh, key);
            assert(after == repos.insert(p, fresh));
            lemma_members_none(mods, marked, root, repos);
            assert forall|a: int, b: int| 0 <= a < b < after.len() implies path_lt(
                #[trigger] key(after[a]),
                #[trigger] key(after[b]),
            ) by {
                if a < p && b > p {
                    assert(after[a] == repos[a] && after[b] == repos[b - 1]);
                    assert(path_lt(key(repos[a]), key(repos[b - 1])));
                } else if a < p && b < p {
                    assert(after[a] == repos[a] && after[b] == repos[b]);
                    assert(path_lt(key(repos[a]), key(repos[b])));
                } else if a > p {
                    assert(after[a] == repos[a - 1] && after[b] == repos[b - 1]);
                    assert(path_lt(key(repos[a - 1]), key(repos[b - 1])));
                } else if a == p {
                    assert(after[b] == repos[b - 1]);
                    assert(path_lt(key(fresh), key(repos[b - 1])));
                } else {
                    assert(after[a] == repos[a]);
                    assert(crate::path::path_le(key(repos[a]), key(fresh)));
                    assert(repos[a].root != root);
                }
            }
            assert forall|k: int| 0 <= k < after.len() implies (#[trigger] after[k]).moon_mods
                == members(all, marked, after[k].root) && after[k].moon_mods.len() > 0 by {
                if k < p {
                    assert(after[k] == repos[k]);
                    assert(repos[k].root != root);
                } else if k > p {
                    assert(after[k] == repos[k - 1]);
                    assert(repos[k - 1].root != root);
                } else {
                    assert(members(mods, marked, root) =~= Seq::<ManifestView>::empty());
                    assert(fresh.moon_mods =~= Seq::<ManifestView>::empty().push(m));
                }
            }
            assert forall|j: int| 0 <= j < all.len() implies has_root(
                after,
                repo_root((#[trigger] all[j]).path, marked),
            ) by {
                if j < mods.len() {
                    assert(all[j] == mods[j]);
                    let k = choose|k: int|
                        0 <= k < repos.len() && (#[trigger] repos[k]).root == repo_root(
                            mods[j].path,
                            marked,
                        );
                    if k < p {
                        assert(after[k] == repos[k]);
                    } else {
                        assert(after[k + 1] == repos[k]);
                    }
                } else {
                    assert(after[p].root == root);
                }
            }
        },
    }
}

/// Where no repository has the root `root`, no manifest has it.
proof fn lemma_members_none(
    mods: Seq<ManifestView>,
    marked: Seq<Seq<Segment>>,
    root: Seq<Segment>,
    repos: Seq<RepoView>,
)
    requires
        forall|i: int|
            0 <= i < mods.len() ==> has_root(repos, repo_root((#[trigger] mods[i]).path, marked)),
        !has_root(repos, root),
    ensures
        members(mods, marked, root).len() == 0,
    decreases mods.len(),
{
    if mods.len() > 0 {
        let d = mods.drop_last();
        assert forall|i: int| 0 <= i < d.len() implies has_root(
            repos,
            repo_root((#[trigger] d[i]).path, marked),
        ) by {
            assert(d[i] == mods[i]);
        }
        lemma_members_none(d, marked, root, repos);
        assert(mods.last() == mods[mods.len() - 1]);
    }
}

/// `grouped` is a grouping.
pub proof fn lemma_grouped(mods: Seq<ManifestView>, marked: Seq<Seq<Segment>>)
    ensures
        is_grouping(grouped(mods, marked), mods, marked),
    decreases mods.len(),
{
    if mods.len() > 0 {
        lemma_grouped(mods.drop_last(), marked);
        lemma_placed(grouped(mods.drop_last(), marked), mods.drop_last(), marked, mods.last());
        assert(mods.drop_last().push(mods.last()) =~= mods);
    }
}

/// A manifest is a member of its root.
pub proof fn lemma_member(mods: Seq<ManifestView>, marked: Seq<Seq<Segment>>, i: int)
    requires
        0 <= i < mods.len(),
    ensures
        members(mods, marked, repo_root(mods[i].path, marked)).contains(mods[i]),
    decreases mods.len(),
{
    let root = repo_root(mods[i].path, marked);
    let all = members(mods, marked, root);
    if i == mods.len() - 1 {
        assert(all[all.len() - 1] == mods[i]);
    } else {
        let d = mods.drop_last();
        assert(d[i] == mods[i]);
        lemma_member(d, marked, i);
        let rest = members(d, marked, root);
        let j = choose|j: int| 0 <= j < rest.len() && rest[j] == mods[i];
        assert(all[j] == mods[i]);
    }
}

/// Every member of a root is a manifest of that root.
pub proof fn lemma_members_have_root(
    mods: Seq<ManifestView>,
    marked: Seq<Seq<Segment>>,
    root: Seq<Segment>,
    m: ManifestView,
)
    requires
        members(mods, marked, root).contains(m),
    ensures
        repo_root(m.path, marked) == root,
        mods.contains(m),
    decreases mods.len(),
{
    let all = members(mods, marked, root);
    let j = choose|j: int| 0 <= j < all.len() && all[j] == m;
    if mods.len() > 0 {
        let rest = members(mods.drop_last(), marked, root);
        if j < rest.len() {
            assert(rest[j] == m);
            lemma_members_have_root(mods.drop_last(), marked, root, m);
            let k = choose|k: int| 0 <= k < mods.drop_last().len() && mods.drop_last()[k] == m;
            assert(mods[k] == m);
        } else {
            assert(mods[mods.len() - 1] == m);
        }
    }
}

/// Two manifests with the same root lie together in exactly one
/// repository: one repository holds both, and no other repository holds
/// either.
pub proof fn lemma_same_root_same_repo(
    mods: Seq<ManifestView>,
    marked: Seq<Seq<Segment>>,
    i: int,
    j: int,
)
    requires
        0 <= i < mods.len(),
        0 <= j < mods.len(),
        repo_root(mods[i].path, marked) == repo_root(mods[j].path, marked),
    ensures
        exists|k: int|
            0 <= k < grouped(mods, marked).len() && {
                &&& (#[trigger] grouped(mods, marked)[k]).moon_mods.contains(mods[i])
                &&& grouped(mods, marked)[k].moon_mods.contains(mods[j])
                &&& forall|l: int|
                    0 <= l < grouped(mods, marked).len() && l != k ==> {
                        &&& !(#[trigger] grouped(mods, marked)[l]).moon_mods.contains(mods[i])
                        &&& !grouped(mods, marked)[l].moon_mods.contains(mods[j])
                    }
            },
{
    let repos = grouped(mods, marked);
    let key = key_fn::<RepoInfo>();
    let root = repo_root(mods[i].path, marked);
    lemma_grouped(mods, marked);
    lemma_path_order_total();
    let k = choose|k: int| 0 <= k < repos.len() && (#[trigger] repos[k]).root == root;
    lemma_member(mods, marked, i);
    lemma_member(mods, marked, j);
    assert forall|l: int| 0 <= l < repos.len() && l != k implies {
        &&& !(#[trigger] repos[l]).moon_mods.contains(mods[i])
        &&& !repos[l].moon_mods.contains(mods[j])
    } by {
        if l < k {
            assert(path_lt(key(repos[l]), key(repos[k])));
        } else {
            assert(path_lt(key(repos[k]), key(repos[l])));
        }
        if repos[l].moon_mods.contains(mods[i]) {
            lemma_members_have_root(mods, marked, repos[l].root, mods[i]);
        }
        if repos[l].moon_mods.contains(mods[j]) {
            lemma_members_have_root(mods, marked, repos[l].root, mods[j]);
        }
    }
}

/// The root of every repository of the grouping lies at or above the
/// directory of each of its manifests.
pub proof fn lemma_root_above_manifests(
    mods: Seq<ManifestView>,
    marked: Seq<Seq<Segment>>,
    k: int,
    m: ManifestView,
)
    requires
        0 <= k < grouped(mods, marked).len(),
        grouped(mods, marked)[k].moon_mods.contains(m),
    ensures
        is_prefix_of(grouped(mods, marked)[k].root, manifest_dir(m.path)),
{
    lemma_grouped(mods, marked);
    lemma_members_have_root(mods, marked, grouped(mods, marked)[k].root, m);
    lemma_root_is_ancestor(m.path, marked);
}

/// The position in `repos` of the repository at `root`, if there is one.
fn find_repo(repos: &Vec<RepoInfo>, root: &FsPath) -> (at: Option<usize>)
    ensures
        match at {
            Some(i) => i < repos@.len() && repos@[i as int]@.root == root@,
            None => forall|i: int| 0 <= i < repos@.len() ==> (#[trigger] views(repos@)[i]).root
                != root@,
        },
{
    let mut i: usize = 0;
    while i < repos.len()
        invariant
            i <= repos.len(),
            forall|j: int| 0 <= j < i ==> (#[trigger] views(repos@)[j]).root != root@,
        decreases repos.len() - i,
    {
        if repos[i].root.same(root) {
            return Some(i);
        }
        i = i + 1;
    }
    None
}

/// Groups the manifests under their repository roots, given the
/// directories that hold a marker. The repositories come in ascending
/// order of their roots, each with its manifests in the order of discovery.
pub fn discover_repos(manifests: Vec<MoonModInfo>, marked: &Vec<FsPath>) -> (repos: Vec<RepoInfo>)
    ensures
        views(repos@) == grouped(views(manifests@), views(marked@)),
        is_grouping(views(repos@), views(manifests@), views(marked@)),
{
    let ghost mods = views(manifests@);
    let ghost mk = views(marked@);
    let mut repos: Vec<RepoInfo> = Vec::new();
    assert(views(repos@) =~= grouped(mods.subrange(0, 0), mk));
    for m in it: manifests
        invariant
            mods == views(it.seq()),
            it.seq() == manifests@,
            mk == views(marked@),
            views(repos@) == grouped(mods.subrange(0, it.index() as int), mk),
    {
        let ghost n = it.index() as int;
        let ghost before = views(repos@);
        proof {
            assert(mods.subrange(0, n + 1).drop_last() =~= mods.subrange(0, n));
            assert(mods.subrange(0, n + 1).last() == m@);
            lemma_grouped(mods.subrange(0, n), mk);
            lemma_path_order_total();
        }
        let root = find_repo_root(&m.path, marked);
        match find_repo(&repos, &root) {
            Some(i) => {
                proof {
                    let c = position_of(before, root@)->0;
                    let key = key_fn::<RepoInfo>();
                    assert(before[i as int].root == root@);
                    if c < i {
                        assert(path_lt(key(before[c]), key(before[i as int])));
                    } else if c > i {
                        assert(path_lt(key(before[i as int]), key(before[c])));
                    }
                }
                let mut repo = repos.remove(i);
                let ghost old_mods = views(repo.moon_mods@);
                repo.moon_mods.push(m);
                assert(views(repo.moon_mods@) =~= old_mods.push(m@));
                repos.insert(i, repo);
                assert(views(repos@) =~= placed(before, m@, root@));
            },
            None => {
                let mut list: Vec<MoonModInfo> = Vec::new();
                list.push(m);
                let repo = RepoInfo { root, moon_mods: list };
                assert(repo@.moon_mods =~= seq![m@]);
                assert(position_of(before, root@) is None);
                insert_ordered(&mut repos, repo);
            },
        }
    }
    proof {
        assert(mods.subrange(0, mods.len() as int) =~= mods);
        lemma_grouped(mods, mk);
    }
    repos
}

} // verus!
