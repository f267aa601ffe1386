//! The dependencies that the work on a repository covers: every name that
//! one of its manifests declares and the package filter lets through, once
//! each.

use crate::model::{has_name, ManifestView, MoonModInfo, RepoInfo, RepoView};
use crate::sorting::{key_fn, sort_by_key, sorted_by_key, views};
use crate::text::{contains, is_substring};
use vstd::prelude::*;

verus! {

/// The dependency names of `mods`, manifest after manifest.
pub open spec fn all_deps(mods: Seq<ManifestView>) -> Seq<Seq<char>>
    decreases mods.len(),
{
    if mods.len() == 0 {
        Seq::empty()
    } else {
        all_deps(mods.drop_last()) + mods.last().deps
    }
}

/// The filter lets `name` through: it is empty, or one of its strings is a
/// substring of `name`.
pub open spec fn selected(name: Seq<char>, filter: Seq<Seq<char>>) -> bool {
    filter.len() == 0 || exists|i: int|
        0 <= i < filter.len() && is_substring(#[trigger] filter[i], name)
}

/// The names of `s` that the filter lets through, each at its first
/// occurrence only.
pub open spec fn select_unique(s: Seq<Seq<char>>, filter: Seq<Seq<char>>) -> Seq<Seq<char>>
    decreases s.len(),
{
    if s.len() == 0 {
        Seq::empty()
    } else {
        let rest = select_unique(s.drop_last(), filter);
        if selected(s.last(), filter) && !rest.contains(s.last()) {
            rest.push(s.last())
        } else {
            rest
        }
    }
}

/// The dependencies to work on in a repository: the manifests are taken in
/// ascending order of their paths, and each selected name stands where it is
/// first seen.
pub open spec fn planned_deps(repo: RepoView, filter: Seq<Seq<char>>) -> Seq<Seq<char>> {
    select_unique(all_deps(sorted_by_key(repo.moon_mods, key_fn::<MoonModInfo>())), filter)
}

/// `select_unique` holds no name twice, and holds exactly the selected
/// names of its input.
pub proof fn lemma_select_unique(s: Seq<Seq<char>>, filter: Seq<Seq<char>>)
    ensures
        select_unique(s, filter).no_duplicates(),
        forall|n: Seq<char>| #[trigger]
            select_unique(s, filter).contains(n) <==> s.contains(n) && selected(n, filter),
    decreases s.len(),
{
    if s.len() > 0 {
        let rest = select_unique(s.drop_last(), filter);
        lemma_select_unique(s.drop_last(), filter);
        let r = select_unique(s, filter);
        assert forall|n: Seq<char>| #[trigger] r.contains(n) <==> s.contains(n) && selected(
            n,
            filter,
        ) by {
            if r.contains(n) {
                let i = choose|i: int| 0 <= i < r.len() && r[i] == n;
                if i < rest.len() {
                    assert(rest[i] == n);
                    assert(rest.contains(n));
                    let j = choose|j: int| 0 <= j < s.drop_last().len() && s.drop_last()[j] == n;
                    assert(s[j] == n);
                } else {
                    assert(n == s.last());
                    assert(s[s.len() - 1] == n);
                }
            }
            if s.contains(n) && selected(n, filter) {
                let j = choose|j: int| 0 <= j < s.len() && s[j] == n;
                if j < s.len() - 1 {
                    assert(s.drop_last()[j] == n);
                    assert(rest.contains(n));
                    let i = choose|i: int| 0 <= i < rest.len() && rest[i] == n;
                    assert(r[i] == n);
                } else if rest.contains(n) {
                    let i = choose|i: int| 0 <= i < rest.len() && rest[i] == n;
                    assert(r[i] == n);
                } else {
                    assert(r[r.len() - 1] == n);
                }
            }
        }
    }
}

/// A name is a dependency of `mods` exactly if one of the manifests declares
/// it.
pub proof fn lemma_all_deps(mods: Seq<ManifestView>)
    ensures
        forall|n: Seq<char>| #[trigger]
            all_deps(mods).contains(n) <==> exists|k: int|
                0 <= k < mods.len() && (#[trigger] mods[k]).deps.contains(n),
    decreases mods.len(),
{
    if mods.len() > 0 {
        let head = all_deps(mods.drop_last());
        let tail = mods.last().deps;
        lemma_all_deps(mods.drop_last());
        assert forall|n: Seq<char>| #[trigger]
            all_deps(mods).contains(n) <==> exists|k: int|
                0 <= k < mods.len() && (#[trigger] mods[k]).deps.contains(n) by {
            if all_deps(mods).contains(n) {
                let i = choose|i: int| 0 <= i < (head + tail).len() && (head + tail)[i] == n;
                if i < head.len() {
                    assert(head[i] == n);
                    assert(head.contains(n));
                    let k = choose|k: int|
                        0 <= k < mods.drop_last().len() && (#[trigger] mods.drop_last()[k]).deps.contains(
                            n,
                        );
                    assert(mods[k].deps.contains(n));
                } else {
                    assert(tail[i - head.len()] == n);
                    assert(mods[mods.len() - 1].deps.contains(n));
                }
            }
            if exists|k: int| 0 <= k < mods.len() && (#[trigger] mods[k]).deps.contains(n) {
                let k = choose|k: int| 0 <= k < mods.len() && (#[trigger] mods[k]).deps.contains(n);
                if k < mods.len() - 1 {
                    assert(mods.drop_last()[k].deps.contains(n));
                    assert(head.contains(n));
                    let i = choose|i: int| 0 <= i < head.len() && head[i] == n;
                    assert((head + tail)[i] == n);
                } else {
                    let i = choose|i: int| 0 <= i < tail.len() && tail[i] == n;
                    assert((head + tail)[head.len() + i] == n);
                }
            }
        }
    }
}

/// The planned dependencies hold no name twice, and a name is planned
/// exactly if a manifest of the repository declares it and the filter lets it
/// through.
pub proof fn lemma_planned_deps(repo: RepoView, filter: Seq<Seq<char>>)
    ensures
        planned_deps(repo, filter).no_duplicates(),
        forall|n: Seq<char>| #[trigger]
            planned_deps(repo, filter).contains(n) <==> selected(n, filter) && exists|k: int|
                0 <= k < repo.moon_mods.len() && (#[trigger] repo.moon_mods[k]).deps.contains(n),
{
    broadcast use vstd::seq_lib::group_to_multiset_ensures;

    let sorted = sorted_by_key(repo.moon_mods, key_fn::<MoonModInfo>());
    crate::sorting::lemma_sorted_by_key(repo.moon_mods, key_fn::<MoonModInfo>());
    lemma_all_deps(sorted);
    lemma_select_unique(all_deps(sorted), filter);
    assert forall|n: Seq<char>| #[trigger]
        planned_deps(repo, filter).contains(n) <==> selected(n, filter) && exists|k: int|
            0 <= k < repo.moon_mods.len() && (#[trigger] repo.moon_mods[k]).deps.contains(n) by {
        if exists|k: int| 0 <= k < sorted.len() && (#[trigger] sorted[k]).deps.contains(n) {
            let k = choose|k: int| 0 <= k < sorted.len() && (#[trigger] sorted[k]).deps.contains(n);
            assert(sorted.contains(sorted[k]));
            assert(sorted.to_multiset().count(sorted[k]) > 0);
            assert(repo.moon_mods.contains(sorted[k]));
            let j = choose|j: int| 0 <= j < repo.moon_mods.len() && repo.moon_mods[j] == sorted[k];
            assert(repo.moon_mods[j].deps.contains(n));
        }
        if exists|k: int|
            0 <= k < repo.moon_mods.len() && (#[trigger] repo.moon_mods[k]).deps.contains(n) {
            let k = choose|k: int|
                0 <= k < repo.moon_mods.len() && (#[trigger] repo.moon_mods[k]).deps.contains(n);
            assert(repo.moon_mods.contains(repo.moon_mods[k]));
            assert(repo.moon_mods.to_multiset().count(repo.moon_mods[k]) > 0);
            assert(sorted.contains(repo.moon_mods[k]));
            let j = choose|j: int| 0 <= j < sorted.len() && sorted[j] == repo.moon_mods[k];
            assert(sorted[j].deps.contains(n));
        }
    }
}

/// Tells whether the filter lets `name` through.
pub fn is_selected(name: &str, filter: &Vec<String>) -> (b: bool)
    ensures
        b == selected(name@, views(filter@)),
{
    if filter.len() == 0 {
        return true;
    }
    let mut i: usize = 0;
    while i < filter.len()
        invariant
            i <= filter.len(),
            forall|j: int| 0 <= j < i ==> !is_substring(#[trigger] views(filter@)[j], name@),
        decreases filter.len() - i,
    {
        if contains(name, filter[i].as_str()) {
            assert(is_substring(views(filter@)[i as int], name@));
            return true;
        }
        i = i + 1;
    }
    false
}

/// A copy of every manifest of `mods`.
fn duplicate_manifests(mods: &Vec<MoonModInfo>) -> (out: Vec<MoonModInfo>)
    ensures
        views(out@) == views(mods@),
{
    let mut out: Vec<MoonModInfo> = Vec::new();
    let mut i: usize = 0;
    while i < mods.len()
        invariant
            i <= mods.len(),
            out.len() == i,
            forall|j: int| 0 <= j < i ==> out[j]@ == mods[j]@,
        decreases mods.len() - i,
    {
        out.push(mods[i].duplicate());
        i = i + 1;
    }
    assert(views(out@) =~= views(mods@));
    out
}

/// Collects the dependencies to work on in `repo` under the package filter.
pub fn collect_deps(repo: &RepoInfo, filter: &Vec<String>) -> (deps: Vec<String>)
    ensures
        views(deps@) == planned_deps(repo@, views(filter@)),
{
    let sorted: Vec<MoonModInfo> = sort_by_key(duplicate_manifests(&repo.moon_mods));
    let ghost mods = views(sorted@);
    let ghost f = views(filter@);
    let mut deps: Vec<String> = Vec::new();
    let mut m: usize = 0;
    assert(views(deps@) =~= Seq::<Seq<char>>::empty());
    assert(mods.subrange(0, 0) =~= Seq::<ManifestView>::empty());
    while m < sorted.len()
        invariant
            m <= sorted.len(),
            mods == views(sorted@),
            f == views(filter@),
            views(deps@) == select_unique(all_deps(mods.subrange(0, m as int)), f),
        decreases sorted.len() - m,
    {
        let ghost before = all_deps(mods.subrange(0, m as int));
        let names = &sorted[m].deps;
        let mut d: usize = 0;
        assert(before + views(names@).subrange(0, 0) =~= before);
        while d < names.len()
            invariant
                d <= names.len(),
                f == views(filter@),
                views(deps@) == select_unique(before + views(names@).subrange(0, d as int), f),
            decreases names.len() - d,
        {
            proof {
                let cur = before + views(names@).subrange(0, d as int);
                let next = before + views(names@).subrange(0, d + 1);
                assert(next.drop_last() =~= cur);
                assert(next.last() == names[d as int]@);
            }
            if is_selected(names[d].as_str(), filter) && !has_name(&deps, names[d].as_str()) {
                let ghost old_deps = views(deps@);
                deps.push(names[d].clone());
                assert(views(deps@) =~= old_deps.push(names[d as int]@));
            }
            d = d + 1;
        }
        proof {
            assert(views(names@).subrange(0, d as int) =~= views(names@));
            assert(mods.subrange(0, m + 1).drop_last() =~= mods.subrange(0, m as int));
            assert(mods.subrange(0, m + 1).last().deps == views(names@));
        }
        m = m + 1;
    }
    assert(mods.subrange(0, m as int) =~= mods);
    deps
}

} // verus!
