//! The dependency names of a manifest: the keys of its `deps` object as a
//! sorted list without repeats.

use crate::order::Rel;
use crate::sorting::views;
use crate::text::{lemma_text_order_total, text_lt, text_rel};
use vstd::prelude::*;

verus! {

/// The file name of a module manifest.
pub open spec fn manifest_name() -> Seq<char> {
    "moon.mod.json"@
}

/// The names strictly ascend, so none occurs twice.
pub open spec fn strictly_sorted(s: Seq<Seq<char>>) -> bool {
    forall|i: int, j: int| 0 <= i < j < s.len() ==> text_lt(#[trigger] s[i], #[trigger] s[j])
}

/// The strictly sorted list `s` with `x` put in its place, unless it is
/// there already.
pub open spec fn insert_name(s: Seq<Seq<char>>, x: Seq<char>) -> Seq<Seq<char>>
    decreases s.len(),
{
    if s.len() == 0 {
        seq![x]
    } else if text_lt(s.last(), x) {
        s.push(x)
    } else if s.last() == x {
        s
    } else {
        insert_name(s.drop_last(), x).push(s.last())
    }
}

/// The names of `keys` in ascending order, each once.
pub open spec fn sorted_unique(keys: Seq<Seq<char>>) -> Seq<Seq<char>>
    decreases keys.len(),
{
    if keys.len() == 0 {
        Seq::empty()
    } else {
        insert_name(sorted_unique(keys.drop_last()), keys.last())
    }
}

/// Putting a name into a strictly sorted list keeps it strictly sorted and
/// adds exactly that name.
pub proof fn lemma_insert_name(s: Seq<Seq<char>>, x: Seq<char>)
    requires
        strictly_sorted(s),
    ensures
        strictly_sorted(insert_name(s, x)),
        forall|n: Seq<char>| #[trigger] insert_name(s, x).contains(n) <==> s.contains(n) || n == x,
        insert_name(s, x).len() > 0,
        text_lt(s.last(), x) || s.len() == 0 ==> insert_name(s, x).last() == x,
        s.len() > 0 && !text_lt(s.last(), x) ==> insert_name(s, x).last() == s.last(),
    decreases s.len(),
{
    lemma_text_order_total();
    let r = insert_name(s, x);
    if s.len() == 0 {
        assert(r[0] == x);
        assert forall|n: Seq<char>| #[trigger] r.contains(n) <==> s.contains(n) || n == x by {
            if r.contains(n) {
                let i = choose|i: int| 0 <= i < r.len() && r[i] == n;
                assert(n == x);
            }
        }
    } else if text_lt(s.last(), x) {
        assert forall|i: int, j: int| 0 <= i < j < r.len() implies text_lt(
            #[trigger] r[i],
            #[trigger] r[j],
        ) by {
            if j == s.len() && i < s.len() - 1 {
                assert(text_lt(s[i], s[s.len() - 1]));
            }
        }
        assert forall|n: Seq<char>| #[trigger] r.contains(n) <==> s.contains(n) || n == x by {
            if r.contains(n) {
                let i = choose|i: int| 0 <= i < r.len() && r[i] == n;
                if i < s.len() {
                    assert(s[i] == n);
                }
            }
            if s.contains(n) {
                let i = choose|i: int| 0 <= i < s.len() && s[i] == n;
                assert(r[i] == n);
            }
            if n == x {
                assert(r[s.len() as int] == n);
            }
        }
    } else if s.last() == x {
        assert(s[s.len() - 1] == x);
    } else {
        let d = s.drop_last();
        let rd = insert_name(d, x);
        assert forall|i: int, j: int| 0 <= i < j < d.len() implies text_lt(
            #[trigger] d[i],
            #[trigger] d[j],
        ) by {
            assert(d[i] == s[i] && d[j] == s[j]);
        }
        lemma_insert_name(d, x);
        assert(text_lt(x, s.last()));
        assert forall|i: int, j: int| 0 <= i < j < r.len() implies text_lt(
            #[trigger] r[i],
            #[trigger] r[j],
        ) by {
            if j == rd.len() {
                assert(rd.contains(rd[i]));
                if d.contains(rd[i]) {
                    let k = choose|k: int| 0 <= k < d.len() && d[k] == rd[i];
                    assert(text_lt(s[k], s[s.len() - 1]));
                }
            }
        }
        assert forall|n: Seq<char>| #[trigger] r.contains(n) <==> s.contains(n) || n == x by {
            if r.contains(n) {
                let i = choose|i: int| 0 <= i < r.len() && r[i] == n;
                if i < rd.len() {
                    assert(rd[i] == n);
                    assert(rd.contains(n));
                    if d.contains(n) {
                        let k = choose|k: int| 0 <= k < d.len() && d[k] == n;
                        assert(s[k] == n);
                    }
                } else {
                    assert(s[s.len() - 1] == n);
                }
            }
            if s.contains(n) {
                let k = choose|k: int| 0 <= k < s.len() && s[k] == n;
                if k < d.len() {
                    assert(d[k] == n);
                    assert(rd.contains(n));
                    let i = choose|i: int| 0 <= i < rd.len() && rd[i] == n;
                    assert(r[i] == n);
                } else {
                    assert(r[rd.len() as int] == n);
                }
            }
            if n == x {
                assert(rd.contains(n));
                let i = choose|i: int| 0 <= i < rd.len() && rd[i] == n;
                assert(r[i] == n);
            }
        }
    }
}

/// `sorted_unique` is strictly sorted and holds exactly the names of its
/// input.
pub proof fn lemma_sorted_unique(keys: Seq<Seq<char>>)
    ensures
        strictly_sorted(sorted_unique(keys)),
        forall|n: Seq<char>| #[trigger] sorted_unique(keys).contains(n) <==> keys.contains(n),
    decreases keys.len(),
{
    if keys.len() > 0 {
        let d = keys.drop_last();
        lemma_sorted_unique(d);
        lemma_insert_name(sorted_unique(d), keys.last());
        assert forall|n: Seq<char>| #[trigger]
            sorted_unique(keys).contains(n) <==> keys.contains(n) by {
            if keys.contains(n) {
                let k = choose|k: int| 0 <= k < keys.len() && keys[k] == n;
                if k < d.len() {
                    assert(d[k] == n);
                }
            }
            if d.contains(n) {
                let k = choose|k: int| 0 <= k < d.len() && d[k] == n;
                assert(keys[k] == n);
            }
            if n == keys.last() {
                assert(keys[keys.len() - 1] == n);
            }
        }
    }
}

/// Puts `x` into the strictly sorted list `v`, unless it is there already.
fn insert_sorted_name(v: &mut Vec<String>, x: String)
    ensures
        views(final(v)@) == insert_name(views(old(v)@), x@),
{
    let ghost s = views(v@);
    let mut i: usize = v.len();
    let mut settled: bool = false;
    let mut present: bool = false;
    assert(s.subrange(0, i as int) =~= s);
    while i > 0 && !settled
        invariant
            *v == *old(v),
            s == views(v@),
            i <= v.len(),
            insert_name(s, x@) == insert_name(s.subrange(0, i as int), x@) + s.subrange(
                i as int,
                s.len() as int,
            ),
            settled ==> i > 0 && (if present {
                s[i - 1] == x@
            } else {
                text_lt(s[i - 1], x@)
            }),
            present ==> settled,
        decreases i, (if settled { 0int } else { 1int }),
    {
        let ghost head = s.subrange(0, i as int);
        assert(head.last() == s[i - 1]);
        assert(head.drop_last() =~= s.subrange(0, i - 1));
        match text_rel(v[i - 1].as_str(), x.as_str()) {
            Rel::Less => {
                settled = true;
            },
            Rel::Same => {
                settled = true;
                present = true;
            },
            Rel::Greater => {
                proof {
                    lemma_text_order_total();
                    assert(insert_name(head, x@) == insert_name(head.drop_last(), x@).push(
                        head.last(),
                    ));
                    assert(insert_name(head.drop_last(), x@).push(head.last()) + s.subrange(
                        i as int,
                        s.len() as int,
                    ) =~= insert_name(head.drop_last(), x@) + s.subrange(i - 1, s.len() as int));
                }
                i = i - 1;
            },
        }
    }
    proof {
        let head = s.subrange(0, i as int);
        if i > 0 {
            assert(head.last() == s[i - 1]);
        }
        lemma_text_order_total();
    }
    if !present {
        let ghost head = s.subrange(0, i as int);
        assert(insert_name(head, x@) =~= head.push(x@));
        v.insert(i, x);
        assert(views(v@) =~= head.push(x@) + s.subrange(i as int, s.len() as int));
    } else {
        let ghost head = s.subrange(0, i as int);
        assert(insert_name(head, x@) == head);
        assert(head + s.subrange(i as int, s.len() as int) =~= s);
    }
}

/// Turns the keys of a manifest's `deps` object into its list of
/// dependency names: in ascending order, each once. A manifest without
/// `deps` has no keys and so no dependencies.
pub fn parse_moon_mod(keys: Vec<String>) -> (deps: Vec<String>)
    ensures
        views(deps@) == sorted_unique(views(keys@)),
        strictly_sorted(views(deps@)),
        forall|n: Seq<char>| #[trigger] views(deps@).contains(n) <==> views(keys@).contains(n),
{
    let ghost ks = views(keys@);
    let mut deps: Vec<String> = Vec::new();
    assert(views(deps@) =~= sorted_unique(ks.subrange(0, 0)));
    for x in it: keys
        invariant
            ks == views(it.seq()),
            it.seq() == keys@,
            views(deps@) == sorted_unique(ks.subrange(0, it.index() as int)),
    {
        proof {
            let k = it.index() as int;
            assert(ks.subrange(0, k + 1).drop_last() =~= ks.subrange(0, k));
            assert(ks.subrange(0, k + 1).last() == x@);
        }
        insert_sorted_name(&mut deps, x);
    }
    proof {
        assert(ks.subrange(0, ks.len() as int) =~= ks);
        lemma_sorted_unique(ks);
    }
    deps
}

} // verus!
