//! Stable sorting of records by a path that each of them carries.

use crate::order::Rel;
use crate::path::{lemma_path_order_total, path_le, path_lt, FsPath, Segment};
use vstd::prelude::*;

verus! {

/// A record that is ordered by a path it carries.
pub trait Keyed: View + Sized {
    /// The path by which a record with the given value is ordered.
    spec fn key_of(v: Self::V) -> Seq<Segment>;

    /// The path by which this record is ordered.
    fn key(&self) -> (k: &FsPath)
        ensures
            k@ == Self::key_of(self@),
    ;
}

/// The key of a record, as a function of its value.
pub open spec fn key_fn<T: Keyed>() -> spec_fn(T::V) -> Seq<Segment> {
    |v: T::V| T::key_of(v)
}

/// The values of the records in `s`.
pub open spec fn views<T: View>(s: Seq<T>) -> Seq<T::V> {
    Seq::new(s.len(), |i: int| s[i]@)
}

/// The keys never descend along `s`.
pub open spec fn ascending<V>(s: Seq<V>, key: spec_fn(V) -> Seq<Segment>) -> bool {
    forall|i: int, j: int|
        0 <= i < j < s.len() ==> path_le(#[trigger] key(s[i]), #[trigger] key(s[j]))
}

/// The keys strictly ascend along `s`, so no key occurs twice.
pub open spec fn strictly_ascending<V>(s: Seq<V>, key: spec_fn(V) -> Seq<Segment>) -> bool {
    forall|i: int, j: int|
        0 <= i < j < s.len() ==> path_lt(#[trigger] key(s[i]), #[trigger] key(s[j]))
}

/// `s` with `x` put behind the last record whose key does not exceed that
/// of `x`.
pub open spec fn ordered_insert<V>(s: Seq<V>, x: V, key: spec_fn(V) -> Seq<Segment>) -> Seq<V>
    decreases s.len(),
{
    if s.len() == 0 {
        seq![x]
    } else if path_lt(key(x), key(s.last())) {
        ordered_insert(s.drop_last(), x, key).push(s.last())
    } else {
        s.push(x)
    }
}

/// The records of `s` in ascending order of their keys; records with equal
/// keys keep their relative order.
pub open spec fn sorted_by_key<V>(s: Seq<V>, key: spec_fn(V) -> Seq<Segment>) -> Seq<V>
    decreases s.len(),
{
    if s.len() == 0 {
        s
    } else {
        ordered_insert(sorted_by_key(s.drop_last(), key), s.last(), key)
    }
}

/// The position that `ordered_insert` gives to `x`.
pub open spec fn insert_position<V>(s: Seq<V>, x: V, key: spec_fn(V) -> Seq<Segment>) -> int
    decreases s.len(),
{
    if s.len() > 0 && path_lt(key(x), key(s.last())) {
        insert_position(s.drop_last(), x, key)
    } else {
        s.len() as int
    }
}

/// `ordered_insert` puts `x` at `insert_position` and moves nothing else.
pub proof fn lemma_ordered_insert_is_insert<V>(s: Seq<V>, x: V, key: spec_fn(V) -> Seq<Segment>)
    ensures
        0 <= insert_position(s, x, key) <= s.len(),
        ordered_insert(s, x, key) == s.insert(insert_position(s, x, key), x),
    decreases s.len(),
{
    if s.len() > 0 && path_lt(key(x), key(s.last())) {
        lemma_ordered_insert_is_insert(s.drop_last(), x, key);
        let p = insert_position(s.drop_last(), x, key);
        assert(s.drop_last().insert(p, x).push(s.last()) =~= s.insert(p, x));
    } else {
        assert(s.push(x) =~= s.insert(s.len() as int, x));
        if s.len() == 0 {
            assert(seq![x] =~= s.push(x));
        }
    }
}

/// Inserting into an ascending sequence keeps it ascending and adds exactly
/// the new record.
pub proof fn lemma_ordered_insert<V>(s: Seq<V>, x: V, key: spec_fn(V) -> Seq<Segment>)
    requires
        ascending(s, key),
    ensures
        ascending(ordered_insert(s, x, key), key),
        ordered_insert(s, x, key).len() == s.len() + 1,
        ordered_insert(s, x, key).to_multiset() == s.to_multiset().insert(x),
    decreases s.len(),
{
    broadcast use vstd::seq_lib::group_to_multiset_ensures;

    lemma_path_order_total();
    lemma_ordered_insert_is_insert(s, x, key);
    let p = insert_position(s, x, key);
    let r = ordered_insert(s, x, key);
    lemma_insert_position(s, x, key);
    assert forall|i: int, j: int| 0 <= i < j < r.len() implies path_le(
        #[trigger] key(r[i]),
        #[trigger] key(r[j]),
    ) by {
        if i < p && j > p {
            assert(r[i] == s[i] && r[j] == s[j - 1]);
        } else if i < p && j < p {
            assert(r[i] == s[i] && r[j] == s[j]);
        } else if i > p {
            assert(r[i] == s[i - 1] && r[j] == s[j - 1]);
        } else if i == p {
            assert(r[j] == s[j - 1]);
        } else {
            assert(r[i] == s[i]);
        }
    }
    if s.len() > 0 && path_lt(key(x), key(s.last())) {
        lemma_ordered_insert(s.drop_last(), x, key);
        assert(s.drop_last().push(s.last()) =~= s);
        assert(r.to_multiset() =~= s.to_multiset().insert(x));
    } else if s.len() == 0 {
        assert(seq![x] =~= s.push(x));
    }
}

/// Every record before `insert_position` has a key that does not exceed
/// that of `x`, and every record from it on has a greater one.
pub proof fn lemma_insert_position<V>(s: Seq<V>, x: V, key: spec_fn(V) -> Seq<Segment>)
    requires
        ascending(s, key),
    ensures
        forall|i: int|
            0 <= i < insert_position(s, x, key) ==> path_le(#[trigger] key(s[i]), key(x)),
        forall|i: int|
            insert_position(s, x, key) <= i < s.len() ==> path_lt(key(x), #[trigger] key(s[i])),
    decreases s.len(),
{
    lemma_path_order_total();
    lemma_ordered_insert_is_insert(s, x, key);
    if s.len() > 0 && path_lt(key(x), key(s.last())) {
        lemma_insert_position(s.drop_last(), x, key);
        let p = insert_position(s.drop_last(), x, key);
        assert forall|i: int| p <= i < s.len() implies path_lt(key(x), #[trigger] key(s[i])) by {
            if i < s.len() - 1 {
                assert(s.drop_last()[i] == s[i]);
            }
        }
        assert forall|i: int| 0 <= i < p implies path_le(#[trigger] key(s[i]), key(x)) by {
            assert(s.drop_last()[i] == s[i]);
        }
    } else if s.len() > 0 {
        assert forall|i: int| 0 <= i < s.len() implies path_le(#[trigger] key(s[i]), key(x)) by {
            if i < s.len() - 1 {
                assert(path_le(key(s[i]), key(s[s.len() - 1])));
            }
        }
    }
}

/// Sorting yields an ascending sequence with exactly the records of the
/// input.
pub proof fn lemma_sorted_by_key<V>(s: Seq<V>, key: spec_fn(V) -> Seq<Segment>)
    ensures
        ascending(sorted_by_key(s, key), key),
        sorted_by_key(s, key).len() == s.len(),
        sorted_by_key(s, key).to_multiset() == s.to_multiset(),
    decreases s.len(),
{
    broadcast use vstd::seq_lib::group_to_multiset_ensures;

    if s.len() > 0 {
        lemma_sorted_by_key(s.drop_last(), key);
        lemma_ordered_insert(sorted_by_key(s.drop_last(), key), s.last(), key);
        assert(s.drop_last().push(s.last()) =~= s);
    }
}

/// Puts `x` into `v` behind the last record whose key does not exceed its
/// own.
pub fn insert_ordered<T: Keyed>(v: &mut Vec<T>, x: T)
    ensures
        views(final(v)@) == ordered_insert(views(old(v)@), x@, key_fn::<T>()),
        final(v)@ == old(v)@.insert(insert_position(views(old(v)@), x@, key_fn::<T>()), x),
{
    let ghost s = views(v@);
    let ghost key = key_fn::<T>();
    let mut i: usize = v.len();
    let mut placed: bool = false;
    assert(s.subrange(0, i as int) =~= s);
    while i > 0 && !placed
        invariant
            *v == *old(v),
            s == views(v@),
            key == key_fn::<T>(),
            i <= v.len(),
            insert_position(s, x@, key) == insert_position(s.subrange(0, i as int), x@, key),
            placed ==> i > 0 && !path_lt(key(x@), key(s[i - 1])),
        decreases i, (if placed { 0int } else { 1int }),
    {
        assert(s.subrange(0, i as int).last() == v@[i - 1]@);
        assert(s.subrange(0, i as int).drop_last() =~= s.subrange(0, i - 1));
        match x.key().rel(v[i - 1].key()) {
            Rel::Less => {
                i = i - 1;
            },
            _ => {
                placed = true;
            },
        }
    }
    proof {
        if i > 0 {
            assert(s.subrange(0, i as int).last() == s[i - 1]);
        }
        assert(insert_position(s, x@, key) == i);
        lemma_ordered_insert_is_insert(s, x@, key);
    }
    v.insert(i, x);
    assert(views(v@) =~= s.insert(i as int, x@));
}

/// Sorts `v` by key; records with equal keys keep their relative order.
pub fn sort_by_key<T: Keyed>(v: Vec<T>) -> (out: Vec<T>)
    ensures
        views(out@) == sorted_by_key(views(v@), key_fn::<T>()),
{
    let ghost s = views(v@);
    let mut out: Vec<T> = Vec::new();
    assert(views(out@) =~= sorted_by_key(s.subrange(0, 0), key_fn::<T>()));
    for x in it: v
        invariant
            s == views(it.seq()),
            it.seq() == v@,
            views(out@) == sorted_by_key(s.subrange(0, it.index() as int), key_fn::<T>()),
    {
        proof {
            let k = it.index() as int;
            assert(s.subrange(0, k + 1).drop_last() =~= s.subrange(0, k));
            assert(s.subrange(0, k + 1).last() == x@);
        }
        insert_ordered(&mut out, x);
    }
    assert(s.subrange(0, s.len() as int) =~= s);
    out
}

} // verus!
