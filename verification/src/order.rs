//! Lexicographic order on sequences, lifted from a strict total order on
//! their elements.

use vstd::prelude::*;

verus! {

/// The outcome of a three-way comparison.
#[derive(Clone, Copy, Debug, PartialEq, Eq, Structural)]
pub enum Rel {
    Less,
    Same,
    Greater,
}

/// `lt` is irreflexive, transitive, and relates any two distinct values one
/// way or the other.
pub open spec fn strict_total<T>(lt: spec_fn(T, T) -> bool) -> bool {
    &&& forall|x: T| !#[trigger] lt(x, x)
    &&& forall|x: T, y: T| x != y ==> #[trigger] lt(x, y) || lt(y, x)
    &&& forall|x: T, y: T, z: T| #[trigger] lt(x, y) && #[trigger] lt(y, z) ==> lt(x, z)
}

/// Lexicographic comparison of `a` and `b` from position `i` on, given that
/// they agree before `i`: the first position where they differ decides, and a
/// proper prefix comes first.
pub open spec fn lex_lt_from<T>(a: Seq<T>, b: Seq<T>, i: int, lt: spec_fn(T, T) -> bool) -> bool
    decreases a.len() - i,
{
    if i < 0 || i >= b.len() {
        false
    } else if i >= a.len() {
        true
    } else if a[i] == b[i] {
        lex_lt_from(a, b, i + 1, lt)
    } else {
        lt(a[i], b[i])
    }
}

/// `a` comes strictly before `b` in the lexicographic order built on `lt`.
pub open spec fn lex_lt<T>(a: Seq<T>, b: Seq<T>, lt: spec_fn(T, T) -> bool) -> bool {
    lex_lt_from(a, b, 0, lt)
}

/// `a` and `b` hold the same elements before position `i`.
pub open spec fn agree_before<T>(a: Seq<T>, b: Seq<T>, i: int) -> bool {
    &&& 0 <= i <= a.len()
    &&& i <= b.len()
    &&& forall|j: int| 0 <= j < i ==> a[j] == b[j]
}

/// A common prefix does not influence the comparison.
pub proof fn lemma_lex_skip_prefix<T>(a: Seq<T>, b: Seq<T>, i: int, lt: spec_fn(T, T) -> bool)
    requires
        agree_before(a, b, i),
    ensures
        lex_lt(a, b, lt) == lex_lt_from(a, b, i, lt),
    decreases i,
{
    if i > 0 {
        lemma_lex_skip_prefix(a, b, i - 1, lt);
    }
}

proof fn lemma_lex_irreflexive_from<T>(a: Seq<T>, i: int, lt: spec_fn(T, T) -> bool)
    requires
        0 <= i,
    ensures
        !lex_lt_from(a, a, i, lt),
    decreases a.len() - i,
{
    if i < a.len() {
        lemma_lex_irreflexive_from(a, i + 1, lt);
    }
}

proof fn lemma_lex_connected_from<T>(a: Seq<T>, b: Seq<T>, i: int, lt: spec_fn(T, T) -> bool)
    requires
        strict_total(lt),
        agree_before(a, b, i),
        a != b,
    ensures
        lex_lt_from(a, b, i, lt) || lex_lt_from(b, a, i, lt),
    decreases a.len() - i,
{
    if i < a.len() && i < b.len() {
        if a[i] == b[i] {
            lemma_lex_connected_from(a, b, i + 1, lt);
        }
    } else if i == a.len() && i == b.len() {
        assert(a =~= b);
    }
}

proof fn lemma_lex_transitive_from<T>(
    a: Seq<T>,
    b: Seq<T>,
    c: Seq<T>,
    i: int,
    lt: spec_fn(T, T) -> bool,
)
    requires
        strict_total(lt),
        0 <= i,
        lex_lt_from(a, b, i, lt),
        lex_lt_from(b, c, i, lt),
    ensures
        lex_lt_from(a, c, i, lt),
    decreases a.len() - i,
{
    if i < a.len() {
        if a[i] == b[i] && b[i] == c[i] {
            lemma_lex_transitive_from(a, b, c, i + 1, lt);
        } else if a[i] != b[i] && b[i] != c[i] {
            assert(lt(a[i], b[i]) && lt(b[i], c[i]));
        }
    }
}

/// The lexicographic order built on a strict total order is itself a strict
/// total order.
pub proof fn lemma_lex_strict_total<T>(lt: spec_fn(T, T) -> bool)
    requires
        strict_total(lt),
    ensures
        forall|a: Seq<T>| !#[trigger] lex_lt(a, a, lt),
        forall|a: Seq<T>, b: Seq<T>| a != b ==> #[trigger] lex_lt(a, b, lt) || lex_lt(b, a, lt),
        forall|a: Seq<T>, b: Seq<T>, c: Seq<T>| #[trigger]
            lex_lt(a, b, lt) && #[trigger] lex_lt(b, c, lt) ==> lex_lt(a, c, lt),
{
    assert forall|a: Seq<T>| !#[trigger] lex_lt(a, a, lt) by {
        lemma_lex_irreflexive_from(a, 0, lt);
    }
    assert forall|a: Seq<T>, b: Seq<T>| a != b implies #[trigger] lex_lt(a, b, lt) || lex_lt(
        b,
        a,
        lt,
    ) by {
        lemma_lex_connected_from(a, b, 0, lt);
    }
    assert forall|a: Seq<T>, b: Seq<T>, c: Seq<T>| #[trigger]
        lex_lt(a, b, lt) && #[trigger] lex_lt(b, c, lt) implies lex_lt(a, c, lt) by {
        lemma_lex_transitive_from(a, b, c, 0, lt);
    }
}

} // verus!
