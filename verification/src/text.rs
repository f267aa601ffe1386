//! Names as sequences of characters: conversion, the dot-prefix and substring
//! tests, the order by code point, and decimal rendering of numbers.

use crate::order::{
    agree_before, lemma_lex_skip_prefix, lemma_lex_strict_total, lex_lt, strict_total, Rel,
};
use vstd::prelude::*;

verus! {

/// The characters of `s`, in order.
pub fn chars_of(s: &str) -> (v: Vec<char>)
    ensures
        v@ == s@,
{
    let mut v: Vec<char> = Vec::new();
    for c in it: s.chars()
        invariant
            it.seq() == s@,
            v@ == it.seq().subrange(0, it.index() as int),
    {
        v.push(c);
        assert(v@ == it.seq().subrange(0, it.index() + 1));
    }
    assert(v@ == s@.subrange(0, s@.len() as int));
    v
}

/// The name begins with a dot.
pub open spec fn starts_with_dot(name: Seq<char>) -> bool {
    name.len() > 0 && name[0] == '.'
}

/// Tells whether `name` begins with a dot.
pub fn has_dot_prefix(name: &str) -> (b: bool)
    ensures
        b == starts_with_dot(name@),
{
    let n: usize = name.unicode_len();
    n > 0 && name.get_char(0) == '.'
}

/// `needle` stands in `hay` at position `i`.
pub open spec fn occurs_at(needle: Seq<char>, hay: Seq<char>, i: int) -> bool {
    &&& 0 <= i
    &&& i + needle.len() <= hay.len()
    &&& hay.subrange(i, i + needle.len()) == needle
}

/// `needle` stands somewhere in `hay` as a contiguous run of characters.
/// The empty sequence is a substring of every sequence.
pub open spec fn is_substring(needle: Seq<char>, hay: Seq<char>) -> bool {
    exists|i: int| occurs_at(needle, hay, i)
}

/// Tells whether `needle` stands in `hay` at position `i`.
fn matches_at(hay: &Vec<char>, needle: &Vec<char>, i: usize) -> (b: bool)
    requires
        i + needle.len() <= hay.len(),
    ensures
        b == occurs_at(needle@, hay@, i as int),
{
    let m: usize = needle.len();
    let mut j: usize = 0;
    while j < m
        invariant
            m == needle.len(),
            i + m <= hay.len(),
            j <= m,
            forall|k: int| 0 <= k < j ==> hay[i + k] == needle[k],
        decreases m - j,
    {
        if hay[i + j] != needle[j] {
            assert(hay@.subrange(i as int, i + m)[j as int] == hay[i + j]);
            return false;
        }
        j = j + 1;
    }
    assert(hay@.subrange(i as int, i + m) =~= needle@);
    true
}

/// Case-sensitive substring test: is `needle` a substring of `hay`?
pub fn contains(hay: &str, needle: &str) -> (b: bool)
    ensures
        b == is_substring(needle@, hay@),
{
    let h: Vec<char> = chars_of(hay);
    let n: Vec<char> = chars_of(needle);
    if n.len() > h.len() {
        return false;
    }
    let last: usize = h.len() - n.len();
    let mut i: usize = 0;
    while i < last
        invariant
            h@ == hay@,
            n@ == needle@,
            n.len() <= h.len(),
            last == h.len() - n.len(),
            i <= last,
            forall|k: int| 0 <= k < i ==> !occurs_at(needle@, hay@, k),
        decreases last - i,
    {
        if matches_at(&h, &n, i) {
            return true;
        }
        i = i + 1;
    }
    matches_at(&h, &n, last)
}

/// The order of two characters by code point.
pub open spec fn char_lt() -> spec_fn(char, char) -> bool {
    |x: char, y: char| (x as int) < (y as int)
}

/// `a` comes strictly before `b`: lexicographically by code point, a proper
/// prefix first. This is the order of strings by their UTF-8 bytes.
pub open spec fn text_lt(a: Seq<char>, b: Seq<char>) -> bool {
    lex_lt(a, b, char_lt())
}

/// The order of names as a relation.
pub open spec fn text_order() -> spec_fn(Seq<char>, Seq<char>) -> bool {
    |a: Seq<char>, b: Seq<char>| text_lt(a, b)
}

/// The order of names is a strict total order.
pub proof fn lemma_text_order_total()
    ensures
        strict_total(char_lt()),
        strict_total(text_order()),
        forall|a: Seq<char>| !#[trigger] text_lt(a, a),
        forall|a: Seq<char>, b: Seq<char>| a != b ==> #[trigger] text_lt(a, b) || text_lt(b, a),
        forall|a: Seq<char>, b: Seq<char>, c: Seq<char>| #[trigger]
            text_lt(a, b) && #[trigger] text_lt(b, c) ==> text_lt(a, c),
{
    assert(strict_total(char_lt()));
    lemma_lex_strict_total(char_lt());
}

/// Three-way comparison of two names.
pub fn text_rel(a: &str, b: &str) -> (r: Rel)
    ensures
        r is Less <==> text_lt(a@, b@),
        r is Same <==> a@ == b@,
        r is Greater <==> text_lt(b@, a@),
{
    let x: Vec<char> = chars_of(a);
    let y: Vec<char> = chars_of(b);
    let mut i: usize = 0;
    proof {
        lemma_text_order_total();
    }
    while i < x.len() && i < y.len()
        invariant
            x@ == a@,
            y@ == b@,
            agree_before(x@, y@, i as int),
            agree_before(y@, x@, i as int),
        decreases x.len() - i,
    {
        let cx: char = x[i];
        let cy: char = y[i];
        if cx != cy {
            proof {
                lemma_lex_skip_prefix(x@, y@, i as int, char_lt());
                lemma_lex_skip_prefix(y@, x@, i as int, char_lt());
            }
            if cx < cy {
                return Rel::Less;
            } else {
                return Rel::Greater;
            }
        }
        i = i + 1;
    }
    proof {
        lemma_lex_skip_prefix(x@, y@, i as int, char_lt());
        lemma_lex_skip_prefix(y@, x@, i as int, char_lt());
    }
    if i < y.len() {
        Rel::Less
    } else if i < x.len() {
        Rel::Greater
    } else {
        assert(x@ =~= y@);
        Rel::Same
    }
}

/// Tells whether two names are the same.
pub fn same_text(a: &str, b: &str) -> (r: bool)
    ensures
        r == (a@ == b@),
{
    match text_rel(a, b) {
        Rel::Same => true,
        _ => false,
    }
}

/// The character of a decimal digit.
pub open spec fn digit(d: nat) -> char {
    if d == 0 {
        '0'
    } else if d == 1 {
        '1'
    } else if d == 2 {
        '2'
    } else if d == 3 {
        '3'
    } else if d == 4 {
        '4'
    } else if d == 5 {
        '5'
    } else if d == 6 {
        '6'
    } else if d == 7 {
        '7'
    } else if d == 8 {
        '8'
    } else {
        '9'
    }
}

/// The decimal numeral of `n`, without leading zeros.
pub open spec fn decimal(n: nat) -> Seq<char>
    decreases n,
{
    if n < 10 {
        seq![digit(n)]
    } else {
        decimal(n / 10).push(digit(n % 10))
    }
}

/// The decimal numeral of an integer, with a minus sign where it is negative.
pub open spec fn signed_decimal(n: int) -> Seq<char> {
    if n < 0 {
        seq!['-'] + decimal((-n) as nat)
    } else {
        decimal(n as nat)
    }
}

fn digit_str(d: u64) -> (s: &'static str)
    requires
        d < 10,
    ensures
        s@ == seq![digit(d as nat)],
{
    proof {
        reveal_strlit("0");
        reveal_strlit("1");
        reveal_strlit("2");
        reveal_strlit("3");
        reveal_strlit("4");
        reveal_strlit("5");
        reveal_strlit("6");
        reveal_strlit("7");
        reveal_strlit("8");
        reveal_strlit("9");
    }
    let s: &'static str = if d == 0 {
        "0"
    } else if d == 1 {
        "1"
    } else if d == 2 {
        "2"
    } else if d == 3 {
        "3"
    } else if d == 4 {
        "4"
    } else if d == 5 {
        "5"
    } else if d == 6 {
        "6"
    } else if d == 7 {
        "7"
    } else if d == 8 {
        "8"
    } else {
        "9"
    };
    assert(s@ =~= seq![digit(d as nat)]);
    s
}

/// Renders `n` in decimal.
pub fn decimal_string(n: u64) -> (s: String)
    ensures
        s@ == decimal(n as nat),
    decreases n,
{
    if n < 10 {
        String::from_str(digit_str(n))
    } else {
        let mut s: String = decimal_string(n / 10);
        s.append(digit_str(n % 10));
        assert(s@ =~= decimal(n as nat));
        s
    }
}

/// Renders `n` in decimal, with a minus sign where it is negative.
pub fn signed_decimal_string(n: i32) -> (s: String)
    ensures
        s@ == signed_decimal(n as int),
{
    if n < 0 {
        let m: u64 = (-(n as i64)) as u64;
        let mut s: String = String::from_str("-");
        let digits: String = decimal_string(m);
        s.append(digits.as_str());
        proof {
            reveal_strlit("-");
            assert(s@ =~= signed_decimal(n as int));
        }
        s
    } else {
        decimal_string(n as u64)
    }
}

/// `a` followed by `b`.
pub fn joined(a: &str, b: &str) -> (s: String)
    ensures
        s@ == a@ + b@,
{
    let mut s: String = String::from_str(a);
    s.append(b);
    s
}

} // verus!
