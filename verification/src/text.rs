//! Character sequences: conversion between strings and vectors of characters,
//! search for a pattern, and replacement of every occurrence of a pattern.

use vstd::prelude::*;
use vstd::slice::slice_subrange;

verus! {

/// The characters of `s`, in order.
pub fn chars_of(s: &str) -> (r: Vec<char>)
    ensures
        r@ == s@,
{
    let mut out: Vec<char> = Vec::new();
    for c in it: s.chars()
        invariant
            it.seq() == s@,
            out@ == s@.subrange(0, it.index() as int),
    {
        out.push(c);
        assert(out@ =~= s@.subrange(0, it.index() + 1));
    }
    assert(out@ =~= s@);
    out
}

/// Calls `String::push`, which appends one character to the end of a string:
/// after the call `s` holds what it held before, and then `c`.
#[verifier::external_body]
fn push_char(s: &mut String, c: char)
    ensures
        final(s)@ == old(s)@.push(c),
{
    s.push(c);
}

/// The string made of the characters of `v`, in order.
pub fn string_of(v: &[char]) -> (r: String)
    ensures
        r@ == v@,
{
    let mut out = String::new();
    let mut i: usize = 0;
    while i < v.len()
        invariant
            i <= v.len(),
            out@ == v@.subrange(0, i as int),
        decreases v.len() - i,
    {
        push_char(&mut out, v[i]);
        i += 1;
        assert(out@ =~= v@.subrange(0, i as int));
    }
    assert(out@ =~= v@);
    out
}

/// `pat` stands in `s` at position `at`.
pub open spec fn occurs_at(s: Seq<char>, pat: Seq<char>, at: int) -> bool {
    &&& 0 <= at
    &&& at + pat.len() <= s.len()
    &&& s.subrange(at, at + pat.len()) == pat
}

/// `pat` stands in `s` at position `at`, and nowhere before.
pub open spec fn is_first_occurrence(s: Seq<char>, pat: Seq<char>, at: int) -> bool {
    &&& occurs_at(s, pat, at)
    &&& forall|j: int| 0 <= j < at ==> !occurs_at(s, pat, j)
}

/// The leftmost position at which `pat` stands in `s`, if it stands anywhere.
pub open spec fn first_occurrence(s: Seq<char>, pat: Seq<char>) -> Option<int> {
    if exists|at: int| is_first_occurrence(s, pat, at) {
        Some(choose|at: int| is_first_occurrence(s, pat, at))
    } else {
        None
    }
}

/// The leftmost position at or after `from` at which `pat` stands in `s`.
/// A `from` beyond the end of `s` finds nothing.
pub open spec fn first_occurrence_from(s: Seq<char>, pat: Seq<char>, from: int) -> Option<int> {
    if 0 <= from <= s.len() {
        match first_occurrence(s.skip(from), pat) {
            Some(p) => Some(from + p),
            None => None,
        }
    } else {
        None
    }
}

/// There is at most one first occurrence, and `first_occurrence` names it.
pub proof fn lemma_first_occurrence_is(s: Seq<char>, pat: Seq<char>, at: int)
    requires
        is_first_occurrence(s, pat, at),
    ensures
        first_occurrence(s, pat) == Some(at),
{
    let found = choose|p: int| is_first_occurrence(s, pat, p);
    assert(is_first_occurrence(s, pat, found));
    if found < at {
        assert(!occurs_at(s, pat, found));
    }
    if at < found {
        assert(!occurs_at(s, pat, at));
    }
}

/// What `first_occurrence` finds is a first occurrence.
pub proof fn lemma_first_occurrence_some(s: Seq<char>, pat: Seq<char>)
    requires
        first_occurrence(s, pat) is Some,
    ensures
        is_first_occurrence(s, pat, first_occurrence(s, pat)->0),
{
}

/// Where `pat` stands nowhere in `s`, nothing is found, and the other way round.
pub proof fn lemma_first_occurrence_none(s: Seq<char>, pat: Seq<char>)
    ensures
        first_occurrence(s, pat) is None <==> forall|j: int| !occurs_at(s, pat, j),
{
    if first_occurrence(s, pat) is None {
        assert forall|j: int| !occurs_at(s, pat, j) by {
            if occurs_at(s, pat, j) {
                lemma_least_occurrence(s, pat, j);
            }
        }
    } else {
        lemma_first_occurrence_some(s, pat);
    }
}

/// Where `pat` stands at `at`, there is a first occurrence at or before `at`.
proof fn lemma_least_occurrence(s: Seq<char>, pat: Seq<char>, at: int)
    requires
        occurs_at(s, pat, at),
    ensures
        exists|p: int| 0 <= p <= at && is_first_occurrence(s, pat, p),
    decreases at,
{
    if exists|j: int| 0 <= j < at && occurs_at(s, pat, j) {
        let j = choose|j: int| 0 <= j < at && occurs_at(s, pat, j);
        lemma_least_occurrence(s, pat, j);
    } else {
        assert(is_first_occurrence(s, pat, at));
    }
}

/// An occurrence in what follows position `from` is an occurrence in the whole.
pub proof fn lemma_occurs_in_suffix(s: Seq<char>, pat: Seq<char>, from: int, at: int)
    requires
        0 <= from <= s.len(),
    ensures
        occurs_at(s.skip(from), pat, at) <==> (0 <= at && occurs_at(s, pat, from + at)),
{
    if 0 <= at && from + at + pat.len() <= s.len() {
        assert(s.skip(from).subrange(at, at + pat.len()) =~= s.subrange(
            from + at,
            from + at + pat.len(),
        ));
    }
}

/// What `first_occurrence_from` finds is an occurrence at or after `from`, and
/// the first such.
pub proof fn lemma_first_occurrence_from(s: Seq<char>, pat: Seq<char>, from: int)
    requires
        first_occurrence_from(s, pat, from) is Some,
    ensures
        0 <= from <= first_occurrence_from(s, pat, from)->0,
        occurs_at(s, pat, first_occurrence_from(s, pat, from)->0),
        forall|j: int|
            from <= j < first_occurrence_from(s, pat, from)->0 ==> !occurs_at(s, pat, j),
{
    let rest = s.skip(from);
    let p = first_occurrence(rest, pat)->0;
    lemma_first_occurrence_some(rest, pat);
    lemma_occurs_in_suffix(s, pat, from, p);
    assert forall|j: int| from <= j < from + p implies !occurs_at(s, pat, j) by {
        lemma_occurs_in_suffix(s, pat, from, j - from);
    }
}

/// The first place at which a character stands is its first occurrence.
pub proof fn lemma_first_char(s: Seq<char>, c: char, at: int)
    requires
        0 <= at < s.len(),
        s[at] == c,
        forall|j: int| 0 <= j < at ==> s[j] != c,
    ensures
        first_occurrence(s, seq![c]) == Some(at),
{
    let pat = seq![c];
    assert(s.subrange(at, at + 1) =~= pat);
    assert forall|j: int| 0 <= j < at implies !occurs_at(s, pat, j) by {
        if occurs_at(s, pat, j) {
            assert(s.subrange(j, j + 1)[0] == pat[0]);
        }
    }
    lemma_first_occurrence_is(s, pat, at);
}

/// Whether `pat` stands in `text` at position `at`.
pub fn matches_at(text: &[char], at: usize, pat: &[char]) -> (r: bool)
    ensures
        r == occurs_at(text@, pat@, at as int),
{
    let n = text.len();
    let m = pat.len();
    if at > n || m > n - at {
        return false;
    }
    let mut k: usize = 0;
    while k < m
        invariant
            n == text.len(),
            m == pat.len(),
            at + m <= n,
            k <= m,
            forall|j: int| 0 <= j < k ==> text@[at + j] == pat@[j],
        decreases m - k,
    {
        if text[at + k] != pat[k] {
            proof {
                let piece = text@.subrange(at as int, at + m);
                assert(piece[k as int] == text@[at + k]);
            }
            return false;
        }
        k += 1;
    }
    assert(text@.subrange(at as int, at + m) =~= pat@);
    true
}

/// The leftmost position at or after `from` at which `pat` stands in `text`.
pub fn find(text: &[char], from: usize, pat: &[char]) -> (r: Option<usize>)
    ensures
        match r {
            Some(p) => first_occurrence_from(text@, pat@, from as int) == Some(p as int),
            None => first_occurrence_from(text@, pat@, from as int) is None,
        },
        r is Some ==> from <= r->0 && r->0 + pat@.len() <= text@.len(),
{
    let n = text.len();
    let m = pat.len();
    if from > n {
        return None;
    }
    let ghost rest = text@.skip(from as int);
    if m > n - from {
        proof {
            lemma_first_occurrence_none(rest, pat@);
        }
        return None;
    }
    let last = n - m;
    let mut i: usize = from;
    loop
        invariant
            n == text.len(),
            m == pat.len(),
            last == n - m,
            from <= i <= last,
            rest == text@.skip(from as int),
            forall|j: int| 0 <= j < i - from ==> !occurs_at(rest, pat@, j),
        decreases last - i,
    {
        proof {
            lemma_occurs_in_suffix(text@, pat@, from as int, i - from);
        }
        if matches_at(text, i, pat) {
            proof {
                lemma_first_occurrence_is(rest, pat@, i - from);
            }
            return Some(i);
        }
        if i == last {
            proof {
                lemma_first_occurrence_none(rest, pat@);
            }
            return None;
        }
        i += 1;
    }
}

/// The leftmost position at or after `from` at which the character `c` stands
/// in `text`.
pub fn find_char(text: &[char], from: usize, c: char) -> (r: Option<usize>)
    ensures
        match r {
            Some(p) => first_occurrence_from(text@, seq![c], from as int) == Some(p as int),
            None => first_occurrence_from(text@, seq![c], from as int) is None,
        },
        r is Some ==> from <= r->0 < text@.len() && text@[r->0 as int] == c,
{
    let mut pat: Vec<char> = Vec::new();
    pat.push(c);
    assert(pat@ =~= seq![c]);
    let r = find(text, from, pat.as_slice());
    proof {
        if r is Some {
            let p = r->0 as int;
            lemma_first_occurrence_from(text@, seq![c], from as int);
            assert(text@.subrange(p, p + 1)[0] == text@[p]);
        }
    }
    r
}

/// `s` with every occurrence of `pat` replaced by `with`: occurrences are taken
/// from the left and do not overlap, and what was put in is not searched again.
/// An empty `pat` stands before every character and at the end.
pub open spec fn replaced(s: Seq<char>, pat: Seq<char>, with: Seq<char>) -> Seq<char>
    decreases s.len(),
{
    if pat.len() == 0 {
        if s.len() == 0 {
            with
        } else {
            with.push(s[0]) + replaced(s.skip(1), pat, with)
        }
    } else {
        match first_occurrence(s, pat) {
            Some(p) => s.take(p) + with + replaced(s.skip(p + pat.len()), pat, with),
            None => s,
        }
    }
}

/// Replacing a pattern that does not occur changes nothing.
pub proof fn lemma_replaced_absent(s: Seq<char>, pat: Seq<char>, with: Seq<char>)
    requires
        pat.len() > 0,
        forall|j: int| !occurs_at(s, pat, j),
    ensures
        replaced(s, pat, with) == s,
{
    lemma_first_occurrence_none(s, pat);
}

/// Replacing a pattern in a text that is the pattern itself gives the value.
pub proof fn lemma_replaced_whole(pat: Seq<char>, with: Seq<char>)
    requires
        pat.len() > 0,
    ensures
        replaced(pat, pat, with) == with,
{
    assert(pat.subrange(0, pat.len() as int) =~= pat);
    lemma_first_occurrence_is(pat, pat, 0);
    let rest = pat.skip(0 + pat.len() as int);
    assert(rest.len() == 0);
    lemma_first_occurrence_none(rest, pat);
    assert(replaced(rest, pat, with) == rest);
    assert(pat.take(0) + with + rest =~= with);
}

/// Appends the characters of `src` to `out`.
pub fn append(out: &mut Vec<char>, src: &[char])
    ensures
        final(out)@ == old(out)@ + src@,
{
    out.extend_from_slice(src);
    assert(out@ =~= old(out)@ + src@);
}

/// `text` with every occurrence of `pat` replaced by `with`.
pub fn replace(text: &[char], pat: &[char], with: &[char]) -> (r: Vec<char>)
    ensures
        r@ == replaced(text@, pat@, with@),
{
    let n = text.len();
    let m = pat.len();
    let mut out: Vec<char> = Vec::new();
    let mut cursor: usize = 0;
    assert(text@.skip(0) =~= text@);
    if m == 0 {
        while cursor < n
            invariant
                n == text.len(),
                pat@.len() == 0,
                cursor <= n,
                out@ + replaced(text@.skip(cursor as int), pat@, with@) == replaced(
                    text@,
                    pat@,
                    with@,
                ),
            decreases n - cursor,
        {
            let ghost before = out@;
            let ghost rest = text@.skip(cursor as int);
            append(&mut out, with);
            out.push(text[cursor]);
            cursor += 1;
            proof {
                assert(rest.skip(1) =~= text@.skip(cursor as int));
                assert(out@ + replaced(rest.skip(1), pat@, with@) =~= before + replaced(
                    rest,
                    pat@,
                    with@,
                ));
            }
        }
        let ghost before = out@;
        append(&mut out, with);
        proof {
            assert(text@.skip(cursor as int).len() == 0);
            assert(out@ =~= before + replaced(text@.skip(cursor as int), pat@, with@));
        }
        return out;
    }
    loop
        invariant
            n == text.len(),
            m == pat.len(),
            m > 0,
            cursor <= n,
            out@ + replaced(text@.skip(cursor as int), pat@, with@) == replaced(
                text@,
                pat@,
                with@,
            ),
        decreases n - cursor,
    {
        let ghost before = out@;
        let ghost rest = text@.skip(cursor as int);
        match find(text, cursor, pat) {
            Some(p) => {
                proof {
                    lemma_first_occurrence_some(rest, pat@);
                }
                append(&mut out, slice_subrange(text, cursor, p));
                append(&mut out, with);
                proof {
                    assert(rest.take(p - cursor) =~= text@.subrange(cursor as int, p as int));
                    assert(rest.skip(p - cursor + m) =~= text@.skip(p + m));
                    assert(out@ + replaced(text@.skip(p + m), pat@, with@) =~= before + replaced(
                        rest,
                        pat@,
                        with@,
                    ));
                }
                cursor = p + m;
            },
            None => {
                append(&mut out, slice_subrange(text, cursor, n));
                proof {
                    assert(rest =~= text@.subrange(cursor as int, n as int));
                }
                return out;
            },
        }
    }
}

} // verus!
