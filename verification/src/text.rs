//! Character sequences: conversion between strings and character vectors,
//! lowercasing, and placeholder replacement with the semantics of
//! `str::replace`.

use vstd::prelude::*;

verus! {

broadcast use vstd::string::group_string_axioms;

/// The lowercase form of a text, as `str::to_lowercase` gives it (Unicode
/// lowercase mapping).
pub uninterp spec fn lowercase_text(s: Seq<char>) -> Seq<char>;

/// `str::to_lowercase`. Claimed: the result is a function of the text alone;
/// what Unicode maps each character to is left unsaid.
#[verifier::external_body]
pub(crate) fn lowercase(s: &str) -> (res: String)
    ensures
        res@ == lowercase_text(s@),
{
    s.to_lowercase()
}

/// `String::push`. Claimed, as std documents it: the character is appended
/// at the end of the string.
#[verifier::external_body]
fn push_char(s: &mut String, c: char)
    ensures
        final(s)@ == old(s)@.push(c),
{
    s.push(c);
}

/// The characters of `s`, in order.
pub fn chars_of(s: &str) -> (res: Vec<char>)
    ensures
        res@ == s@,
{
    let mut res: Vec<char> = Vec::new();
    for c in it: s.chars()
        invariant
            it.seq() == s@,
            res@ == s@.take(it.index()),
    {
        res.push(c);
    }
    res
}

/// The string made of the characters of `cs`.
pub fn string_of(cs: &Vec<char>) -> (res: String)
    ensures
        res@ == cs@,
{
    let mut res = String::new();
    let n = cs.len();
    let mut i: usize = 0;
    while i < n
        invariant
            n == cs@.len(),
            i <= n,
            res@ == cs@.take(i as int),
        decreases n - i,
    {
        push_char(&mut res, cs[i]);
        assert(cs@.take(i as int).push(cs@[i as int]) =~= cs@.take(i + 1));
        i = i + 1;
    }
    assert(cs@.take(n as int) =~= cs@);
    res
}

/// What `s.replace(pat, rep)` gives: the leftmost occurrences of `pat`,
/// taken left to right without overlap, each stand replaced by `rep`. An empty
/// `pat` occurs before every character and at the end.
pub open spec fn replaced(s: Seq<char>, pat: Seq<char>, rep: Seq<char>) -> Seq<char>
    decreases s.len(),
{
    if pat.len() == 0 {
        if s.len() == 0 {
            rep
        } else {
            rep + seq![s[0]] + replaced(s.drop_first(), pat, rep)
        }
    } else if s.len() < pat.len() {
        s
    } else if s.take(pat.len() as int) == pat {
        rep + replaced(s.skip(pat.len() as int), pat, rep)
    } else {
        seq![s[0]] + replaced(s.drop_first(), pat, rep)
    }
}

/// Whether `pat` stands in `s` at position `i`.
pub open spec fn occurs_at(s: Seq<char>, pat: Seq<char>, i: int) -> bool {
    0 <= i && i + pat.len() <= s.len() && s.subrange(i, i + pat.len()) == pat
}

/// Whether `pat` stands anywhere in `s`.
pub open spec fn occurs_in(s: Seq<char>, pat: Seq<char>) -> bool {
    exists|i: int| occurs_at(s, pat, i)
}

/// Whether `pat` stands in `cs` at position `i` (which must leave room for it).
fn matches_at(cs: &Vec<char>, pat: &Vec<char>, i: usize) -> (res: bool)
    requires
        i + pat@.len() <= cs@.len(),
    ensures
        res == (cs@.subrange(i as int, i + pat@.len()) == pat@),
{
    let n = pat.len();
    let total = cs.len();
    let mut j: usize = 0;
    while j < n
        invariant
            n == pat@.len(),
            total == cs@.len(),
            i + n <= cs@.len(),
            j <= n,
            forall|k: int| 0 <= k < j ==> cs@[i + k] == pat@[k],
        decreases n - j,
    {
        if cs[i + j] != pat[j] {
            assert(cs@.subrange(i as int, i + n)[j as int] != pat@[j as int]);
            return false;
        }
        j = j + 1;
    }
    assert(cs@.subrange(i as int, i + n) =~= pat@);
    true
}

/// Appends the characters of `src` to `dst`.
fn extend_chars(dst: &mut Vec<char>, src: &Vec<char>)
    ensures
        final(dst)@ == old(dst)@ + src@,
{
    let n = src.len();
    let mut i: usize = 0;
    while i < n
        invariant
            n == src@.len(),
            i <= n,
            dst@ == old(dst)@ + src@.take(i as int),
        decreases n - i,
    {
        dst.push(src[i]);
        assert(src@.take(i as int).push(src@[i as int]) =~= src@.take(i + 1));
        i = i + 1;
    }
    assert(src@.take(n as int) =~= src@);
}

/// `replaced` of a string whose first character starts no occurrence.
proof fn lemma_replaced_step(s: Seq<char>, pat: Seq<char>, rep: Seq<char>)
    requires
        pat.len() > 0,
        s.len() > 0,
        !(s.len() >= pat.len() && s.take(pat.len() as int) == pat),
    ensures
        replaced(s, pat, rep) == seq![s[0]] + replaced(s.drop_first(), pat, rep),
{
    if s.len() < pat.len() {
        assert(seq![s[0]] + s.drop_first() =~= s);
    }
}

/// Replaces each occurrence of `pat` in `cs` by `rep`, as `str::replace` does.
pub fn replace_chars(cs: &Vec<char>, pat: &Vec<char>, rep: &Vec<char>) -> (res: Vec<char>)
    ensures
        res@ == replaced(cs@, pat@, rep@),
{
    let n = cs.len();
    let m = pat.len();
    let mut res: Vec<char> = Vec::new();
    let mut i: usize = 0;
    assert(cs@.skip(0) =~= cs@);
    while i < n
        invariant
            n == cs@.len(),
            m == pat@.len(),
            i <= n,
            res@ + replaced(cs@.skip(i as int), pat@, rep@) == replaced(cs@, pat@, rep@),
        decreases n - i,
    {
        let ghost rest = cs@.skip(i as int);
        if m == 0 {
            extend_chars(&mut res, rep);
            res.push(cs[i]);
            assert(rest.drop_first() =~= cs@.skip(i + 1));
            i = i + 1;
        } else if m <= n - i && matches_at(cs, pat, i) {
            assert(rest.take(m as int) =~= cs@.subrange(i as int, i + m));
            assert(rest.skip(m as int) =~= cs@.skip(i + m));
            extend_chars(&mut res, rep);
            i = i + m;
        } else {
            proof {
                if rest.len() >= m {
                    assert(rest.take(m as int) =~= cs@.subrange(i as int, i + m));
                }
                lemma_replaced_step(rest, pat@, rep@);
            }
            assert(rest.drop_first() =~= cs@.skip(i + 1));
            res.push(cs[i]);
            i = i + 1;
        }
    }
    if m == 0 {
        extend_chars(&mut res, rep);
    }
    assert(cs@.skip(n as int) =~= Seq::<char>::empty());
    res
}

/// `s` with each occurrence of `pat` replaced by `rep` (`str::replace`).
pub fn replace_all(s: &str, pat: &str, rep: &str) -> (res: String)
    ensures
        res@ == replaced(s@, pat@, rep@),
{
    let cs = chars_of(s);
    let ps = chars_of(pat);
    let rs = chars_of(rep);
    let out = replace_chars(&cs, &ps, &rs);
    string_of(&out)
}

/// Replacement leaves a string unchanged where the (non-empty) pattern does
/// not occur in it.
pub proof fn lemma_replace_absent(s: Seq<char>, pat: Seq<char>, rep: Seq<char>)
    requires
        pat.len() > 0,
        !occurs_in(s, pat),
    ensures
        replaced(s, pat, rep) == s,
    decreases s.len(),
{
    if s.len() >= pat.len() {
        assert(s.take(pat.len() as int) =~= s.subrange(0, pat.len() as int));
        assert(!occurs_at(s, pat, 0));
        let t = s.drop_first();
        assert forall|i: int| !occurs_at(t, pat, i) by {
            if occurs_at(t, pat, i) {
                assert(t.subrange(i, i + pat.len()) =~= s.subrange(i + 1, i + 1 + pat.len()));
                assert(occurs_at(s, pat, i + 1));
            }
        }
        lemma_replace_absent(t, pat, rep);
        assert(seq![s[0]] + t =~= s);
    }
}

/// Replacing a pattern by itself leaves every string unchanged.
pub proof fn lemma_replace_by_itself(s: Seq<char>, pat: Seq<char>)
    ensures
        replaced(s, pat, pat) == s,
    decreases s.len(),
{
    if pat.len() == 0 {
        if s.len() > 0 {
            lemma_replace_by_itself(s.drop_first(), pat);
            assert(pat + seq![s[0]] + s.drop_first() =~= s);
        }
    } else if s.len() >= pat.len() {
        if s.take(pat.len() as int) == pat {
            lemma_replace_by_itself(s.skip(pat.len() as int), pat);
            assert(s.take(pat.len() as int) + s.skip(pat.len() as int) =~= s);
        } else {
            lemma_replace_by_itself(s.drop_first(), pat);
            assert(seq![s[0]] + s.drop_first() =~= s);
        }
    }
}

/// No occurrence of `pat` in `x + y` starts inside `x` and runs past its end.
pub open spec fn no_occurrence_across(x: Seq<char>, y: Seq<char>, pat: Seq<char>) -> bool {
    forall|i: int| 0 <= i < x.len() && i + pat.len() > x.len() ==> !#[trigger] occurs_at(x + y, pat, i)
}

/// Replacement works piece by piece: where no occurrence of the (non-empty)
/// pattern crosses the joint of two texts, replacing in the joined text gives
/// the two replaced texts joined. In particular every occurrence is replaced,
/// not only the first.
pub proof fn lemma_replace_concat(x: Seq<char>, y: Seq<char>, pat: Seq<char>, rep: Seq<char>)
    requires
        pat.len() > 0,
        no_occurrence_across(x, y, pat),
    ensures
        replaced(x + y, pat, rep) == replaced(x, pat, rep) + replaced(y, pat, rep),
    decreases x.len(),
{
    let s = x + y;
    let m = pat.len() as int;
    if x.len() == 0 {
        assert(s =~= y);
        assert(replaced(x, pat, rep) =~= Seq::<char>::empty());
        assert(replaced(x, pat, rep) + replaced(y, pat, rep) =~= replaced(y, pat, rep));
    } else if s.len() < m {
        assert(replaced(y, pat, rep) == y);
    } else if s.take(m) == pat {
        assert(s.subrange(0, m) =~= s.take(m));
        assert(occurs_at(s, pat, 0));
        assert(m <= x.len());
        assert(x.take(m) =~= s.take(m));
        let x2 = x.skip(m);
        assert(s.skip(m) =~= x2 + y);
        assert forall|i: int| 0 <= i < x2.len() && i + m > x2.len() implies !#[trigger] occurs_at(x2 + y, pat, i) by {
            if occurs_at(x2 + y, pat, i) {
                assert((x2 + y).subrange(i, i + m) =~= s.subrange(i + m, i + m + m));
                assert(occurs_at(s, pat, i + m));
            }
        }
        lemma_replace_concat(x2, y, pat, rep);
        assert(rep + (replaced(x2, pat, rep) + replaced(y, pat, rep)) =~= (rep + replaced(x2, pat, rep)) + replaced(y, pat, rep));
    } else {
        let x2 = x.drop_first();
        assert(s.drop_first() =~= x2 + y);
        assert(s[0] == x[0]);
        if x.len() >= m {
            assert(x.take(m) =~= s.take(m));
        }
        lemma_replaced_step(x, pat, rep);
        assert forall|i: int| 0 <= i < x2.len() && i + m > x2.len() implies !#[trigger] occurs_at(x2 + y, pat, i) by {
            if occurs_at(x2 + y, pat, i) {
                assert((x2 + y).subrange(i, i + m) =~= s.subrange(i + 1, i + 1 + m));
                assert(occurs_at(s, pat, i + 1));
            }
        }
        lemma_replace_concat(x2, y, pat, rep);
        assert(seq![x[0]] + (replaced(x2, pat, rep) + replaced(y, pat, rep)) =~= (seq![x[0]] + replaced(x2, pat, rep)) + replaced(y, pat, rep));
    }
}

/// A text that ends with a character the pattern lacks has no occurrence
/// across its end.
pub proof fn lemma_no_occurrence_across_end(x: Seq<char>, y: Seq<char>, pat: Seq<char>)
    requires
        x.len() > 0,
        !pat.contains(x.last()),
    ensures
        no_occurrence_across(x, y, pat),
{
    assert forall|i: int| 0 <= i < x.len() && i + pat.len() > x.len() implies !#[trigger] occurs_at(x + y, pat, i) by {
        if occurs_at(x + y, pat, i) {
            let k = x.len() - 1 - i;
            assert((x + y).subrange(i, i + pat.len())[k] == x.last());
            assert(pat[k] == x.last());
        }
    }
}

/// A character the pattern lacks stays at the end of a text through replacement.
pub proof fn lemma_replace_keeps_last(x: Seq<char>, pat: Seq<char>, rep: Seq<char>)
    requires
        pat.len() > 0,
        x.len() > 0,
        !pat.contains(x.last()),
    ensures
        replaced(x, pat, rep).len() > 0,
        replaced(x, pat, rep).last() == x.last(),
{
    let c = x.last();
    let a = x.drop_last();
    assert(x =~= a + seq![c]);
    assert forall|i: int| 0 <= i < a.len() && i + pat.len() > a.len() implies !#[trigger] occurs_at(a + seq![c], pat, i) by {
        if occurs_at(a + seq![c], pat, i) {
            let k = a.len() - i;
            assert((a + seq![c]).subrange(i, i + pat.len())[k] == c);
            assert(pat[k] == c);
        }
    }
    lemma_replace_concat(a, seq![c], pat, rep);
    if pat.len() == 1 {
        assert(seq![c].take(1) =~= seq![c]);
        assert(pat[0] != c) by {
            if pat[0] == c {
                assert(pat.contains(c));
            }
        }
        assert(seq![c].take(1) != pat) by {
            assert(seq![c].take(1)[0] != pat[0]);
        }
        lemma_replaced_step(seq![c], pat, rep);
        assert(seq![c].drop_first() =~= Seq::<char>::empty());
        assert(replaced(Seq::<char>::empty(), pat, rep) == Seq::<char>::empty());
        assert(seq![c] + Seq::<char>::empty() =~= seq![c]);
    }
    assert(replaced(seq![c], pat, rep) =~= seq![c]);
    let r = replaced(x, pat, rep);
    assert(r == replaced(a, pat, rep) + seq![c]);
    assert(r.last() == c);
}

} // verus!
