//! Character-sequence utilities shared by the transducer and the editor:
//! conversions between `str`/`String` and `Vec<char>`, prefix tests,
//! first-occurrence searches, splitting and substring replacement.

use vstd::prelude::*;
use vstd::string::*;

verus! {

/// Appending a character to a `String`.
pub assume_specification[ String::push ](s: &mut String, ch: char)
    ensures
        final(s)@ == old(s)@.push(ch),
;

/// True when `p` is a prefix of `s`.
pub open spec fn starts_with(s: Seq<char>, p: Seq<char>) -> bool {
    p.len() <= s.len() && s.take(p.len() as int) == p
}

/// The characters of `s`, one per vector element.
pub fn chars_of(s: &str) -> (v: Vec<char>)
    ensures
        v@ == s@,
{
    let n = s.unicode_len();
    let mut v: Vec<char> = Vec::new();
    let mut i: usize = 0;
    while i < n
        invariant
            n == s@.len(),
            i <= n,
            v@ == s@.take(i as int),
        decreases n - i,
    {
        v.push(s.get_char(i));
        assert(v@ =~= s@.take(i + 1));
        i += 1;
    }
    assert(v@ =~= s@);
    v
}

/// The characters of `v`, collected into a `String`.
pub fn string_of(v: &Vec<char>) -> (s: String)
    ensures
        s@ == v@,
{
    let mut s = String::new();
    let mut i: usize = 0;
    while i < v.len()
        invariant
            i <= v@.len(),
            s@ == v@.take(i as int),
        decreases v@.len() - i,
    {
        s.push(v[i]);
        assert(s@ =~= v@.take(i + 1));
        i += 1;
    }
    assert(s@ =~= v@);
    s
}

/// Predicate satisfied exactly by the character `d`.
pub open spec fn eq_pred(d: char) -> spec_fn(char) -> bool {
    |c: char| c == d
}

/// The first index at or after `from` whose character satisfies `pred`,
/// or `s.len()` when none does.
pub open spec fn find_at(s: Seq<char>, from: int, pred: spec_fn(char) -> bool) -> int
    decreases s.len() - from,
{
    if from < 0 || from >= s.len() {
        s.len() as int
    } else if pred(s[from]) {
        from
    } else {
        find_at(s, from + 1, pred)
    }
}

/// `find_at` returns the first satisfying index in `[from, s.len())`,
/// or `s.len()` when there is none.
pub proof fn lemma_find_at(s: Seq<char>, from: int, pred: spec_fn(char) -> bool)
    requires
        0 <= from <= s.len(),
    ensures
        from <= find_at(s, from, pred) <= s.len(),
        find_at(s, from, pred) < s.len() ==> pred(s[find_at(s, from, pred)]),
        forall|k: int| from <= k < find_at(s, from, pred) ==> !pred(s[k]),
    decreases s.len() - from,
{
    if from < s.len() && !pred(s[from]) {
        lemma_find_at(s, from + 1, pred);
    }
}

/// The first index at or after `from` holding the character `d`, or `s.len()`.
pub fn find_char_at(s: &Vec<char>, from: usize, d: char) -> (r: usize)
    requires
        from <= s@.len(),
    ensures
        r == find_at(s@, from as int, eq_pred(d)),
{
    let mut i: usize = from;
    while i < s.len()
        invariant
            from <= i <= s@.len(),
            find_at(s@, from as int, eq_pred(d)) == find_at(s@, i as int, eq_pred(d)),
        decreases s@.len() - i,
    {
        if s[i] == d {
            assert(find_at(s@, i as int, eq_pred(d)) == i);
            return i;
        }
        assert(find_at(s@, i as int, eq_pred(d)) == find_at(s@, i + 1, eq_pred(d)));
        i += 1;
    }
    assert(find_at(s@, i as int, eq_pred(d)) == s@.len());
    i
}

/// True when `p` occurs in `s` starting at index `i`.
pub open spec fn match_at(s: Seq<char>, p: Seq<char>, i: int) -> bool {
    0 <= i && i + p.len() <= s.len() && s.subrange(i, i + p.len() as int) == p
}

/// Whether `p` occurs in `s` starting at index `i`.
pub fn matches_at(s: &Vec<char>, p: &Vec<char>, i: usize) -> (b: bool)
    requires
        i <= s@.len(),
    ensures
        b == match_at(s@, p@, i as int),
{
    if p.len() > s.len() - i {
        return false;
    }
    let n = s.len();
    let mut k: usize = 0;
    while k < p.len()
        invariant
            k <= p@.len(),
            n == s@.len(),
            i + p@.len() <= s@.len(),
            forall|j: int| 0 <= j < k ==> s@[i + j] == p@[j],
        decreases p@.len() - k,
    {
        if s[i + k] != p[k] {
            assert(s@.subrange(i as int, i + p@.len() as int)[k as int] != p@[k as int]);
            return false;
        }
        k += 1;
    }
    assert(s@.subrange(i as int, i + p@.len() as int) =~= p@);
    true
}

/// The first index at or after `from` where `p` occurs in `s`,
/// or `s.len()` when it never does.
pub open spec fn find_sub_at(s: Seq<char>, p: Seq<char>, from: int) -> int
    decreases s.len() - from,
{
    if from < 0 || from >= s.len() {
        s.len() as int
    } else if match_at(s, p, from) {
        from
    } else {
        find_sub_at(s, p, from + 1)
    }
}

/// The first occurrence of `p` in `s` at or after `from`, or `s.len()`.
pub fn find_sub(s: &Vec<char>, p: &Vec<char>, from: usize) -> (r: usize)
    requires
        from <= s@.len(),
    ensures
        r == find_sub_at(s@, p@, from as int),
{
    let mut i: usize = from;
    while i < s.len()
        invariant
            from <= i <= s@.len(),
            find_sub_at(s@, p@, from as int) == find_sub_at(s@, p@, i as int),
        decreases s@.len() - i,
    {
        if matches_at(s, p, i) {
            assert(find_sub_at(s@, p@, i as int) == i);
            return i;
        }
        assert(find_sub_at(s@, p@, i as int) == find_sub_at(s@, p@, i + 1));
        i += 1;
    }
    assert(find_sub_at(s@, p@, i as int) == s@.len());
    i
}

/// `find_sub_at` returns `s.len()` or a position where `p` occurs.
pub proof fn lemma_find_sub_at(s: Seq<char>, p: Seq<char>, from: int)
    requires
        0 <= from <= s.len(),
    ensures
        from <= find_sub_at(s, p, from) <= s.len(),
        find_sub_at(s, p, from) < s.len() ==> match_at(s, p, find_sub_at(s, p, from)),
    decreases s.len() - from,
{
    if from < s.len() && !match_at(s, p, from) {
        lemma_find_sub_at(s, p, from + 1);
    }
}

/// The characters of `s` from index `a` up to (excluding) index `b`.
pub fn copy_range(s: &Vec<char>, a: usize, b: usize) -> (out: Vec<char>)
    requires
        a <= b <= s@.len(),
    ensures
        out@ == s@.subrange(a as int, b as int),
{
    let mut out: Vec<char> = Vec::new();
    let mut i: usize = a;
    assert(out@ =~= s@.subrange(a as int, a as int));
    while i < b
        invariant
            a <= i <= b <= s@.len(),
            out@ == s@.subrange(a as int, i as int),
        decreases b - i,
    {
        out.push(s[i]);
        assert(out@ =~= s@.subrange(a as int, i + 1));
        i += 1;
    }
    out
}

/// Appends every character of `src` to `buf`.
pub fn append_all(buf: &mut Vec<char>, src: &Vec<char>)
    ensures
        final(buf)@ == old(buf)@ + src@,
{
    let ghost pre = buf@;
    let mut i: usize = 0;
    assert(buf@ =~= pre + src@.take(0));
    while i < src.len()
        invariant
            i <= src@.len(),
            buf@ == pre + src@.take(i as int),
        decreases src@.len() - i,
    {
        buf.push(src[i]);
        assert(buf@ =~= pre + src@.take(i + 1));
        i += 1;
    }
    assert(buf@ =~= pre + src@);
}

/// `s` with every non-overlapping occurrence of `p` replaced by `r`,
/// scanning left to right.
pub open spec fn replace_all(s: Seq<char>, p: Seq<char>, r: Seq<char>) -> Seq<char>
    decreases s.len(),
{
    if s.len() == 0 {
        Seq::empty()
    } else if p.len() > 0 && starts_with(s, p) {
        r + replace_all(s.skip(p.len() as int), p, r)
    } else {
        seq![s[0]] + replace_all(s.skip(1), p, r)
    }
}

/// `s` with every occurrence of `p` replaced by `r`.
pub fn replace_chars(s: &Vec<char>, p: &Vec<char>, r: &Vec<char>) -> (out: Vec<char>)
    requires
        p@.len() > 0,
    ensures
        out@ == replace_all(s@, p@, r@),
{
    let mut out: Vec<char> = Vec::new();
    let mut i: usize = 0;
    proof {
        assert(s@.skip(0) =~= s@);
        assert(Seq::<char>::empty() + replace_all(s@, p@, r@) =~= replace_all(s@, p@, r@));
    }
    while i < s.len()
        invariant
            i <= s@.len(),
            p@.len() > 0,
            replace_all(s@, p@, r@) == out@ + replace_all(s@.skip(i as int), p@, r@),
        decreases s@.len() - i,
    {
        let ghost pre = out@;
        if matches_at(s, p, i) {
            assert(s@.skip(i as int).take(p@.len() as int) =~= s@.subrange(
                i as int,
                i + p@.len() as int,
            ));
            assert(starts_with(s@.skip(i as int), p@));
            let mut k: usize = 0;
            while k < r.len()
                invariant
                    k <= r@.len(),
                    out@ == pre + r@.take(k as int),
                decreases r@.len() - k,
            {
                out.push(r[k]);
                assert(out@ =~= pre + r@.take(k + 1));
                k += 1;
            }
            assert(out@ =~= pre + r@);
            assert(s@.skip(i as int).skip(p@.len() as int) =~= s@.skip(i + p@.len() as int));
            i += p.len();
            assert(out@ + replace_all(s@.skip(i as int), p@, r@) =~= pre + replace_all(
                s@.skip(i - p@.len() as int),
                p@,
                r@,
            ));
        } else {
            if p.len() <= s.len() - i {
                assert(s@.skip(i as int).take(p@.len() as int) =~= s@.subrange(
                    i as int,
                    i + p@.len() as int,
                ));
            }
            assert(!starts_with(s@.skip(i as int), p@));
            out.push(s[i]);
            assert(s@.skip(i as int).skip(1) =~= s@.skip(i + 1));
            assert(s@.skip(i as int)[0] == s@[i as int]);
            i += 1;
            assert(out@ + replace_all(s@.skip(i as int), p@, r@) =~= pre + replace_all(
                s@.skip(i - 1),
                p@,
                r@,
            ));
        }
    }
    assert(s@.skip(i as int) =~= Seq::<char>::empty());
    assert(out@ =~= out@ + replace_all(s@.skip(i as int), p@, r@));
    out
}

/// `s` divided at every occurrence of `d`; the delimiter is dropped, and
/// the result always holds one piece more than `s` holds delimiters.
pub open spec fn split_char(s: Seq<char>, d: char) -> Seq<Seq<char>>
    decreases s.len(),
{
    if s.len() == 0 {
        seq![Seq::<char>::empty()]
    } else if s[0] == d {
        seq![Seq::<char>::empty()] + split_char(s.skip(1), d)
    } else {
        let rest = split_char(s.skip(1), d);
        seq![seq![s[0]] + rest[0]] + rest.skip(1)
    }
}

/// A split never yields an empty list of pieces.
pub proof fn lemma_split_char_nonempty(s: Seq<char>, d: char)
    ensures
        split_char(s, d).len() >= 1,
    decreases s.len(),
{
    if s.len() > 0 {
        lemma_split_char_nonempty(s.skip(1), d);
    }
}

/// `s` divided at every occurrence of `d`.
pub fn split_on_char(s: &Vec<char>, d: char) -> (toks: Vec<Vec<char>>)
    ensures
        toks.deep_view() == split_char(s@, d),
{
    let mut toks: Vec<Vec<char>> = Vec::new();
    let mut cur: Vec<char> = Vec::new();
    let mut i: usize = 0;
    proof {
        lemma_split_char_nonempty(s@, d);
        assert(s@.skip(0) =~= s@);
        assert(toks.deep_view() + prepend_first(cur@, split_char(s@, d)) =~~= split_char(s@, d));
    }
    while i < s.len()
        invariant
            i <= s@.len(),
            split_char(s@, d) == toks.deep_view() + prepend_first(
                cur@,
                split_char(s@.skip(i as int), d),
            ),
        decreases s@.len() - i,
    {
        let ghost rest = split_char(s@.skip(i + 1), d);
        let ghost here = split_char(s@.skip(i as int), d);
        proof {
            lemma_split_char_nonempty(s@.skip(i + 1), d);
            assert(s@.skip(i as int).skip(1) =~= s@.skip(i + 1));
            assert(s@.skip(i as int)[0] == s@[i as int]);
        }
        if s[i] == d {
            let ghost tv = toks.deep_view();
            let ghost cv = cur@;
            proof {
                assert(here =~~= seq![Seq::<char>::empty()] + rest);
                assert(prepend_first(cv, here) =~~= seq![cv] + rest);
                assert(prepend_first(Seq::<char>::empty(), rest) =~~= rest);
            }
            toks.push(cur);
            cur = Vec::new();
            proof {
                assert(toks.deep_view() =~~= tv.push(cv));
                assert(tv + (seq![cv] + rest) =~~= tv.push(cv) + rest);
            }
        } else {
            let ghost cv = cur@;
            let c = s[i];
            cur.push(c);
            proof {
                assert(here =~~= seq![seq![c] + rest[0]] + rest.skip(1));
                assert(prepend_first(cv, here) =~~= seq![cv + (seq![c] + rest[0])] + rest.skip(1));
                assert(cv + (seq![c] + rest[0]) =~= cv.push(c) + rest[0]);
                assert(prepend_first(cv, here) =~~= prepend_first(cv.push(c), rest));
            }
        }
        i += 1;
    }
    let ghost cv = cur@;
    let ghost tv = toks.deep_view();
    proof {
        assert(s@.skip(i as int) =~= Seq::<char>::empty());
        assert(split_char(s@.skip(i as int), d) =~~= seq![Seq::<char>::empty()]);
        assert(prepend_first(cv, split_char(s@.skip(i as int), d)) =~~= seq![cv]);
    }
    toks.push(cur);
    proof {
        assert(toks.deep_view() =~~= tv.push(cv));
        assert(tv + seq![cv] =~~= tv.push(cv));
        assert(toks.deep_view() =~~= split_char(s@, d));
    }
    toks
}

/// The pieces `ss` with `x` prepended onto the first piece.
pub open spec fn prepend_first(x: Seq<char>, ss: Seq<Seq<char>>) -> Seq<Seq<char>> {
    seq![x + ss[0]] + ss.skip(1)
}

/// Whether `p` is a prefix of `s`, decided character by character.
pub fn has_prefix(s: &Vec<char>, p: &Vec<char>) -> (b: bool)
    ensures
        b == starts_with(s@, p@),
{
    if p.len() > s.len() {
        return false;
    }
    let mut i: usize = 0;
    while i < p.len()
        invariant
            i <= p@.len() <= s@.len(),
            forall|k: int| 0 <= k < i ==> s@[k] == p@[k],
        decreases p@.len() - i,
    {
        if s[i] != p[i] {
            assert(s@.take(p@.len() as int)[i as int] != p@[i as int]);
            return false;
        }
        i += 1;
    }
    assert(s@.take(p@.len() as int) =~= p@);
    true
}

} // verus!
