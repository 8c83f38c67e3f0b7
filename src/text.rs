//! Character-level helpers over text held as `Vec<char>`: splitting on a
//! separator, splitting into lines, and substring search.

use vstd::prelude::*;

verus! {

/// The pieces of `s` between occurrences of `sep`, as `str::split` gives them:
/// one more piece than there are separators, empty pieces kept.
pub open spec fn split_on(s: Seq<char>, sep: char) -> Seq<Seq<char>>
    decreases s.len(),
{
    if s.len() == 0 {
        seq![Seq::<char>::empty()]
    } else {
        let init = split_on(s.drop_last(), sep);
        if s.last() == sep {
            init.push(Seq::<char>::empty())
        } else {
            init.update(init.len() - 1, init.last().push(s.last()))
        }
    }
}

/// `split_on` never yields an empty list of pieces.
pub proof fn lemma_split_on_nonempty(s: Seq<char>, sep: char)
    ensures
        split_on(s, sep).len() >= 1,
    decreases s.len(),
{
    if s.len() > 0 {
        lemma_split_on_nonempty(s.drop_last(), sep);
    }
}

/// Drops one carriage return at the end of a line.
pub open spec fn strip_cr(l: Seq<char>) -> Seq<char> {
    if l.len() > 0 && l.last() == '\r' {
        l.drop_last()
    } else {
        l
    }
}

/// The lines of `t`, as `str::lines` gives them: split at `\n`, a `\r` before a
/// `\n` removed, and no line after a final `\n`.
pub open spec fn lines_of(t: Seq<char>) -> Seq<Seq<char>> {
    let p = split_on(t, '\n');
    let n = p.len() - 1;
    let ended = Seq::new(n as nat, |k: int| strip_cr(p[k]));
    if p[n].len() == 0 {
        ended
    } else {
        ended.push(p[n])
    }
}

/// `s` spells the word whose lower and upper case forms are `lo` and `up`,
/// each letter in either case.
pub open spec fn matches_word(s: Seq<char>, lo: Seq<char>, up: Seq<char>) -> bool {
    s.len() == lo.len() && s.len() == up.len() && forall|i: int|
        0 <= i < s.len() ==> #[trigger] s[i] == lo[i] || s[i] == up[i]
}

/// The pieces of `t` that the spans `sp` delimit.
pub open spec fn pieces(t: Seq<char>, sp: Seq<(usize, usize)>) -> Seq<Seq<char>> {
    Seq::new(sp.len(), |k: int| t.subrange(sp[k].0 as int, sp[k].1 as int))
}

/// Every span of `sp` lies within `lo..hi`.
pub open spec fn spans_within(sp: Seq<(usize, usize)>, lo: int, hi: int) -> bool {
    forall|k: int| 0 <= k < sp.len() ==> lo <= #[trigger] sp[k].0 <= sp[k].1 <= hi
}

/// The index of the first `c` in `s`, or the length of `s` where there is none.
pub open spec fn index_of(s: Seq<char>, c: char) -> int
    decreases s.len(),
{
    if s.len() == 0 {
        0
    } else if s[0] == c {
        0
    } else {
        1 + index_of(s.drop_first(), c)
    }
}

/// `index_of` is determined by where `c` first stands.
pub proof fn lemma_index_of_at(s: Seq<char>, c: char, i: int)
    requires
        0 <= i <= s.len(),
        i < s.len() ==> s[i] == c,
        forall|j: int| 0 <= j < i ==> s[j] != c,
    ensures
        index_of(s, c) == i,
    decreases s.len(),
{
    if s.len() > 0 && s[0] != c {
        assert forall|j: int| 0 <= j < i - 1 implies s.drop_first()[j] != c by {
            assert(s.drop_first()[j] == s[j + 1]);
        }
        lemma_index_of_at(s.drop_first(), c, i - 1);
    }
}

/// `needle` occurs in `hay` starting at `i`.
pub open spec fn occurs_at(hay: Seq<char>, needle: Seq<char>, i: int) -> bool {
    0 <= i && i + needle.len() <= hay.len() && hay.subrange(i, i + needle.len()) == needle
}

/// `needle` occurs somewhere in `hay`, as `str::contains` tests it.
pub open spec fn contains(hay: Seq<char>, needle: Seq<char>) -> bool {
    exists|i: int| occurs_at(hay, needle, i)
}

/// The characters of `s`, in order.
pub fn chars_of(s: &str) -> (r: Vec<char>)
    ensures
        r@ == s@,
{
    let mut r: Vec<char> = Vec::new();
    for c in it: s.chars()
        invariant
            r@ == it.seq().take(it.index() as int),
            it.seq() == s@,
    {
        r.push(c);
    }
    r
}


/// Spans of the pieces of `t[lo..hi]` between occurrences of `sep`.
pub fn split_spans(t: &Vec<char>, lo: usize, hi: usize, sep: char) -> (r: Vec<(usize, usize)>)
    requires
        lo <= hi <= t@.len(),
    ensures
        pieces(t@, r@) == split_on(t@.subrange(lo as int, hi as int), sep),
        spans_within(r@, lo as int, hi as int),
{
    let mut r: Vec<(usize, usize)> = Vec::new();
    let mut start: usize = lo;
    let mut i: usize = lo;
    assert(t@.subrange(lo as int, lo as int) =~= Seq::<char>::empty());
    assert(pieces(t@, r@).push(t@.subrange(lo as int, lo as int)) =~= seq![Seq::<char>::empty()]);
    while i < hi
        invariant
            lo <= start <= i <= hi <= t@.len(),
            pieces(t@, r@).push(t@.subrange(start as int, i as int)) == split_on(
                t@.subrange(lo as int, i as int),
                sep,
            ),
            spans_within(r@, lo as int, i as int),
        decreases hi - i,
    {
        let ghost old_r = r@;
        let ghost s = t@.subrange(lo as int, i as int + 1);
        assert(s.drop_last() == t@.subrange(lo as int, i as int));
        let ghost init = split_on(s.drop_last(), sep);
        if t[i] == sep {
            r.push((start, i));
            start = i + 1;
            assert(pieces(t@, r@) == pieces(t@, old_r).push(t@.subrange(r@.last().0 as int, i as int)));
            assert(t@.subrange(start as int, i as int + 1) =~= Seq::<char>::empty());
        } else {
            assert(t@.subrange(start as int, i as int + 1) =~= t@.subrange(start as int, i as int).push(t@[i as int]));
            assert(pieces(t@, r@).push(t@.subrange(start as int, i as int + 1)) =~= init.update(
                init.len() - 1, init.last().push(s.last())));
        }
        i = i + 1;
    }
    r.push((start, hi));
    assert(t@.subrange(lo as int, i as int) == t@.subrange(lo as int, hi as int));
    assert(pieces(t@, r@) =~= pieces(t@, r@.drop_last()).push(t@.subrange(start as int, hi as int)));
    r
}


/// Spans of the lines of `t`.
pub fn line_spans(t: &Vec<char>) -> (r: Vec<(usize, usize)>)
    ensures
        pieces(t@, r@) == lines_of(t@),
        spans_within(r@, 0, t@.len() as int),
{
    let p = split_spans(t, 0, t.len(), '\n');
    let ghost whole = split_on(t@, '\n');
    assert(t@.subrange(0, t@.len() as int) == t@);
    proof {
        lemma_split_on_nonempty(t@, '\n');
    }
    let n: usize = p.len() - 1;
    let ghost ended = Seq::new(n as nat, |k: int| strip_cr(whole[k]));
    let mut r: Vec<(usize, usize)> = Vec::new();
    for k in 0..n
        invariant
            n == p@.len() - 1,
            pieces(t@, p@) == whole,
            spans_within(p@, 0, t@.len() as int),
            ended == Seq::new(n as nat, |k: int| strip_cr(whole[k])),
            pieces(t@, r@) == ended.take(k as int),
            spans_within(r@, 0, t@.len() as int),
    {
        let (a, b) = p[k];
        let ghost w = whole[k as int];
        assert(w == t@.subrange(a as int, b as int));
        let ghost old_r = r@;
        if a < b && t[b - 1] == '\r' {
            r.push((a, b - 1));
            assert(t@.subrange(a as int, b - 1) =~= w.drop_last());
        } else {
            r.push((a, b));
        }
        assert(pieces(t@, r@) =~= pieces(t@, old_r).push(strip_cr(w)));
        assert(ended.take(k + 1) =~= ended.take(k as int).push(strip_cr(w)));
    }
    assert(ended.take(n as int) =~= ended);
    let (a, b) = p[n];
    if a < b {
        let ghost old_r = r@;
        r.push((a, b));
        assert(pieces(t@, r@) =~= pieces(t@, old_r).push(whole[n as int]));
    }
    r
}

/// Whether `needle[c..d]` occurs in `hay[a..b]`.
pub fn contains_span(hay: &Vec<char>, a: usize, b: usize, needle: &Vec<char>, c: usize, d: usize) -> (r: bool)
    requires
        a <= b <= hay@.len(),
        c <= d <= needle@.len(),
    ensures
        r == contains(hay@.subrange(a as int, b as int), needle@.subrange(c as int, d as int)),
{
    let ghost h = hay@.subrange(a as int, b as int);
    let ghost n = needle@.subrange(c as int, d as int);
    let m: usize = d - c;
    if m > b - a {
        assert forall|i: int| !occurs_at(h, n, i) by {}
        return false;
    }
    let mut i: usize = a;
    while i <= b - m
        invariant
            a <= i <= b - m + 1,
            m == d - c,
            m <= b - a,
            b <= hay@.len(),
            d <= needle@.len(),
            h == hay@.subrange(a as int, b as int),
            n == needle@.subrange(c as int, d as int),
            forall|j: int| 0 <= j < i - a ==> !occurs_at(h, n, j),
        decreases b - i,
    {
        let mut j: usize = 0;
        let mut same = true;
        assert(hay@.subrange(i as int, i as int) =~= needle@.subrange(c as int, c as int));
        while j < m
            invariant
                j <= m,
                a <= i,
                i + m <= b <= hay@.len(),
                m == d - c,
                d <= needle@.len(),
                same <==> hay@.subrange(i as int, i + j) == needle@.subrange(c as int, c + j),
            decreases m - j,
        {
            let ghost hs = hay@.subrange(i as int, i + j + 1);
            let ghost ns = needle@.subrange(c as int, c + j + 1);
            assert(hs.drop_last() =~= hay@.subrange(i as int, i + j));
            assert(ns.drop_last() =~= needle@.subrange(c as int, c + j));
            if hay[i + j] != needle[c + j] {
                same = false;
                assert(hs.last() != ns.last());
            } else if same {
                assert(hs =~= ns);
            }
            j = j + 1;
        }
        assert(h.subrange(i - a, i - a + m) =~= hay@.subrange(i as int, i + m));
        assert(n =~= needle@.subrange(c as int, c + m));
        if same {
            assert(occurs_at(h, n, i - a));
            return true;
        }
        i = i + 1;
    }
    assert forall|j: int| !occurs_at(h, n, j) by {
        if 0 <= j && j + n.len() <= h.len() {
            assert(j < i - a);
        }
    }
    false
}


/// Relies on `String::push_str`: appends the characters of `t` at the end.
#[verifier::external_body]
pub(crate) fn push_str(s: &mut String, t: &str)
    ensures
        final(s)@ == old(s)@ + t@,
{
    s.push_str(t)
}

/// Relies on `String::push`: appends one character at the end.
#[verifier::external_body]
pub(crate) fn push_char(s: &mut String, c: char)
    ensures
        final(s)@ == old(s)@.push(c),
{
    s.push(c)
}

/// A string holding `t[lo..hi]`.
pub fn string_of_span(t: &Vec<char>, lo: usize, hi: usize) -> (r: String)
    requires
        lo <= hi <= t@.len(),
    ensures
        r@ == t@.subrange(lo as int, hi as int),
{
    let mut r = String::new();
    for i in lo..hi
        invariant
            lo <= hi <= t@.len(),
            r@ == t@.subrange(lo as int, i as int),
    {
        push_char(&mut r, t[i]);
        assert(r@ =~= t@.subrange(lo as int, i + 1));
    }
    r
}


/// Whether `t[lo..hi]` spells the word whose lower and upper case forms are
/// `lw` and `uw`.
pub fn word_span(t: &Vec<char>, lo: usize, hi: usize, lw: &Vec<char>, uw: &Vec<char>) -> (r: bool)
    requires
        lo <= hi <= t@.len(),
        lw@.len() == uw@.len(),
    ensures
        r == matches_word(t@.subrange(lo as int, hi as int), lw@, uw@),
{
    let ghost s = t@.subrange(lo as int, hi as int);
    if hi - lo != lw.len() {
        return false;
    }
    for i in 0..lw.len()
        invariant
            lo <= hi <= t@.len(),
            hi - lo == lw@.len(),
            lw@.len() == uw@.len(),
            s == t@.subrange(lo as int, hi as int),
            forall|j: int| 0 <= j < i ==> #[trigger] s[j] == lw@[j] || s[j] == uw@[j],
    {
        if t[lo + i] != lw[i] && t[lo + i] != uw[i] {
            assert(s[i as int] == t@[lo + i]);
            return false;
        }
    }
    true
}

/// The index in `t` of the first `c` in `t[lo..hi]`, or `hi` where there is none.
pub fn find_char(t: &Vec<char>, lo: usize, hi: usize, c: char) -> (r: usize)
    requires
        lo <= hi <= t@.len(),
    ensures
        lo <= r <= hi,
        r - lo == index_of(t@.subrange(lo as int, hi as int), c),
{
    let mut i: usize = lo;
    while i < hi && t[i] != c
        invariant
            lo <= i <= hi <= t@.len(),
            forall|j: int| lo <= j < i ==> t@[j] != c,
        decreases hi - i,
    {
        i = i + 1;
    }
    proof {
        lemma_index_of_at(t@.subrange(lo as int, hi as int), c, i - lo);
    }
    i
}

} // verus!
