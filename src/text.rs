//! Character-level text helpers: substring search, line splitting, string building.
use vstd::prelude::*;
use vstd::std_specs::iter::IteratorSpec;

verus! {

broadcast use {vstd::string::group_string_axioms, vstd::string::next_postcondition};

/// `String::push` appends one character to the end of the string.
pub assume_specification[ String::push ](s: &mut String, ch: char)
    ensures
        final(s)@ == old(s)@.push(ch),
;

/// `m` stands in `s` starting at index `i`.
pub open spec fn occurs_at(s: Seq<char>, m: Seq<char>, i: int) -> bool {
    0 <= i && i + m.len() <= s.len() && s.subrange(i, i + m.len()) == m
}

/// The first index at or after `k` where `m` occurs in `s`, if any.
pub open spec fn find_from(s: Seq<char>, m: Seq<char>, k: int) -> Option<int>
    decreases s.len() + 1 - k,
{
    if k + m.len() > s.len() {
        None
    } else if occurs_at(s, m, k) {
        Some(k)
    } else {
        find_from(s, m, k + 1)
    }
}

/// The first index where `m` occurs in `s`, if any.
pub open spec fn find_first(s: Seq<char>, m: Seq<char>) -> Option<int> {
    find_from(s, m, 0)
}

/// Whatever `find_from` returns is an occurrence at or after `k`.
pub proof fn lemma_find_from_bounds(s: Seq<char>, m: Seq<char>, k: int)
    requires
        0 <= k,
    ensures
        find_from(s, m, k) matches Some(i) ==> k <= i && occurs_at(s, m, i),
    decreases s.len() + 1 - k,
{
    if k + m.len() <= s.len() && !occurs_at(s, m, k) {
        lemma_find_from_bounds(s, m, k + 1);
    }
}

/// The characters of `s`, in order.
pub fn chars_of(s: &str) -> (r: Vec<char>)
    ensures
        r@ == s@,
{
    let mut r: Vec<char> = Vec::new();
    for c in it: s.chars()
        invariant
            r@ == it.seq().subrange(0, it.index() as int),
            it.seq() == s@,
    {
        r.push(c);
    }
    r
}

/// `m` stands in `s` at index `k`.
pub fn matches_at(s: &Vec<char>, m: &Vec<char>, k: usize) -> (r: bool)
    requires
        k + m@.len() <= s@.len(),
    ensures
        r == occurs_at(s@, m@, k as int),
{
    let n = s.len();
    let mut j: usize = 0;
    while j < m.len()
        invariant
            n == s@.len(),
            j <= m@.len(),
            k + m@.len() <= s@.len(),
            forall|t: int| 0 <= t < j ==> s@[k + t] == m@[t],
        decreases m@.len() - j,
    {
        if s[k + j] != m[j] {
            assert(s@.subrange(k as int, k + m@.len())[j as int] != m@[j as int]);
            return false;
        }
        j = j + 1;
    }
    assert(s@.subrange(k as int, k + m@.len()) =~= m@);
    true
}

/// The first index where `m` occurs in `s`, if any.
pub fn find(s: &Vec<char>, m: &Vec<char>) -> (r: Option<usize>)
    ensures
        match r {
            Some(i) => find_first(s@, m@) == Some(i as int),
            None => find_first(s@, m@) is None,
        },
{
    if m.len() == 0 {
        assert(occurs_at(s@, m@, 0)) by {
            assert(s@.subrange(0, 0) =~= m@);
        }
        return Some(0);
    }
    let mut k: usize = 0;
    while m.len() <= s.len() - k
        invariant
            k <= s@.len(),
            m@.len() > 0,
            find_first(s@, m@) == find_from(s@, m@, k as int),
        decreases s@.len() - k,
    {
        if matches_at(s, m, k) {
            return Some(k);
        }
        k = k + 1;
    }
    None
}

/// The characters of `v` from `from` up to `to`, as a new vector.
pub fn slice_chars(v: &Vec<char>, from: usize, to: usize) -> (r: Vec<char>)
    requires
        from <= to <= v@.len(),
    ensures
        r@ == v@.subrange(from as int, to as int),
{
    let mut r: Vec<char> = Vec::new();
    let mut i: usize = from;
    while i < to
        invariant
            from <= i <= to <= v@.len(),
            r@ == v@.subrange(from as int, i as int),
        decreases to - i,
    {
        r.push(v[i]);
        i = i + 1;
        assert(r@ =~= v@.subrange(from as int, i as int));
    }
    r
}

/// The characters of `v` from `from` up to `to`, as a string.
pub fn string_of(v: &Vec<char>, from: usize, to: usize) -> (r: String)
    requires
        from <= to <= v@.len(),
    ensures
        r@ == v@.subrange(from as int, to as int),
{
    let mut r = String::new();
    let mut i: usize = from;
    while i < to
        invariant
            from <= i <= to <= v@.len(),
            r@ == v@.subrange(from as int, i as int),
        decreases to - i,
    {
        r.push(v[i]);
        i = i + 1;
        assert(r@ =~= v@.subrange(from as int, i as int));
    }
    r
}

/// The two vectors hold the same characters.
pub fn same_chars(a: &Vec<char>, b: &Vec<char>) -> (r: bool)
    ensures
        r == (a@ == b@),
{
    if a.len() != b.len() {
        return false;
    }
    assert(a@.subrange(0, a@.len() as int) =~= a@);
    matches_at(a, b, 0)
}

/// The index of the first line feed at or after `k`, or the length of `t` if none.
pub open spec fn line_end(t: Seq<char>, k: int) -> int
    decreases t.len() - k,
{
    if k >= t.len() {
        t.len() as int
    } else if t[k] == '\n' {
        k
    } else {
        line_end(t, k + 1)
    }
}

/// `line_end` stops at the first line feed from `k` on, or at the end.
pub proof fn lemma_line_end_bounds(t: Seq<char>, k: int)
    requires
        0 <= k <= t.len(),
    ensures
        k <= line_end(t, k) <= t.len(),
        forall|j: int| k <= j < line_end(t, k) ==> t[j] != '\n',
        line_end(t, k) < t.len() ==> t[line_end(t, k)] == '\n',
    decreases t.len() - k,
{
    if k < t.len() && t[k] != '\n' {
        lemma_line_end_bounds(t, k + 1);
    }
}

/// A line that ended in a line feed loses one carriage return before it.
pub open spec fn strip_cr(l: Seq<char>) -> Seq<char> {
    if l.len() > 0 && l.last() == '\r' {
        l.drop_last()
    } else {
        l
    }
}

/// The lines of `t` from index `p` on: split at each line feed, a carriage return
/// just before a line feed dropped, and no empty line after a final line feed.
pub open spec fn lines_from(t: Seq<char>, p: int) -> Seq<Seq<char>>
    decreases t.len() - p
    via lines_from_decreases
{
    if p < 0 || p >= t.len() {
        Seq::empty()
    } else {
        let e = line_end(t, p);
        if e < t.len() {
            seq![strip_cr(t.subrange(p, e))] + lines_from(t, e + 1)
        } else {
            seq![t.subrange(p, t.len() as int)]
        }
    }
}

#[via_fn]
proof fn lines_from_decreases(t: Seq<char>, p: int) {
    if 0 <= p < t.len() {
        lemma_line_end_bounds(t, p);
    }
}

/// The lines of `t`.
pub open spec fn lines_of(t: Seq<char>) -> Seq<Seq<char>> {
    lines_from(t, 0)
}

/// What each vector of characters holds.
pub open spec fn char_views(v: Seq<Vec<char>>) -> Seq<Seq<char>> {
    v.map_values(|l: Vec<char>| l@)
}

/// Splits `t` into its lines.
pub fn split_lines(t: &Vec<char>) -> (r: Vec<Vec<char>>)
    ensures
        char_views(r@) == lines_of(t@),
{
    let mut r: Vec<Vec<char>> = Vec::new();
    let mut p: usize = 0;
    while p < t.len()
        invariant
            p <= t@.len(),
            lines_of(t@) == char_views(r@) + lines_from(t@, p as int),
        decreases t@.len() - p,
    {
        let mut e: usize = p;
        while e < t.len() && t[e] != '\n'
            invariant
                p <= e <= t@.len(),
                line_end(t@, p as int) == line_end(t@, e as int),
            decreases t@.len() - e,
        {
            e = e + 1;
        }
        let ghost before = char_views(r@);
        if e < t.len() {
            let mut stop: usize = e;
            if e > p && t[e - 1] == '\r' {
                stop = e - 1;
            }
            let line = slice_chars(t, p, stop);
            assert(line@ == strip_cr(t@.subrange(p as int, e as int)));
            r.push(line);
            assert(char_views(r@) =~= before.push(line@));
            p = e + 1;
        } else {
            let line = slice_chars(t, p, e);
            r.push(line);
            assert(char_views(r@) =~= before.push(line@));
            assert(lines_from(t@, e as int) == Seq::<Seq<char>>::empty());
            p = e;
        }
    }
    r
}

} // verus!
