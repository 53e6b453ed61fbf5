//! Character-level helpers: the characters of a `str`, whitespace marks,
//! and searching for a run of characters.
use vstd::prelude::*;

verus! {

broadcast use vstd::string::axiom_spec_iter;

/// Whether `c` is whitespace, as `char::is_whitespace` decides it.
pub uninterp spec fn white_space(c: char) -> bool;

/// Relies on `char::is_whitespace`: whether `c` has Unicode's White_Space
/// property, which depends on `c` alone.
#[verifier::external_body]
fn is_blank(c: char) -> (r: bool)
    ensures
        r == white_space(c),
{
    c.is_whitespace()
}

/// The whitespace marks of a run of characters: one `bool` per character.
pub open spec fn blank_marks(s: Seq<char>) -> Seq<bool> {
    s.map_values(|c: char| white_space(c))
}

/// The characters of `s`, in order.
pub fn chars_of(s: &str) -> (r: Vec<char>)
    ensures
        r@ == s@,
{
    let mut r: Vec<char> = Vec::new();
    for c in it: s.chars()
        invariant
            r@ == it.seq().subrange(0, it.index() as int),
    {
        r.push(c);
    }
    r
}

/// The whitespace mark of each character of `s`.
pub fn marks_of(s: &Vec<char>) -> (r: Vec<bool>)
    ensures
        r@ == blank_marks(s@),
{
    let mut r: Vec<bool> = Vec::new();
    let mut i: usize = 0;
    while i < s.len()
        invariant
            i <= s.len(),
            r@ == blank_marks(s@.subrange(0, i as int)),
        decreases s.len() - i,
    {
        r.push(is_blank(s[i]));
        assert(s@.subrange(0, i + 1) == s@.subrange(0, i as int).push(s@[i as int]));
        i = i + 1;
    }
    assert(s@.subrange(0, s.len() as int) == s@);
    r
}

/// Whether `pat` stands in `s` starting at index `p`.
pub open spec fn occurs_at(s: Seq<char>, pat: Seq<char>, p: int) -> bool {
    0 <= p && p + pat.len() <= s.len() && s.subrange(p, p + pat.len()) == pat
}

/// The first index at or after `from` where `pat` stands in `s`.
pub open spec fn find_from(s: Seq<char>, pat: Seq<char>, from: int) -> Option<int>
    decreases s.len() + 1 - from,
{
    if from < 0 || from + pat.len() > s.len() {
        None
    } else if occurs_at(s, pat, from) {
        Some(from)
    } else {
        find_from(s, pat, from + 1)
    }
}

/// The first index at or after `from` whose character is not whitespace,
/// or the end of the marks.
pub open spec fn skip_blank(marks: Seq<bool>, from: int) -> int
    decreases marks.len() - from,
{
    if 0 <= from < marks.len() && marks[from] {
        skip_blank(marks, from + 1)
    } else {
        from
    }
}

/// A search never answers before where it started, and what it answers is a
/// place where the pattern stands, with no earlier one from `from` on.
pub proof fn lemma_find_from(s: Seq<char>, pat: Seq<char>, from: int)
    requires
        0 <= from,
    ensures
        match find_from(s, pat, from) {
            Some(p) => from <= p && occurs_at(s, pat, p) && forall|q: int|
                from <= q < p ==> !occurs_at(s, pat, q),
            None => forall|q: int| from <= q ==> !occurs_at(s, pat, q),
        },
    decreases s.len() + 1 - from,
{
    if from < 0 || from + pat.len() > s.len() {
    } else if occurs_at(s, pat, from) {
    } else {
        lemma_find_from(s, pat, from + 1);
    }
}

/// Skipping whitespace never moves backwards, nor past the end.
pub proof fn lemma_skip_blank(marks: Seq<bool>, from: int)
    ensures
        from <= skip_blank(marks, from),
        0 <= from <= marks.len() ==> skip_blank(marks, from) <= marks.len(),
    decreases marks.len() - from,
{
    if 0 <= from < marks.len() && marks[from] {
        lemma_skip_blank(marks, from + 1);
    }
}

/// Whether `t[a..b]` stands in `s` starting at index `p`.
pub fn matches_at(s: &Vec<char>, p: usize, t: &Vec<char>, a: usize, b: usize) -> (r: bool)
    requires
        a <= b <= t.len(),
    ensures
        r == occurs_at(s@, t@.subrange(a as int, b as int), p as int),
{
    let ghost pat = t@.subrange(a as int, b as int);
    if p > s.len() || b - a > s.len() - p {
        return false;
    }
    let mut k: usize = 0;
    while k < b - a
        invariant
            a <= b <= t.len(),
            p + (b - a) <= s.len(),
            pat == t@.subrange(a as int, b as int),
            k <= b - a,
            s@.subrange(p as int, p + k) == t@.subrange(a as int, a + k),
        decreases b - a - k,
    {
        if s[p + k] != t[a + k] {
            assert(pat[k as int] == t@[a + k]);
            assert(s@.subrange(p as int, p + pat.len())[k as int] == s@[p + k]);
            return false;
        }
        assert(s@.subrange(p as int, p + k + 1) =~= t@.subrange(a as int, a + k + 1)) by {
            assert(s@.subrange(p as int, p + k + 1) =~= s@.subrange(p as int, p + k).push(
                s@[p + k],
            ));
            assert(t@.subrange(a as int, a + k + 1) =~= t@.subrange(a as int, a + k).push(
                t@[a + k],
            ));
        }
        k = k + 1;
    }
    assert(s@.subrange(p as int, p + pat.len()) =~= pat);
    true
}

/// The first index at or after `from` where `t[a..b]` stands in `s`.
pub fn find_in(s: &Vec<char>, from: usize, t: &Vec<char>, a: usize, b: usize) -> (r: Option<
    usize,
>)
    requires
        a <= b <= t.len(),
    ensures
        match r {
            Some(p) => find_from(s@, t@.subrange(a as int, b as int), from as int) == Some(p as int),
            None => find_from(s@, t@.subrange(a as int, b as int), from as int) is None,
        },
{
    let ghost pat = t@.subrange(a as int, b as int);
    if b - a > s.len() {
        return None;
    }
    let last = s.len() - (b - a);
    let mut p: usize = from;
    while p <= last
        invariant
            a <= b <= t.len(),
            pat == t@.subrange(a as int, b as int),
            pat.len() == b - a,
            last + pat.len() == s.len(),
            from <= p,
            find_from(s@, pat, from as int) == find_from(s@, pat, p as int),
        decreases last + 1 - p,
    {
        if matches_at(s, p, t, a, b) {
            return Some(p);
        }
        if p == last {
            return None;
        }
        p = p + 1;
    }
    None
}

/// The first index at or after `from` whose mark is not set, or the end.
pub fn skip_marked(marks: &Vec<bool>, from: usize) -> (r: usize)
    requires
        from <= marks.len(),
    ensures
        r == skip_blank(marks@, from as int),
{
    let mut i: usize = from;
    while i < marks.len() && marks[i]
        invariant
            from <= i <= marks.len(),
            skip_blank(marks@, from as int) == skip_blank(marks@, i as int),
        decreases marks.len() - i,
    {
        i = i + 1;
    }
    i
}

} // verus!
