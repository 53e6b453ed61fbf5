//! What a match of an input against a template yields, stated over
//! characters and whitespace marks.
//!
//! The literal pieces of the template are found in the input left to
//! right. A piece found at the very start of the template must stand at the
//! start of the input. Any other piece is looked for from where the last one
//! ended; among its later occurrences the rightmost one that still starts
//! before the next literal piece's first occurrence is taken, so that the
//! placeholder before it takes as much text as it can. A piece made only of
//! whitespace stands for a run of one or more whitespace characters. The text
//! between two pieces is the capture of the placeholder between them; the
//! text after the last piece is the capture of a trailing placeholder, and
//! must be empty when the template ends in a literal.
use vstd::prelude::*;
use crate::template::{int_ranges, piece_text, pieces};
use crate::text::{
    blank_marks, find_from, find_in, lemma_find_from, lemma_skip_blank, occurs_at, skip_blank,
    skip_marked,
};

verus! {

/// Every mark in `a..b` is set.
pub open spec fn all_marked(marks: Seq<bool>, a: int, b: int) -> bool {
    forall|k: int| a <= k < b ==> marks[k]
}

/// Where an occurrence at `at` of a piece of `n` characters ends: right
/// after it, and after any further whitespace when the piece is blank.
pub open spec fn end_after(marks: Seq<bool>, at: int, n: int, blank: bool) -> int {
    if blank {
        skip_blank(marks, at + n)
    } else {
        at + n
    }
}

/// The index of the first non-empty piece after piece `j`.
pub open spec fn next_literal(ps: Seq<(int, int)>, j: int) -> Option<int>
    decreases ps.len() - j,
{
    if j + 1 >= ps.len() {
        None
    } else if ps[j + 1].0 < ps[j + 1].1 {
        Some(j + 1)
    } else {
        next_literal(ps, j + 1)
    }
}

/// Where the literal after piece `j` is first found from `from` on, or the
/// end of the input when there is none.
pub open spec fn bound_after(s: Seq<char>, t: Seq<char>, ps: Seq<(int, int)>, j: int, from: int) -> int {
    match next_literal(ps, j) {
        Some(n) => match find_from(s, piece_text(t, ps[n]), from) {
            Some(q) => q,
            None => s.len() as int,
        },
        None => s.len() as int,
    }
}

/// From an occurrence of `pat` at `at`, move on to the next occurrence
/// after it for as long as that one starts before `bound`.
pub open spec fn advance(
    s: Seq<char>,
    sb: Seq<bool>,
    pat: Seq<char>,
    blank: bool,
    at: int,
    bound: int,
) -> int
    decreases s.len() - at,
    via advance_decreases
{
    if pat.len() == 0 {
        at
    } else {
        match find_from(s, pat, end_after(sb, at, pat.len() as int, blank)) {
            Some(n) => if n < bound {
                advance(s, sb, pat, blank, n, bound)
            } else {
                at
            },
            None => at,
        }
    }
}

#[via_fn]
proof fn advance_decreases(
    s: Seq<char>,
    sb: Seq<bool>,
    pat: Seq<char>,
    blank: bool,
    at: int,
    bound: int,
) {
    if pat.len() != 0 {
        let e = end_after(sb, at, pat.len() as int, blank);
        lemma_skip_blank(sb, at + pat.len());
        if e >= 0 {
            lemma_find_from(s, pat, e);
        }
    }
}

/// The captures of the pieces from `j` on, the input being consumed up to
/// `pos`; `None` when there is no match.
pub open spec fn run(
    s: Seq<char>,
    sb: Seq<bool>,
    t: Seq<char>,
    tb: Seq<bool>,
    j: int,
    pos: int,
) -> Option<Seq<Seq<char>>>
    decreases pieces(t).len() - j,
{
    let ps = pieces(t);
    if j >= ps.len() {
        if ps.len() > 1 && ps.last().0 == ps.last().1 {
            Some(seq![s.subrange(pos, s.len() as int)])
        } else if pos == s.len() {
            Some(Seq::empty())
        } else {
            None
        }
    } else {
        let pat = piece_text(t, ps[j]);
        let blank = all_marked(tb, ps[j].0, ps[j].1);
        if pat.len() == 0 {
            run(s, sb, t, tb, j + 1, pos)
        } else if j == 0 {
            if occurs_at(s, pat, pos) {
                run(s, sb, t, tb, j + 1, end_after(sb, pos, pat.len() as int, blank))
            } else {
                None
            }
        } else {
            match find_from(s, pat, pos) {
                None => None,
                Some(first) => {
                    let bound = bound_after(
                        s,
                        t,
                        ps,
                        j,
                        end_after(sb, first, pat.len() as int, blank),
                    );
                    let at = advance(s, sb, pat, blank, first, bound);
                    match run(s, sb, t, tb, j + 1, end_after(sb, at, pat.len() as int, blank)) {
                        Some(rest) => Some(seq![s.subrange(pos, at)] + rest),
                        None => None,
                    }
                }
            }
        }
    }
}

/// The captures of input `s` against template `t`, given the whitespace
/// marks `sb` of the input and `tb` of the template; `None` when there is
/// no match.
pub open spec fn captures_of(s: Seq<char>, sb: Seq<bool>, t: Seq<char>, tb: Seq<bool>) -> Option<
    Seq<Seq<char>>,
> {
    run(s, sb, t, tb, 0, 0)
}

/// The captures of input `s` against template `t`, whitespace being what
/// `char::is_whitespace` says it is.
pub open spec fn captured(s: Seq<char>, t: Seq<char>) -> Option<Seq<Seq<char>>> {
    captures_of(s, blank_marks(s), t, blank_marks(t))
}

/// The result of advancing is an occurrence at or after the start.
pub proof fn lemma_advance(
    s: Seq<char>,
    sb: Seq<bool>,
    pat: Seq<char>,
    blank: bool,
    at: int,
    bound: int,
)
    requires
        occurs_at(s, pat, at),
    ensures
        at <= advance(s, sb, pat, blank, at, bound),
        occurs_at(s, pat, advance(s, sb, pat, blank, at, bound)),
    decreases s.len() - at,
{
    if pat.len() != 0 {
        let e = end_after(sb, at, pat.len() as int, blank);
        lemma_skip_blank(sb, at + pat.len());
        lemma_find_from(s, pat, e);
        match find_from(s, pat, e) {
            Some(n) => if n < bound {
                lemma_advance(s, sb, pat, blank, n, bound);
            },
            None => {},
        }
    }
}

/// The end of an occurrence lies within the input.
pub proof fn lemma_end_after(s: Seq<char>, sb: Seq<bool>, pat: Seq<char>, at: int, blank: bool)
    requires
        occurs_at(s, pat, at),
        sb.len() == s.len(),
    ensures
        at + pat.len() <= end_after(sb, at, pat.len() as int, blank) <= s.len(),
{
    lemma_skip_blank(sb, at + pat.len());
}

/// The first non-empty piece after `j` is a later piece, and a non-empty one.
pub proof fn lemma_next_literal(ps: Seq<(int, int)>, j: int)
    ensures
        match next_literal(ps, j) {
            Some(n) => j < n < ps.len() && ps[n].0 < ps[n].1,
            None => true,
        },
    decreases ps.len() - j,
{
    if j + 1 < ps.len() && !(ps[j + 1].0 < ps[j + 1].1) {
        lemma_next_literal(ps, j + 1);
    }
}

/// Where an occurrence at `at` of a piece of `n` characters ends.
pub fn end_of(sb: &Vec<bool>, at: usize, n: usize, blank: bool) -> (r: usize)
    requires
        at + n <= sb.len(),
    ensures
        r == end_after(sb@, at as int, n as int, blank),
{
    if blank {
        skip_marked(sb, at + n)
    } else {
        at + n
    }
}

/// Whether every mark in `a..b` is set.
pub fn marked_throughout(marks: &Vec<bool>, a: usize, b: usize) -> (r: bool)
    requires
        a <= b <= marks.len(),
    ensures
        r == all_marked(marks@, a as int, b as int),
{
    let mut k: usize = a;
    while k < b
        invariant
            a <= k <= b <= marks.len(),
            all_marked(marks@, a as int, k as int),
        decreases b - k,
    {
        if !marks[k] {
            return false;
        }
        k = k + 1;
    }
    true
}

/// The index of the first non-empty piece after piece `j`.
pub fn next_literal_in(ps: &Vec<(usize, usize)>, j: usize) -> (r: Option<usize>)
    ensures
        match r {
            Some(n) => next_literal(int_ranges(ps@), j as int) == Some(n as int),
            None => next_literal(int_ranges(ps@), j as int) is None,
        },
{
    let ghost rs = int_ranges(ps@);
    let mut k: usize = j;
    while k < ps.len() && k + 1 < ps.len()
        invariant
            j <= k,
            rs == int_ranges(ps@),
            next_literal(rs, j as int) == next_literal(rs, k as int),
        decreases ps.len() - k,
    {
        if ps[k + 1].0 < ps[k + 1].1 {
            return Some(k + 1);
        }
        k = k + 1;
    }
    None
}

/// The rightmost occurrence of `t[a..b]` reached by moving on from `first`
/// while the next one starts before `bound`.
pub fn advance_in(
    s: &Vec<char>,
    sb: &Vec<bool>,
    t: &Vec<char>,
    a: usize,
    b: usize,
    blank: bool,
    first: usize,
    bound: usize,
) -> (r: usize)
    requires
        a < b <= t.len(),
        sb.len() == s.len(),
        occurs_at(s@, t@.subrange(a as int, b as int), first as int),
    ensures
        r == advance(s@, sb@, t@.subrange(a as int, b as int), blank, first as int, bound as int),
{
    let ghost pat = t@.subrange(a as int, b as int);
    let mut at: usize = first;
    loop
        invariant
            a < b <= t.len(),
            sb.len() == s.len(),
            pat == t@.subrange(a as int, b as int),
            occurs_at(s@, pat, at as int),
            advance(s@, sb@, pat, blank, first as int, bound as int) == advance(
                s@,
                sb@,
                pat,
                blank,
                at as int,
                bound as int,
            ),
        decreases s.len() - at,
    {
        proof {
            lemma_end_after(s@, sb@, pat, at as int, blank);
        }
        let e = end_of(sb, at, b - a, blank);
        proof {
            lemma_find_from(s@, pat, e as int);
        }
        match find_in(s, e, t, a, b) {
            Some(n) => {
                if n < bound {
                    at = n;
                } else {
                    return at;
                }
            },
            None => {
                return at;
            },
        }
    }
}

} // verus!
