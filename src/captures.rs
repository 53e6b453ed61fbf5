//! The captures of one match: the input text that stands where the
//! template has its placeholders, borrowed from the input.
use vstd::prelude::*;
use vstd::string::StrSliceExecFns;
use crate::matcher::{
    advance_in, bound_after, captured, captures_of, end_of, lemma_advance, lemma_end_after,
    lemma_next_literal, marked_throughout, next_literal_in, run,
};
use crate::template::{int_ranges, lemma_pieces, piece_text, pieces, ranges_within, split_pieces};
use crate::text::{chars_of, find_in, lemma_find_from, marks_of, matches_at};

verus! {

/// The list of captures of a successful match, in placeholder order.
pub struct Captures<'a> {
    captures: Vec<&'a str>,
}

/// The texts of a list of `str`s.
pub open spec fn texts(v: Seq<&str>) -> Seq<Seq<char>> {
    v.map_values(|c: &str| c@)
}

/// `head` in front of what `rest` holds, or `None` when `rest` is `None`.
pub open spec fn prepend(head: Seq<Seq<char>>, rest: Option<Seq<Seq<char>>>) -> Option<
    Seq<Seq<char>>,
> {
    match rest {
        Some(r) => Some(head + r),
        None => None,
    }
}

impl<'a> View for Captures<'a> {
    type V = Seq<Seq<char>>;

    closed spec fn view(&self) -> Seq<Seq<char>> {
        texts(self.captures@)
    }
}

impl<'a> Captures<'a> {
    /// Match `input` against `template`, whitespace being marked by
    /// `input_blank` (one mark per character of the input) and
    /// `template_blank` (one per character of the template).
    pub fn with_marks(
        input: &'a str,
        template: &'a str,
        input_blank: &Vec<bool>,
        template_blank: &Vec<bool>,
    ) -> (r: Option<Self>)
        requires
            input_blank@.len() == input@.len(),
            template_blank@.len() == template@.len(),
        ensures
            match r {
                Some(c) => captures_of(input@, input_blank@, template@, template_blank@) == Some(
                    c@,
                ),
                None => captures_of(input@, input_blank@, template@, template_blank@) is None,
            },
    {
        let s = chars_of(input);
        let t = chars_of(template);
        let ghost (sv, sb, tv, tb) = (s@, input_blank@, t@, template_blank@);
        let ps = split_pieces(&t);
        proof {
            lemma_pieces(tv);
        }
        let mut caps: Vec<&'a str> = Vec::new();
        let mut pos: usize = 0;
        let mut j: usize = 0;
        while j < ps.len()
            invariant
                sv == s@,
                sv == input@,
                tv == t@,
                tv == template@,
                sb == input_blank@,
                tb == template_blank@,
                sb.len() == sv.len(),
                tb.len() == tv.len(),
                int_ranges(ps@) == pieces(tv),
                ranges_within(pieces(tv), tv.len() as int),
                pos <= s.len(),
                j <= ps.len(),
                j == 0 ==> pos == 0,
                captures_of(sv, sb, tv, tb) == prepend(texts(caps@), run(sv, sb, tv, tb, j as int, pos as int)),
            decreases ps.len() - j,
        {
            let (a, b) = ps[j];
            assert(pieces(tv)[j as int] == (a as int, b as int));
            let ghost pat = piece_text(tv, pieces(tv)[j as int]);
            if a < b {
                let blank = marked_throughout(template_blank, a, b);
                if j == 0 {
                    if !matches_at(&s, pos, &t, a, b) {
                        return None;
                    }
                    proof {
                        lemma_end_after(sv, sb, pat, pos as int, blank);
                    }
                    pos = end_of(input_blank, pos, b - a, blank);
                } else {
                    proof {
                        lemma_find_from(sv, pat, pos as int);
                    }
                    let first = match find_in(&s, pos, &t, a, b) {
                        Some(p) => p,
                        None => {
                            return None;
                        },
                    };
                    proof {
                        lemma_end_after(sv, sb, pat, first as int, blank);
                    }
                    let e0 = end_of(input_blank, first, b - a, blank);
                    proof {
                        lemma_next_literal(pieces(tv), j as int);
                    }
                    let bound = match next_literal_in(&ps, j) {
                        Some(n) => {
                            assert(pieces(tv)[n as int] == (ps@[n as int].0 as int, ps@[n as int].1 as int));
                            match find_in(&s, e0, &t, ps[n].0, ps[n].1) {
                                Some(q) => q,
                                None => s.len(),
                            }
                        },
                        None => s.len(),
                    };
                    assert(bound == bound_after(sv, tv, pieces(tv), j as int, e0 as int));
                    let at = advance_in(&s, input_blank, &t, a, b, blank, first, bound);
                    proof {
                        lemma_advance(sv, sb, pat, blank, first as int, bound as int);
                        lemma_end_after(sv, sb, pat, at as int, blank);
                    }
                    let ghost before = caps@;
                    caps.push(input.substring_char(pos, at));
                    assert(texts(caps@) =~= texts(before) + seq![sv.subrange(pos as int, at as int)]);
                    pos = end_of(input_blank, at, b - a, blank);
                }
            }
            j = j + 1;
        }
        let last = ps.len() - 1;
        if ps.len() > 1 && ps[last].0 == ps[last].1 {
            let ghost before = caps@;
            caps.push(input.substring_char(pos, s.len()));
            assert(texts(caps@) =~= texts(before) + seq![sv.subrange(pos as int, sv.len() as int)]);
        } else if pos != s.len() {
            return None;
        }
        Some(Captures { captures: caps })
    }

    /// Match `input` against `template`: `Some` with one capture for each
    /// placeholder (two placeholders side by side share one), in order,
    /// when the template's literal pieces can be found in the input; `None`
    /// otherwise.
    pub fn new(input: &'a str, template: &'a str) -> (r: Option<Self>)
        ensures
            match r {
                Some(c) => captured(input@, template@) == Some(c@),
                None => captured(input@, template@) is None,
            },
    {
        let input_blank = marks_of(&chars_of(input));
        let template_blank = marks_of(&chars_of(template));
        Self::with_marks(input, template, &input_blank, &template_blank)
    }

    /// The captures, as a list of their own.
    pub fn to_inner(&self) -> (r: Vec<&'a str>)
        ensures
            texts(r@) == self@,
    {
        let mut r: Vec<&'a str> = Vec::new();
        let mut i: usize = 0;
        while i < self.captures.len()
            invariant
                i <= self.captures.len(),
                r@ == self.captures@.subrange(0, i as int),
            decreases self.captures.len() - i,
        {
            r.push(self.captures[i]);
            i = i + 1;
        }
        assert(r@ =~= self.captures@);
        r
    }

    /// The captures, borrowed.
    pub fn as_inner(&self) -> (r: &Vec<&'a str>)
        ensures
            texts(r@) == self@,
    {
        &self.captures
    }
}

} // verus!
