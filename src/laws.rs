//! Laws that hold of every match.
use vstd::prelude::*;
use crate::captures::prepend;
use crate::matcher::{advance, all_marked, bound_after, captured, end_after, run};
use crate::template::{lemma_pieces, marker_at, piece_text, pieces, pieces_from, placeholder_count};
use crate::text::{blank_marks, find_from};

verus! {

/// With no two placeholders side by side, every piece between two others is
/// non-empty.
proof fn lemma_inner_pieces(t: Seq<char>, start: int, i: int)
    requires
        0 <= start <= i <= t.len(),
        start > 0 ==> marker_at(t, start - 2),
        forall|m: int| !(#[trigger] marker_at(t, m) && marker_at(t, m + 2)),
    ensures
        forall|k: int|
            0 <= k < pieces_from(t, start, i).len() - 1 && (k > 0 || start > 0) ==> (
            #[trigger] pieces_from(t, start, i)[k]).0 < pieces_from(t, start, i)[k].1,
    decreases t.len() - i,
{
    if i + 1 >= t.len() {
        assert(pieces_from(t, start, i).len() == 1);
    } else if marker_at(t, i) {
        lemma_inner_pieces(t, i + 2, i + 2);
        assert(pieces_from(t, start, i) == seq![(start, i)] + pieces_from(t, i + 2, i + 2));
        if start > 0 && start == i {
            assert(marker_at(t, start - 2) && marker_at(t, start - 2 + 2));
        }
        let rest = pieces_from(t, i + 2, i + 2);
        assert forall|k: int|
            0 <= k < pieces_from(t, start, i).len() - 1 && (k > 0 || start > 0) implies (
            #[trigger] pieces_from(t, start, i)[k]).0 < pieces_from(t, start, i)[k].1 by {
            if k > 0 {
                assert(pieces_from(t, start, i)[k] == rest[k - 1]);
            } else {
                assert(pieces_from(t, start, i)[k] == (start, i));
            }
        }
    } else {
        lemma_inner_pieces(t, start, i + 1);
        assert(pieces_from(t, start, i) == pieces_from(t, start, i + 1));
    }
}

/// From piece `j` on (not the first, not past the last), each piece left
/// gives one capture, given that no piece between two others is empty.
proof fn lemma_run_count(s: Seq<char>, sb: Seq<bool>, t: Seq<char>, tb: Seq<bool>, j: int, pos: int)
    requires
        1 <= j < pieces(t).len(),
        forall|k: int| 0 < k < pieces(t).len() - 1 ==> (#[trigger] pieces(t)[k]).0 < pieces(t)[k].1,
        run(s, sb, t, tb, j, pos) is Some,
    ensures
        run(s, sb, t, tb, j, pos)->0.len() == pieces(t).len() - j,
    decreases pieces(t).len() - j,
{
    let ps = pieces(t);
    lemma_pieces(t);
    assert(0 <= ps[j].0 <= ps[j].1 <= t.len());
    let pat = piece_text(t, ps[j]);
    let blank = all_marked(tb, ps[j].0, ps[j].1);
    if pat.len() == 0 {
        assert(j + 1 == ps.len());
        assert(run(s, sb, t, tb, j, pos) == run(s, sb, t, tb, j + 1, pos));
        assert(ps.last() == ps[j]);
    } else {
        match find_from(s, pat, pos) {
            None => {},
            Some(first) => {
                let bound = bound_after(s, t, ps, j, end_after(sb, first, pat.len() as int, blank));
                let at = advance(s, sb, pat, blank, first, bound);
                let e = end_after(sb, at, pat.len() as int, blank);
                if j + 1 < ps.len() {
                    lemma_run_count(s, sb, t, tb, j + 1, e);
                } else {
                    assert(ps.last() == ps[j]);
                }
                assert(run(s, sb, t, tb, j, pos) == prepend(
                    seq![s.subrange(pos, at)],
                    run(s, sb, t, tb, j + 1, e),
                ));
            },
        }
    }
}

/// A successful match of `s` against `t` yields exactly one capture for
/// each placeholder of `t`, whenever no two placeholders of `t` stand side
/// by side (placeholders side by side share a single capture).
pub proof fn law_one_capture_per_placeholder(s: Seq<char>, t: Seq<char>)
    requires
        forall|i: int| !(#[trigger] marker_at(t, i) && marker_at(t, i + 2)),
        captured(s, t) is Some,
    ensures
        captured(s, t)->0.len() == placeholder_count(t),
{
    lemma_pieces(t);
    lemma_inner_pieces(t, 0, 0);
    lemma_one_capture_per_piece_gap(s, t);
}

proof fn lemma_one_capture_per_piece_gap(s: Seq<char>, t: Seq<char>)
    requires
        forall|k: int| 0 < k < pieces(t).len() - 1 ==> (#[trigger] pieces(t)[k]).0 < pieces(t)[k].1,
        captured(s, t) is Some,
        pieces(t).len() == placeholder_count(t) + 1,
    ensures
        captured(s, t)->0.len() == placeholder_count(t),
{
    let sb = blank_marks(s);
    let tb = blank_marks(t);
    let ps = pieces(t);
    if ps.len() > 1 {
        assert forall|p: int| (#[trigger] run(s, sb, t, tb, 1, p)) is Some implies run(
            s,
            sb,
            t,
            tb,
            1,
            p,
        )->0.len() == ps.len() - 1 by {
            lemma_run_count(s, sb, t, tb, 1, p);
        }
    }
    assert(captured(s, t) == run(s, sb, t, tb, 0, 0));
    lemma_pieces(t);
    assert(0 <= ps[0].0 <= ps[0].1 <= t.len());
    let pat = piece_text(t, ps[0]);
    let blank = all_marked(tb, ps[0].0, ps[0].1);
    if pat.len() == 0 {
        assert(run(s, sb, t, tb, 0, 0) == run(s, sb, t, tb, 1, 0));
    } else {
        let e = end_after(sb, 0, pat.len() as int, blank);
        assert(run(s, sb, t, tb, 0, 0) == run(s, sb, t, tb, 1, e));
        if ps.len() == 1 {
            assert(ps.last() == ps[0]);
        }
    }
}

/// Matching depends on the two texts alone: an input and a template give
/// the same outcome every time they are matched.
pub proof fn law_same_texts_same_outcome(input: &str, template: &str, again_input: &str, again_template: &str)
    requires
        input@ == again_input@,
        template@ == again_template@,
    ensures
        captured(input@, template@) == captured(again_input@, again_template@),
{
}

} // verus!
