//! A template is text with placeholders, each written `{}`. Cutting it at
//! its placeholders, left to right, gives its pieces: the literal text
//! between them, where a piece is empty at either end of the template or
//! between two placeholders that stand side by side.
use vstd::prelude::*;

verus! {

/// Whether a placeholder `{}` starts at index `i` of `t`.
pub open spec fn marker_at(t: Seq<char>, i: int) -> bool {
    0 <= i && i + 1 < t.len() && t[i] == '{' && t[i + 1] == '}'
}

/// The pieces of `t` from index `start` on, as index ranges into `t`, with
/// no placeholder starting in `start..i`.
pub open spec fn pieces_from(t: Seq<char>, start: int, i: int) -> Seq<(int, int)>
    decreases t.len() - i,
{
    if i + 1 >= t.len() {
        seq![(start, t.len() as int)]
    } else if marker_at(t, i) {
        seq![(start, i)] + pieces_from(t, i + 2, i + 2)
    } else {
        pieces_from(t, start, i + 1)
    }
}

/// The pieces of `t`, left to right, as index ranges into `t`.
pub open spec fn pieces(t: Seq<char>) -> Seq<(int, int)> {
    pieces_from(t, 0, 0)
}

/// The number of placeholders in `t` from index `i` on.
pub open spec fn placeholders_from(t: Seq<char>, i: int) -> nat
    decreases t.len() - i,
{
    if i + 1 >= t.len() {
        0
    } else if marker_at(t, i) {
        1 + placeholders_from(t, i + 2)
    } else {
        placeholders_from(t, i + 1)
    }
}

/// The number of placeholders in `t`.
pub open spec fn placeholder_count(t: Seq<char>) -> nat {
    placeholders_from(t, 0)
}

/// The text of the piece `r` of `t`.
pub open spec fn piece_text(t: Seq<char>, r: (int, int)) -> Seq<char> {
    t.subrange(r.0, r.1)
}

/// Index ranges held as machine integers, read as mathematical ones.
pub open spec fn int_ranges(v: Seq<(usize, usize)>) -> Seq<(int, int)> {
    v.map_values(|r: (usize, usize)| (r.0 as int, r.1 as int))
}

/// Every range lies within `0..n` and runs forwards.
pub open spec fn ranges_within(rs: Seq<(int, int)>, n: int) -> bool {
    forall|j: int| 0 <= j < rs.len() ==> 0 <= #[trigger] rs[j].0 <= rs[j].1 <= n
}

/// One more piece than placeholders, and every piece within the template.
pub proof fn lemma_pieces_from(t: Seq<char>, start: int, i: int)
    requires
        0 <= start <= i <= t.len(),
    ensures
        pieces_from(t, start, i).len() == placeholders_from(t, i) + 1,
        ranges_within(pieces_from(t, start, i), t.len() as int),
    decreases t.len() - i,
{
    if i + 1 >= t.len() {
    } else if marker_at(t, i) {
        lemma_pieces_from(t, i + 2, i + 2);
        let rest = pieces_from(t, i + 2, i + 2);
        assert forall|j: int| 0 <= j < rest.len() + 1 implies 0 <= #[trigger] (seq![(start, i)]
            + rest)[j].0 <= (seq![(start, i)] + rest)[j].1 <= t.len() by {
            if j > 0 {
                assert((seq![(start, i)] + rest)[j] == rest[j - 1]);
            }
        }
    } else {
        lemma_pieces_from(t, start, i + 1);
    }
}

/// A template has one more piece than it has placeholders, and every piece
/// lies within it.
pub proof fn lemma_pieces(t: Seq<char>)
    ensures
        pieces(t).len() == placeholder_count(t) + 1,
        ranges_within(pieces(t), t.len() as int),
{
    lemma_pieces_from(t, 0, 0);
}

/// Cut `t` at its placeholders: the pieces, left to right, as index ranges.
pub fn split_pieces(t: &Vec<char>) -> (r: Vec<(usize, usize)>)
    ensures
        int_ranges(r@) == pieces(t@),
{
    let mut r: Vec<(usize, usize)> = Vec::new();
    let mut start: usize = 0;
    let mut i: usize = 0;
    while i < t.len() && i + 1 < t.len()
        invariant
            start <= i <= t.len(),
            int_ranges(r@) + pieces_from(t@, start as int, i as int) == pieces(t@),
        decreases t.len() - i,
    {
        if t[i] == '{' && t[i + 1] == '}' {
            let ghost before = r@;
            r.push((start, i));
            assert(int_ranges(r@) =~= int_ranges(before) + seq![(start as int, i as int)]);
            i = i + 2;
            start = i;
        } else {
            i = i + 1;
        }
    }
    let ghost before = r@;
    r.push((start, t.len()));
    assert(int_ranges(r@) =~= int_ranges(before) + seq![(start as int, t@.len() as int)]);
    r
}

} // verus!
