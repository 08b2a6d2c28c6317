//! Counting the display rows that a logical line occupies under soft wrap.

use crate::width::{advance, display_width, glyph_width, stays_in_row};
use vstd::arithmetic::div_mod::{
    lemma_div_plus_one, lemma_fundamental_div_mod, lemma_fundamental_div_mod_converse,
    lemma_mod_pos_bound,
};
use vstd::prelude::*;

verus! {

/// The display widths of the characters of `line`, in order.
pub open spec fn widths_of(line: Seq<char>) -> Seq<nat> {
    line.map_values(|c: char| glyph_width(c))
}

/// Lays glyphs of the given widths out from left to right in rows of `width`
/// columns. The result is the number of soft breaks made and the column
/// counter after the last glyph. A glyph that does not stay in its row starts
/// the next one, and the counter restarts at that glyph's width.
pub open spec fn flow(widths: Seq<nat>, width: nat) -> (nat, nat)
    decreases widths.len(),
{
    if widths.len() == 0 {
        (0, 0)
    } else {
        let (breaks, col) = flow(widths.drop_last(), width);
        let w = widths.last();
        if stays_in_row(col, w, width) {
            (breaks, col + w)
        } else {
            (breaks + 1, w)
        }
    }
}

/// The number of soft breaks in `line` when it is wrapped at `width` columns.
pub open spec fn soft_breaks(line: Seq<char>, width: nat) -> nat {
    flow(widths_of(line), width).0
}

/// The number of display rows that `line` occupies when it is wrapped at
/// `width` columns. An empty line occupies one row.
pub open spec fn wrap_rows(line: Seq<char>, width: nat) -> nat {
    1 + soft_breaks(line, width)
}

/// A line never has more soft breaks than characters.
pub proof fn lemma_breaks_bounded(widths: Seq<nat>, width: nat)
    ensures
        flow(widths, width).0 <= widths.len(),
    decreases widths.len(),
{
    if widths.len() > 0 {
        lemma_breaks_bounded(widths.drop_last(), width);
    }
}

/// A part of a line from its start has no more soft breaks than the whole
/// line, and fewer if the character that follows the part starts a new row.
pub proof fn lemma_breaks_grow(line: Seq<char>, k: int, width: nat)
    requires
        0 <= k <= line.len(),
    ensures
        soft_breaks(line.take(k), width) <= soft_breaks(line, width),
        k < line.len() && !stays_in_row(
            flow(widths_of(line.take(k)), width).1,
            glyph_width(line[k]),
            width,
        ) ==> soft_breaks(line.take(k), width) < soft_breaks(line, width),
    decreases line.len(),
{
    if k == line.len() {
        assert(line.take(k) =~= line);
    } else {
        assert(line.drop_last().take(k) =~= line.take(k));
        assert(widths_of(line).drop_last() =~= widths_of(line.drop_last()));
        lemma_breaks_grow(line.drop_last(), k, width);
    }
}

/// Counts the soft breaks of `line` at `width` columns.
pub fn count_breaks(line: &[char], width: usize) -> (breaks: usize)
    ensures
        breaks == soft_breaks(line@, width as nat),
{
    let mut x: usize = 0;
    let mut y: usize = 0;
    let mut i: usize = 0;
    while i < line.len()
        invariant
            i <= line.len(),
            y <= i,
            flow(widths_of(line@.take(i as int)), width as nat) == (y as nat, x as nat),
        decreases line.len() - i,
    {
        let w = display_width(line[i]);
        proof {
            let before = widths_of(line@.take(i as int));
            let after = widths_of(line@.take(i + 1));
            assert(after.drop_last() =~= before);
            assert(after.last() == glyph_width(line@[i as int]));
        }
        match advance(x, w, width) {
            Some(next) => {
                x = next;
            },
            None => {
                y += 1;
                x = w;
            },
        }
        i += 1;
    }
    proof {
        assert(line@.take(i as int) =~= line@);
    }
    y
}

/// The number of display rows that the line `s` occupies at `width` columns.
pub fn get_rows(s: &[char], width: usize) -> (rows: usize)
    requires
        s@.len() < usize::MAX,
    ensures
        rows == wrap_rows(s@, width as nat),
{
    proof {
        lemma_breaks_bounded(widths_of(s@), width as nat);
    }
    count_breaks(s, width) + 1
}

/// `n / d` rounded up.
pub open spec fn ceil_div(n: nat, d: nat) -> nat
    recommends
        d > 0,
{
    ((n + d - 1) / (d as int)) as nat
}

/// Glyphs of width 1 fill `width - 1` columns of every row: after `n > 0` of
/// them, `(n - 1) / (width - 1)` breaks were made and the counter stands at
/// `(n - 1) % (width - 1) + 1`.
pub proof fn lemma_flow_of_unit_widths(widths: Seq<nat>, width: nat)
    requires
        width >= 2,
        widths.len() > 0,
        forall|i: int| 0 <= i < widths.len() ==> widths[i] == 1,
    ensures
        flow(widths, width).0 == (widths.len() - 1) / (width - 1),
        flow(widths, width).1 == (widths.len() - 1) % (width - 1) + 1,
    decreases widths.len(),
{
    let d = width - 1;
    let n = widths.len() as int;
    if n == 1 {
        assert(flow(widths.drop_last(), width) == (0nat, 0nat));
        lemma_fundamental_div_mod_converse(0, d, 0, 0);
    } else {
        let rest = widths.drop_last();
        lemma_flow_of_unit_widths(rest, width);
        let q = (n - 2) / d;
        let r = (n - 2) % d;
        lemma_fundamental_div_mod(n - 2, d);
        lemma_mod_pos_bound(n - 2, d);
        assert(d * q == q * d) by (nonlinear_arith);
        if r + 1 < d {
            lemma_fundamental_div_mod_converse(n - 1, d, q, r + 1);
        } else {
            assert((q + 1) * d == q * d + d) by (nonlinear_arith);
            lemma_fundamental_div_mod_converse(n - 1, d, q + 1, 0);
        }
    }
}

/// A line of `n > 0` characters of width 1 occupies `n / (width - 1)` rows,
/// rounded up, at any width of at least two columns: the last column of a row
/// is never filled. An empty line occupies one row.
pub proof fn lemma_rows_of_narrow_glyphs(line: Seq<char>, width: nat)
    requires
        width >= 2,
        forall|i: int| 0 <= i < line.len() ==> glyph_width(#[trigger] line[i]) == 1,
    ensures
        line.len() == 0 ==> wrap_rows(line, width) == 1,
        line.len() > 0 ==> wrap_rows(line, width) == ceil_div(line.len(), (width - 1) as nat),
{
    if line.len() > 0 {
        lemma_flow_of_unit_widths(widths_of(line), width);
        lemma_div_plus_one(line.len() - 1, width - 1);
    }
}

/// At a width of one column or none, every glyph that occupies a column
/// starts a row of its own.
pub proof fn lemma_rows_without_room(line: Seq<char>, width: nat)
    requires
        width <= 1,
        forall|i: int| 0 <= i < line.len() ==> glyph_width(#[trigger] line[i]) >= 1,
    ensures
        wrap_rows(line, width) == line.len() + 1,
    decreases line.len(),
{
    if line.len() > 0 {
        lemma_rows_without_room(line.drop_last(), width);
        assert(widths_of(line).drop_last() =~= widths_of(line.drop_last()));
    }
}

} // verus!
