//! The scroll anchor: which logical row is shown at the top of the viewport
//! so that the cursor's row stays on screen.

use crate::wrap::wrap_rows;
use vstd::prelude::*;

verus! {

/// The size of the terminal in display rows and columns. The last display row
/// is reserved for the status line, so text is laid out in `rows - 1` rows.
#[derive(Debug, Clone, Copy)]
pub struct Viewport {
    pub rows: usize,
    pub cols: usize,
}

/// The number of display rows that the lines `from..to` occupy together when
/// wrapped at `width` columns.
pub open spec fn span_rows(lines: Seq<Seq<char>>, from: int, to: int, width: nat) -> nat
    decreases to - from,
{
    if from >= to {
        0
    } else {
        wrap_rows(lines[from], width) + span_rows(lines, from + 1, to, width)
    }
}

/// Whether the lines from `top` down to `row`, both included, fit into the
/// text area of `view`.
pub open spec fn window_fits(lines: Seq<Seq<char>>, top: int, row: int, view: Viewport) -> bool {
    span_rows(lines, top, row + 1, view.cols as nat) <= view.rows - 1
}

/// Moves a window start upward from `top` for as long as the window that
/// begins one line higher still fits.
pub open spec fn extend_up(lines: Seq<Seq<char>>, top: nat, row: int, view: Viewport) -> nat
    decreases top,
{
    if top > 0 && window_fits(lines, top - 1, row, view) {
        extend_up(lines, (top - 1) as nat, row, view)
    } else {
        top
    }
}

/// The highest window start from which everything down to `row` fits: the
/// least `top` such that the lines `top..=row` fit into the text area. It is
/// `row + 1` if not even the line `row` fits on its own.
pub open spec fn anchor_candidate(lines: Seq<Seq<char>>, row: nat, view: Viewport) -> nat {
    extend_up(lines, row + 1, row as int, view)
}

/// The scroll anchor after the cursor came to stand in `row` while the anchor
/// was `top`. An anchor at or below the cursor snaps to the cursor's row.
/// Otherwise the anchor moves down just far enough for the cursor's row to
/// fit, and never up.
pub open spec fn scroll_anchor(lines: Seq<Seq<char>>, row: nat, top: nat, view: Viewport) -> nat {
    if top >= row {
        row
    } else {
        let candidate = anchor_candidate(lines, row, view);
        if candidate >= top {
            candidate
        } else {
            top
        }
    }
}

/// A window that starts lower holds fewer display rows.
pub proof fn lemma_span_shrinks(lines: Seq<Seq<char>>, from: int, mid: int, to: int, width: nat)
    requires
        from <= mid,
    ensures
        span_rows(lines, mid, to, width) <= span_rows(lines, from, to, width),
        from < mid <= to ==> span_rows(lines, mid, to, width) < span_rows(lines, from, to, width),
    decreases mid - from,
{
    if from < mid {
        lemma_span_shrinks(lines, from + 1, mid, to, width);
    }
}

/// The rows of a window are those of the window without its last line, and
/// those of that line.
pub proof fn lemma_span_ends(lines: Seq<Seq<char>>, from: int, to: int, width: nat)
    requires
        from < to,
    ensures
        span_rows(lines, from, to, width) == span_rows(lines, from, to - 1, width) + wrap_rows(
            lines[to - 1],
            width,
        ),
    decreases to - from,
{
    if from + 1 < to {
        lemma_span_ends(lines, from + 1, to, width);
    } else {
        assert(span_rows(lines, from + 1, to, width) == 0);
        assert(span_rows(lines, from, to - 1, width) == 0);
    }
}

/// What `extend_up` reaches from `top`: a start no lower than `top`, from
/// which every start up to `top` fits if `top` itself did, and above which
/// nothing fits.
pub proof fn lemma_extend_up(lines: Seq<Seq<char>>, top: nat, row: int, view: Viewport)
    requires
        top <= row + 1,
    ensures
        extend_up(lines, top, row, view) <= top,
        forall|t: int|
            extend_up(lines, top, row, view) <= t < top ==> window_fits(lines, t, row, view),
        forall|t: int|
            0 <= t < extend_up(lines, top, row, view) ==> !window_fits(lines, t, row, view),
    decreases top,
{
    let reached = extend_up(lines, top, row, view);
    if top > 0 && window_fits(lines, top - 1, row, view) {
        lemma_extend_up(lines, (top - 1) as nat, row, view);
    } else {
        assert forall|t: int| 0 <= t < reached implies !window_fits(lines, t, row, view) by {
            lemma_span_shrinks(lines, t, top - 1, row + 1, view.cols as nat);
        }
    }
}

/// The candidate is the least window start from which the lines down to `row`
/// fit into the text area.
pub proof fn lemma_candidate_is_least(lines: Seq<Seq<char>>, row: nat, view: Viewport)
    ensures
        anchor_candidate(lines, row, view) <= row + 1,
        forall|t: int|
            anchor_candidate(lines, row, view) <= t <= row ==> window_fits(lines, t, row as int, view),
        forall|t: int|
            0 <= t < anchor_candidate(lines, row, view) ==> !window_fits(
                lines,
                t,
                row as int,
                view,
            ),
{
    lemma_extend_up(lines, row + 1, row as int, view);
}

/// If the cursor's line fits into the text area on its own, the anchor is at
/// or above the cursor's row, and everything from the anchor down to the
/// cursor's row fits.
pub proof fn lemma_anchor_shows_cursor(lines: Seq<Seq<char>>, row: nat, top: nat, view: Viewport)
    requires
        window_fits(lines, row as int, row as int, view),
    ensures
        scroll_anchor(lines, row, top, view) <= row,
        window_fits(lines, scroll_anchor(lines, row, top, view) as int, row as int, view),
{
    lemma_candidate_is_least(lines, row, view);
}

/// The anchor never stands more than one row below the cursor, and with the
/// cursor in the first row it is the first row.
pub proof fn lemma_anchor_bounds(lines: Seq<Seq<char>>, row: nat, top: nat, view: Viewport)
    ensures
        scroll_anchor(lines, row, top, view) <= row + 1,
        row == 0 ==> scroll_anchor(lines, row, top, view) == 0,
        top <= row ==> scroll_anchor(lines, row, top, view) >= top,
{
    lemma_candidate_is_least(lines, row, view);
}

} // verus!
