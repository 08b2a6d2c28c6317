//! Laying the visible part of the text out on a grid, and finding the place
//! of the cursor on it.

use crate::draw::{
    coordinates, lemma_fed_lines_stay_closed, lemma_locate_past_closed, DrawBuffer, Grid,
};
use crate::editor::{Core, Cursor};
use crate::scroll::{lemma_span_ends, span_rows, Viewport};
use crate::state::EditorState;
use crate::wrap::{flow, lemma_breaks_grow, soft_breaks, widths_of};
use vstd::prelude::*;

verus! {

impl EditorState {
    /// The lines from the scroll anchor on: what the viewport shows.
    pub open spec fn window(self) -> Seq<Seq<char>> {
        if self.top <= self.lines.len() {
            self.lines.skip(self.top as int)
        } else {
            Seq::empty()
        }
    }

    /// The place of the cursor on `grid` once the window is laid out on it,
    /// or `None` if the cursor is not in the part of the window that the grid
    /// has room for.
    pub open spec fn screen_cursor(self, grid: Grid) -> Option<(nat, nat)> {
        grid.locate(self.window(), self.row - self.top, self.col as int)
    }
}

impl Core {
    /// Lays the text out on `grid`, line by line from the scroll anchor on,
    /// until the text ends or the grid is full, and returns the place of the
    /// cursor on the grid.
    pub fn layout(&self, grid: &mut DrawBuffer) -> (at: Option<Cursor>)
        ensures
            final(grid)@ == old(grid)@.fed_lines(self@.window()).0,
            coordinates(at) == self@.screen_cursor(old(grid)@),
    {
        let ghost start = grid@;
        let ghost window = self@.window();
        let ghost row = self.cursor.row - self.row_offset;
        let ghost col = self.cursor.col as int;
        let top = self.row_offset;
        let n = self.buffer.len();
        let mut at: Option<Cursor> = None;
        if top >= n {
            return at;
        }
        let mut i: usize = top;
        while i < n
            invariant_except_break
                start.fed_lines(window.take(i - top)) == (grid@, true),
                i == n ==> start.fed_lines(window) == (grid@, true),
                coordinates(at) == (if row < i - top {
                    start.locate(window, row, col)
                } else {
                    None
                }),
            invariant
                top <= i <= n,
                top < n,
                n == self.buffer.len(),
                top == self.row_offset,
                window == self@.window(),
                row == self.cursor.row - self.row_offset,
                col == self.cursor.col,
            ensures
                grid@ == start.fed_lines(window).0,
                coordinates(at) == start.locate(window, row, col),
            decreases n - i,
        {
            proof {
                assert(window.take(i - top + 1).drop_last() =~= window.take(i - top));
                assert(window.take(i - top + 1).last() == self.buffer@[i as int]@);
            }
            if grid.cursor.row >= grid.buffer.len() {
                proof {
                    lemma_fed_lines_stay_closed(start, window, i - top + 1);
                    if row > i - top {
                        lemma_locate_past_closed(start, window, i - top + 1, row, col);
                    }
                }
                break ;
            }
            let mark = if self.cursor.row == i {
                Some(self.cursor.col)
            } else {
                None
            };
            let (open, place) = grid.feed(self.buffer[i].as_slice(), mark);
            if self.cursor.row == i {
                at = place;
            }
            if !open {
                proof {
                    lemma_fed_lines_stay_closed(start, window, i - top + 1);
                    if row > i - top {
                        lemma_locate_past_closed(start, window, i - top + 1, row, col);
                    }
                }
                break ;
            }
            assert(grid.cursor.row < grid.buffer.len());
            grid.newline();
            i += 1;
            proof {
                if i == n {
                    assert(window.take(i - top) =~= window);
                }
            }
        }
        at
    }
}

/// Layout and row counting agree: a line fed into a grid that stands at the
/// start of a row, and has rows enough, advances the grid by the soft breaks
/// of the line and leaves it at the column where the line ends.
pub proof fn lemma_fed_follows_flow(grid: Grid, line: Seq<char>)
    requires
        grid.col == 0,
        grid.row + soft_breaks(line, grid.width) < grid.rows.len(),
    ensures
        grid.fed(line).1,
        grid.fed(line).0.row == grid.row + soft_breaks(line, grid.width),
        grid.fed(line).0.col == flow(widths_of(line), grid.width).1,
        grid.fed(line).0.width == grid.width,
        grid.fed(line).0.rows.len() == grid.rows.len(),
    decreases line.len(),
{
    if line.len() > 0 {
        assert(widths_of(line).drop_last() =~= widths_of(line.drop_last()));
        lemma_fed_follows_flow(grid, line.drop_last());
    }
}

/// The lines `from..to`, fed into a grid that stands at the start of a row
/// and has rows enough, advance the grid by the display rows that they
/// occupy.
pub proof fn lemma_fed_lines_follow_span(grid: Grid, lines: Seq<Seq<char>>, from: int, to: int)
    requires
        0 <= from <= to <= lines.len(),
        grid.col == 0,
        grid.row + span_rows(lines, from, to, grid.width) <= grid.rows.len(),
    ensures
        grid.fed_lines(lines.subrange(from, to)).1,
        grid.fed_lines(lines.subrange(from, to)).0.row == grid.row + span_rows(
            lines,
            from,
            to,
            grid.width,
        ),
        grid.fed_lines(lines.subrange(from, to)).0.col == 0,
        grid.fed_lines(lines.subrange(from, to)).0.width == grid.width,
        grid.fed_lines(lines.subrange(from, to)).0.rows.len() == grid.rows.len(),
    decreases to - from,
{
    if from < to {
        lemma_span_ends(lines, from, to, grid.width);
        assert(lines.subrange(from, to).drop_last() =~= lines.subrange(from, to - 1));
        lemma_fed_lines_follow_span(grid, lines, from, to - 1);
        lemma_fed_follows_flow(grid.fed_lines(lines.subrange(from, to - 1)).0, lines[to - 1]);
    } else {
        assert(lines.subrange(from, to) =~= Seq::<Seq<char>>::empty());
    }
}

/// The scroll anchor keeps the cursor visible: if the lines from the anchor
/// down to the cursor's line fit into the text area, the cursor has a place
/// on an empty grid of the size of the text area.
pub proof fn lemma_cursor_is_laid_out(s: EditorState, view: Viewport)
    requires
        s.wf(),
        s.cursor_on_screen(view),
    ensures
        s.screen_cursor(Grid::blank((view.rows - 1) as nat, view.cols as nat)) matches Some(at)
            && at.0 < view.rows - 1,
{
    let width = view.cols as nat;
    let blank = Grid::blank((view.rows - 1) as nat, width);
    let line = s.line();
    let col = s.col as int;
    lemma_span_ends(s.lines, s.top as int, s.row as int + 1, width);
    lemma_fed_lines_follow_span(blank, s.lines, s.top as int, s.row as int);
    assert(s.window().take(s.row - s.top) =~= s.lines.subrange(s.top as int, s.row as int));
    let grid = blank.fed_lines(s.window().take(s.row - s.top)).0;
    lemma_breaks_grow(line, col, width);
    lemma_fed_follows_flow(grid, line.take(col));
}

} // verus!
