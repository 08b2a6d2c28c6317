//! The editor state as a mathematical value, and each editing operation as a
//! function on it. The executable operations are specified against these.

use crate::scroll::{
    lemma_anchor_bounds, lemma_anchor_shows_cursor, scroll_anchor, window_fits, Viewport,
};
use vstd::prelude::*;

verus! {

/// The document with its cursor and scroll anchor. `col` counts characters,
/// not display columns; the position one past the last character of a line is
/// the end of that line.
#[verifier::ext_equal]
pub struct EditorState {
    pub lines: Seq<Seq<char>>,
    pub row: nat,
    pub col: nat,
    pub top: nat,
}

impl EditorState {
    /// The buffer holds at least one line and the cursor stands inside it.
    pub open spec fn wf(self) -> bool {
        &&& self.lines.len() >= 1
        &&& self.row < self.lines.len()
        &&& self.col <= self.lines[self.row as int].len()
    }

    /// The line under the cursor.
    pub open spec fn line(self) -> Seq<char> {
        self.lines[self.row as int]
    }

    /// The scroll anchor stands at or above the cursor.
    pub open spec fn anchored(self) -> bool {
        self.top <= self.row
    }

    /// The line under the cursor fits into the text area of `view` on its own.
    pub open spec fn cursor_line_fits(self, view: Viewport) -> bool {
        window_fits(self.lines, self.row as int, self.row as int, view)
    }

    /// The lines from the scroll anchor down to the cursor's line fit into the
    /// text area of `view`.
    pub open spec fn cursor_on_screen(self, view: Viewport) -> bool {
        self.anchored() && window_fits(self.lines, self.top as int, self.row as int, view)
    }

    /// The cursor moved to `row`, with `col` clamped to the length of that line.
    pub open spec fn at_row(self, row: nat) -> EditorState {
        let len = self.lines[row as int].len();
        EditorState { row, col: if self.col <= len { self.col } else { len }, ..self }
    }

    /// The scroll anchor recomputed for the terminal `view`.
    pub open spec fn scrolled(self, view: Viewport) -> EditorState {
        EditorState { top: scroll_anchor(self.lines, self.row, self.top, view), ..self }
    }

    /// One character to the left, never across the start of the line.
    pub open spec fn cursor_left(self, view: Viewport) -> EditorState {
        EditorState { col: if self.col > 0 { (self.col - 1) as nat } else { 0 }, ..self }.scrolled(
            view,
        )
    }

    /// One character to the right, never across the end of the line.
    pub open spec fn cursor_right(self, view: Viewport) -> EditorState {
        EditorState {
            col: if self.col < self.line().len() { self.col + 1 } else { self.line().len() },
            ..self
        }.scrolled(view)
    }

    /// One line up, if there is one.
    pub open spec fn cursor_up(self, view: Viewport) -> EditorState {
        if self.row > 0 {
            self.at_row((self.row - 1) as nat).scrolled(view)
        } else {
            self.scrolled(view)
        }
    }

    /// One line down, at most to the last line.
    pub open spec fn cursor_down(self, view: Viewport) -> EditorState {
        if self.row + 1 < self.lines.len() {
            self.at_row(self.row + 1).scrolled(view)
        } else {
            self.at_row(self.row).scrolled(view)
        }
    }

    /// The line under the cursor split at the cursor: what stood before it
    /// stays, the rest becomes the next line, and the cursor moves to the
    /// start of that line.
    pub open spec fn split_line(self) -> EditorState {
        let head = self.line().take(self.col as int);
        let tail = self.line().skip(self.col as int);
        EditorState {
            lines: self.lines.update(self.row as int, head).insert(self.row as int + 1, tail),
            row: self.row + 1,
            col: 0,
            ..self
        }
    }

    /// `c` typed at the cursor. A line feed splits the line; any other
    /// character is inserted before the cursor position, which moves past it.
    pub open spec fn insert(self, c: char, view: Viewport) -> EditorState {
        if c == '\n' {
            self.split_line().scrolled(view)
        } else {
            EditorState {
                lines: self.lines.update(self.row as int, self.line().insert(self.col as int, c)),
                col: self.col + 1,
                ..self
            }.scrolled(view)
        }
    }

    /// An empty line opened below the cursor's line, with the cursor on it.
    /// The scroll anchor stays as it is.
    pub open spec fn insert_newline(self) -> EditorState {
        EditorState {
            lines: self.lines.insert(self.row as int + 1, Seq::empty()),
            row: self.row + 1,
            col: 0,
            ..self
        }
    }

    /// `c` typed over the character under the cursor, or appended at the end
    /// of the line. Cursor and scroll anchor stay as they are.
    pub open spec fn replace(self, c: char) -> EditorState {
        let line = if self.col == self.line().len() {
            self.line().push(c)
        } else {
            self.line().update(self.col as int, c)
        };
        EditorState { lines: self.lines.update(self.row as int, line), ..self }
    }

    /// The character before the cursor removed; at the start of a line, that
    /// line joined to the end of the one above; at the start of the buffer,
    /// nothing.
    pub open spec fn backspace(self, view: Viewport) -> EditorState {
        if self.col > 0 {
            EditorState {
                lines: self.lines.update(self.row as int, self.line().remove(self.col - 1)),
                col: (self.col - 1) as nat,
                ..self
            }.scrolled(view)
        } else if self.row > 0 {
            let above = self.lines[self.row - 1];
            EditorState {
                lines: self.lines.remove(self.row as int).update(
                    self.row - 1,
                    above + self.line(),
                ),
                row: (self.row - 1) as nat,
                col: above.len(),
                ..self
            }.scrolled(view)
        } else {
            self.scrolled(view)
        }
    }
}

/// Every operation leaves at least one line in the buffer and the cursor
/// inside it.
pub proof fn lemma_operations_keep_cursor_inside(s: EditorState, c: char, view: Viewport)
    requires
        s.wf(),
    ensures
        s.scrolled(view).wf(),
        s.cursor_left(view).wf(),
        s.cursor_right(view).wf(),
        s.cursor_up(view).wf(),
        s.cursor_down(view).wf(),
        s.insert(c, view).wf(),
        s.insert_newline().wf(),
        s.replace(c).wf(),
        s.backspace(view).wf(),
{
}

/// Recomputing the scroll anchor leaves it at most one row below the cursor,
/// and at the first row when the cursor is there. If the cursor's line fits
/// into the text area on its own, the anchor comes to stand at or above the
/// cursor, with everything from the anchor down to the cursor's line on
/// screen.
pub proof fn lemma_scrolled_anchor(s: EditorState, view: Viewport)
    ensures
        s.scrolled(view).top <= s.scrolled(view).row + 1,
        s.scrolled(view).row == 0 ==> s.scrolled(view).top == 0,
        s.cursor_line_fits(view) ==> s.scrolled(view).cursor_on_screen(view),
{
    lemma_anchor_bounds(s.lines, s.row, s.top, view);
    if s.cursor_line_fits(view) {
        lemma_anchor_shows_cursor(s.lines, s.row, s.top, view);
    }
}

/// Typing a character other than a line feed and erasing it again gives back
/// the text and the cursor position.
pub proof fn lemma_insert_then_backspace(s: EditorState, c: char, typed: Viewport, erased: Viewport)
    requires
        s.wf(),
        c != '\n',
    ensures
        s.insert(c, typed).backspace(erased).lines == s.lines,
        s.insert(c, typed).backspace(erased).row == s.row,
        s.insert(c, typed).backspace(erased).col == s.col,
{
    let after = s.insert(c, typed).backspace(erased);
    assert(s.line().insert(s.col as int, c).remove(s.col as int) =~= s.line());
    assert(after.lines =~= s.lines);
}

/// Breaking a line at the cursor and erasing from the start of the new line
/// joins the two halves again and puts the cursor back where it stood.
pub proof fn lemma_break_then_backspace(s: EditorState, typed: Viewport, erased: Viewport)
    requires
        s.wf(),
    ensures
        s.insert('\n', typed).row == s.row + 1,
        s.insert('\n', typed).col == 0,
        s.insert('\n', typed).backspace(erased).lines == s.lines,
        s.insert('\n', typed).backspace(erased).row == s.row,
        s.insert('\n', typed).backspace(erased).col == s.col,
{
    let after = s.insert('\n', typed).backspace(erased);
    assert(s.line().take(s.col as int) + s.line().skip(s.col as int) =~= s.line());
    assert(after.lines =~= s.lines);
}

/// Moving the cursor down never moves the scroll anchor up, as long as the
/// anchor stood at or above the cursor.
pub proof fn lemma_down_never_scrolls_up(s: EditorState, view: Viewport)
    requires
        s.wf(),
        s.top <= s.row,
    ensures
        s.cursor_down(view).top >= s.top,
        s.cursor_down(view).row >= s.row,
{
    let row = s.cursor_down(view).row;
    lemma_anchor_bounds(s.lines, row, s.top, view);
}

/// Moving the cursor up into the first row puts the scroll anchor there.
pub proof fn lemma_up_to_first_row_snaps(s: EditorState, view: Viewport)
    requires
        s.wf(),
    ensures
        s.row <= 1 ==> s.cursor_up(view).row == 0,
        s.cursor_up(view).row == 0 ==> s.cursor_up(view).top == 0,
{
}

} // verus!
