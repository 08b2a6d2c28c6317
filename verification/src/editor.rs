//! The editor state: the text buffer, the cursor in it and the scroll anchor,
//! with the editing and navigation operations.

use crate::scroll::{anchor_candidate, extend_up, span_rows, Viewport};
use crate::state::{lemma_down_never_scrolls_up, lemma_scrolled_anchor, EditorState};
use crate::wrap::{count_breaks, wrap_rows};
use vstd::prelude::*;

verus! {

/// A position in the text: a line, and a character index in that line.
#[derive(Debug, Clone, Copy, PartialEq, Eq, Structural)]
pub struct Cursor {
    pub row: usize,
    pub col: usize,
}

/// The text as a sequence of lines, the cursor, and the logical row shown at
/// the top of the viewport.
#[derive(Debug)]
pub struct Core {
    pub buffer: Vec<Vec<char>>,
    pub cursor: Cursor,
    pub row_offset: usize,
}

impl View for Core {
    type V = EditorState;

    open spec fn view(&self) -> EditorState {
        EditorState {
            lines: self.buffer@.map_values(|line: Vec<char>| line@),
            row: self.cursor.row as nat,
            col: self.cursor.col as nat,
            top: self.row_offset as nat,
        }
    }
}

/// The display rows in use once `line` is added to a window that holds `used`
/// rows already, or `None` if the text area of `view` has no room for it.
fn rows_with_line(line: &[char], used: usize, view: Viewport) -> (total: Option<usize>)
    ensures
        used + wrap_rows(line@, view.cols as nat) <= view.rows - 1 ==> total == Some(
            (used + wrap_rows(line@, view.cols as nat)) as usize,
        ),
        used + wrap_rows(line@, view.cols as nat) > view.rows - 1 ==> total is None,
{
    let breaks = count_breaks(line, view.cols);
    if view.rows >= 2 && used <= view.rows - 2 && breaks <= view.rows - 2 - used {
        Some(used + breaks + 1)
    } else {
        None
    }
}

impl Core {
    /// The buffer holds at least one line and the cursor stands inside it.
    pub open spec fn wf(&self) -> bool {
        self@.wf()
    }

    /// An empty buffer: one line without characters, the cursor at its start.
    pub fn new() -> (core: Core)
        ensures
            core@ == (EditorState { lines: seq![Seq::<char>::empty()], row: 0, col: 0, top: 0 }),
            core.wf(),
    {
        let mut buffer: Vec<Vec<char>> = Vec::new();
        buffer.push(Vec::new());
        let core = Core { buffer, cursor: Cursor { row: 0, col: 0 }, row_offset: 0 };
        proof {
            assert(core@.lines =~= seq![Seq::<char>::empty()]);
        }
        core
    }

    /// Tests whether the buffer holds at least one line and the cursor stands
    /// inside it, which every operation asks of the state it starts from.
    pub fn is_valid(&self) -> (ok: bool)
        ensures
            ok == self.wf(),
    {
        self.cursor.row < self.buffer.len() && self.cursor.col
            <= self.buffer[self.cursor.row].len()
    }

    /// Recomputes the scroll anchor for a terminal of size `view`, so that the
    /// cursor's row is on screen.
    pub fn set_offset(&mut self, view: Viewport)
        requires
            old(self).wf(),
        ensures
            final(self)@ == old(self)@.scrolled(view),
            final(self).buffer == old(self).buffer,
            final(self).wf(),
            old(self)@.cursor_line_fits(view) ==> final(self)@.cursor_on_screen(view),
    {
        proof {
            lemma_scrolled_anchor(old(self)@, view);
        }
        if self.row_offset >= self.cursor.row {
            self.row_offset = self.cursor.row;
        } else {
            let ghost lines = self@.lines;
            let row = self.cursor.row;
            assert(row < self.buffer.len());
            let mut i: usize = row + 1;
            let mut used: usize = 0;
            while i > 0
                invariant
                    *self == *old(self),
                    lines == self@.lines,
                    row == self.cursor.row,
                    row < self.buffer.len(),
                    i <= row + 1,
                    used == span_rows(lines, i as int, row + 1, view.cols as nat),
                    extend_up(lines, i as nat, row as int, view) == anchor_candidate(
                        lines,
                        row as nat,
                        view,
                    ),
                ensures
                    i == anchor_candidate(lines, row as nat, view),
                decreases i,
            {
                match rows_with_line(self.buffer[i - 1].as_slice(), used, view) {
                    Some(total) => {
                        used = total;
                        i -= 1;
                    },
                    None => {
                        break ;
                    },
                }
            }
            if i > self.row_offset {
                self.row_offset = i;
            }
        }
    }

    /// Moves the cursor one character to the left; at the start of a line it
    /// stays.
    pub fn cursor_left(&mut self, view: Viewport)
        requires
            old(self).wf(),
        ensures
            final(self)@ == old(self)@.cursor_left(view),
            final(self).wf(),
    {
        if self.cursor.col != 0 {
            self.cursor.col -= 1;
        }
        self.set_offset(view);
    }

    /// Moves the cursor one character to the right; at the end of a line it
    /// stays.
    pub fn cursor_right(&mut self, view: Viewport)
        requires
            old(self).wf(),
        ensures
            final(self)@ == old(self)@.cursor_right(view),
            final(self).wf(),
    {
        if self.cursor.col < self.buffer[self.cursor.row].len() {
            self.cursor.col += 1;
        }
        self.set_offset(view);
    }

    /// Moves the cursor one line up, keeping its column if the line is long
    /// enough and going to the end of the line if not; in the first line it
    /// stays.
    pub fn cursor_up(&mut self, view: Viewport)
        requires
            old(self).wf(),
        ensures
            final(self)@ == old(self)@.cursor_up(view),
            final(self).wf(),
    {
        if self.cursor.row != 0 {
            self.cursor.row -= 1;
            let len = self.buffer[self.cursor.row].len();
            if self.cursor.col > len {
                self.cursor.col = len;
            }
        }
        self.set_offset(view);
    }

    /// Moves the cursor one line down, keeping its column if the line is long
    /// enough and going to the end of the line if not; in the last line only
    /// the column is clamped.
    pub fn cursor_down(&mut self, view: Viewport)
        requires
            old(self).wf(),
        ensures
            final(self)@ == old(self)@.cursor_down(view),
            final(self).wf(),
            old(self).row_offset <= old(self).cursor.row ==> final(self).row_offset >= old(
                self,
            ).row_offset,
    {
        if self.cursor.row < self.buffer.len() - 1 {
            self.cursor.row += 1;
        }
        let len = self.buffer[self.cursor.row].len();
        if self.cursor.col > len {
            self.cursor.col = len;
        }
        proof {
            if old(self).row_offset <= old(self).cursor.row {
                lemma_down_never_scrolls_up(old(self)@, view);
            }
        }
        self.set_offset(view);
    }

    /// Types `c` at the cursor. A line feed splits the line at the cursor and
    /// puts the cursor at the start of the second half; any other character is
    /// inserted and the cursor moves past it.
    pub fn insert(&mut self, c: char, view: Viewport)
        requires
            old(self).wf(),
        ensures
            final(self)@ == old(self)@.insert(c, view),
            final(self).wf(),
    {
        let ghost before = self@;
        assert(self.cursor.row < self.buffer.len());
        if c == '\n' {
            let rest = self.buffer[self.cursor.row].split_off(self.cursor.col);
            self.buffer.insert(self.cursor.row + 1, rest);
            self.cursor.row += 1;
            self.cursor.col = 0;
            proof {
                assert(self@.lines =~= before.split_line().lines);
            }
        } else {
            self.buffer[self.cursor.row].insert(self.cursor.col, c);
            assert(self.cursor.col < self.buffer[self.cursor.row as int].len());
            self.cursor.col += 1;
            proof {
                assert(self@.lines =~= before.lines.update(
                    before.row as int,
                    before.line().insert(before.col as int, c),
                ));
            }
        }
        self.set_offset(view);
    }

    /// Opens an empty line below the cursor's line and puts the cursor on it.
    /// The scroll anchor is left as it is.
    pub fn insert_newline(&mut self)
        requires
            old(self).wf(),
        ensures
            final(self)@ == old(self)@.insert_newline(),
            final(self).wf(),
    {
        assert(self.cursor.row < self.buffer.len());
        self.buffer.insert(self.cursor.row + 1, Vec::new());
        self.cursor.row += 1;
        self.cursor.col = 0;
        proof {
            assert(self@.lines =~= old(self)@.insert_newline().lines);
        }
    }

    /// Types `c` over the character under the cursor, or appends it if the
    /// cursor is at the end of the line. The cursor does not move.
    pub fn replace(&mut self, c: char)
        requires
            old(self).wf(),
        ensures
            final(self)@ == old(self)@.replace(c),
            final(self).wf(),
    {
        if self.cursor.col == self.buffer[self.cursor.row].len() {
            self.buffer[self.cursor.row].push(c);
        } else {
            self.buffer[self.cursor.row][self.cursor.col] = c;
        }
        proof {
            assert(self@.lines =~= old(self)@.replace(c).lines);
        }
    }

    /// Erases the character before the cursor. At the start of a line, joins
    /// that line to the end of the one above and puts the cursor at the seam.
    /// At the start of the buffer nothing changes.
    pub fn backspase(&mut self, view: Viewport)
        requires
            old(self).wf(),
        ensures
            final(self)@ == old(self)@.backspace(view),
            final(self).wf(),
    {
        let ghost before = self@;
        if self.cursor.col > 0 {
            self.buffer[self.cursor.row].remove(self.cursor.col - 1);
            self.cursor.col -= 1;
            proof {
                assert(self@.lines =~= before.lines.update(
                    before.row as int,
                    before.line().remove(before.col - 1),
                ));
            }
        } else if self.cursor.row > 0 {
            let mut line = self.buffer.remove(self.cursor.row);
            self.cursor.col = self.buffer[self.cursor.row - 1].len();
            self.buffer[self.cursor.row - 1].append(&mut line);
            self.cursor.row -= 1;
            proof {
                assert(self@.lines =~= before.lines.remove(before.row as int).update(
                    before.row - 1,
                    before.lines[before.row - 1] + before.line(),
                ));
            }
        }
        self.set_offset(view);
    }
}

} // verus!
