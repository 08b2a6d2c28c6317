//! Soft-wrap layout: characters are fed one by one into a grid of display
//! rows of fixed width, and each is reported with the place it was given.

use crate::editor::Cursor;
use crate::width::{advance, display_width, glyph_width, stays_in_row};
use vstd::prelude::*;

verus! {

/// The grid as a mathematical value: the characters of each display row, and
/// the place where the next character goes. `row` equal to the number of rows
/// or more means that the grid is full.
#[verifier::ext_equal]
pub struct Grid {
    pub width: nat,
    pub rows: Seq<Seq<char>>,
    pub row: nat,
    pub col: nat,
}

impl Grid {
    /// A grid of `height` empty rows.
    pub open spec fn blank(height: nat, width: nat) -> Grid {
        Grid { width, rows: Seq::new(height, |i: int| Seq::<char>::empty()), row: 0, col: 0 }
    }

    /// The place that a glyph of `w` columns is given: the current one if the
    /// glyph stays in the row, else the start of the next row, if there is a
    /// next row. `None` if the grid has no room for the glyph.
    pub open spec fn slot(self, w: nat) -> Option<(nat, nat)> {
        if self.row >= self.rows.len() {
            None
        } else if stays_in_row(self.col, w, self.width) {
            Some((self.row, self.col))
        } else if self.row + 1 >= self.rows.len() {
            None
        } else {
            Some((self.row + 1, 0nat))
        }
    }

    /// The grid after the character `c` of `w` columns was fed into it. With
    /// no room for it the grid stays as it is.
    pub open spec fn put(self, c: char, w: nat) -> Grid {
        match self.slot(w) {
            Some((row, col)) => Grid {
                rows: self.rows.update(row as int, self.rows[row as int].push(c)),
                row,
                col: col + w,
                ..self
            },
            None => self,
        }
    }

    /// The grid after a forced line break: the next character goes to the
    /// start of the next row.
    pub open spec fn newline(self) -> Grid {
        Grid { row: self.row + 1, col: 0, ..self }
    }

    /// The rows as one text, see [`join_rows`].
    pub open spec fn text(self) -> Seq<char> {
        join_rows(self.rows)
    }

    /// Whether the next character goes to a row that the grid has.
    pub open spec fn has_room(self) -> bool {
        self.row < self.rows.len()
    }

    /// The grid after the characters of `chars` were fed into it in order, up
    /// to the first that found no room, and whether all of them found room.
    pub open spec fn fed(self, chars: Seq<char>) -> (Grid, bool)
        decreases chars.len(),
    {
        if chars.len() == 0 {
            (self, true)
        } else {
            let (grid, open) = self.fed(chars.drop_last());
            let w = glyph_width(chars.last());
            if open && grid.slot(w) is Some {
                (grid.put(chars.last(), w), true)
            } else {
                (grid, false)
            }
        }
    }

    /// The grid after a logical line was fed into it and closed with a line
    /// break, and whether the whole line found room. A grid without room
    /// stays as it is, and a line that does not fit is not closed.
    pub open spec fn fed_line(self, line: Seq<char>) -> (Grid, bool) {
        if !self.has_room() {
            (self, false)
        } else {
            let (grid, open) = self.fed(line);
            if open {
                (grid.newline(), true)
            } else {
                (grid, false)
            }
        }
    }

    /// The grid after the logical lines `lines` were fed into it in order, up
    /// to the first that did not fit, and whether all of them fitted.
    pub open spec fn fed_lines(self, lines: Seq<Seq<char>>) -> (Grid, bool)
        decreases lines.len(),
    {
        if lines.len() == 0 {
            (self, true)
        } else {
            let (grid, open) = self.fed_lines(lines.drop_last());
            if open {
                grid.fed_line(lines.last())
            } else {
                (grid, false)
            }
        }
    }

    /// Where the position `col` of `line` comes to stand when the line is fed
    /// into the grid: the place of the character at that position, or, at the
    /// end of the line, the place where the next character would go. `None` if
    /// a character before that position finds no room, or the character at
    /// it, or if the line has no such position.
    pub open spec fn mark(self, line: Seq<char>, col: int) -> Option<(nat, nat)> {
        let (here, fits) = self.fed(line.take(col));
        if !(0 <= col <= line.len()) || !fits {
            None
        } else if col < line.len() {
            here.slot(glyph_width(line[col]))
        } else {
            Some((here.row, here.col))
        }
    }

    /// Where the position `col` of the line `row` of `lines` comes to stand
    /// when the lines are fed into the grid. `None` if the grid is full before
    /// that position is reached, or if there is no such position.
    pub open spec fn locate(self, lines: Seq<Seq<char>>, row: int, col: int) -> Option<(nat, nat)> {
        let (grid, open) = self.fed_lines(lines.take(row));
        if 0 <= row < lines.len() && open && grid.has_room() {
            grid.mark(lines[row], col)
        } else {
            None
        }
    }
}

/// Once a character found no room, feeding more characters changes nothing.
pub proof fn lemma_fed_stays_closed(grid: Grid, chars: Seq<char>, k: int)
    requires
        0 <= k <= chars.len(),
        !grid.fed(chars.take(k)).1,
    ensures
        grid.fed(chars) == (grid.fed(chars.take(k)).0, false),
    decreases chars.len(),
{
    if k == chars.len() {
        assert(chars.take(k) =~= chars);
    } else {
        assert(chars.drop_last().take(k) =~= chars.take(k));
        lemma_fed_stays_closed(grid, chars.drop_last(), k);
    }
}

/// Once a line did not fit, feeding more lines changes nothing.
pub proof fn lemma_fed_lines_stay_closed(grid: Grid, lines: Seq<Seq<char>>, k: int)
    requires
        0 <= k <= lines.len(),
        !grid.fed_lines(lines.take(k)).1,
    ensures
        grid.fed_lines(lines) == (grid.fed_lines(lines.take(k)).0, false),
    decreases lines.len(),
{
    if k == lines.len() {
        assert(lines.take(k) =~= lines);
    } else {
        assert(lines.drop_last().take(k) =~= lines.take(k));
        lemma_fed_lines_stay_closed(grid, lines.drop_last(), k);
    }
}

/// A position below a line that did not fit has no place in the grid.
pub proof fn lemma_locate_past_closed(grid: Grid, lines: Seq<Seq<char>>, k: int, row: int, col: int)
    requires
        0 <= k <= lines.len(),
        !grid.fed_lines(lines.take(k)).1,
        k <= row,
    ensures
        grid.locate(lines, row, col) is None,
{
    if row < lines.len() {
        assert(lines.take(row).take(k) =~= lines.take(k));
        lemma_fed_lines_stay_closed(grid, lines.take(row), k);
    }
}

/// The characters of all rows in order, with a carriage return and a line
/// feed between two rows and none after the last.
pub open spec fn join_rows(rows: Seq<Seq<char>>) -> Seq<char>
    decreases rows.len(),
{
    if rows.len() == 0 {
        Seq::empty()
    } else if rows.len() == 1 {
        rows[0]
    } else {
        join_rows(rows.drop_last()) + seq!['\r', '\n'] + rows.last()
    }
}

/// A grid of display rows that is filled from the top left, with the place
/// where the next character goes.
#[derive(Debug)]
pub struct DrawBuffer {
    pub width: usize,
    pub buffer: Vec<Vec<char>>,
    pub cursor: Cursor,
}

impl View for DrawBuffer {
    type V = Grid;

    open spec fn view(&self) -> Grid {
        Grid {
            width: self.width as nat,
            rows: self.buffer@.map_values(|row: Vec<char>| row@),
            row: self.cursor.row as nat,
            col: self.cursor.col as nat,
        }
    }
}

/// A place in the grid as a pair of row and column.
pub open spec fn coordinates(at: Option<Cursor>) -> Option<(nat, nat)> {
    match at {
        Some(at) => Some((at.row as nat, at.col as nat)),
        None => None,
    }
}

impl DrawBuffer {
    /// An empty grid of `height` display rows of `width` columns.
    pub fn new(height: usize, width: usize) -> (grid: DrawBuffer)
        ensures
            grid@ == Grid::blank(height as nat, width as nat),
    {
        let mut buffer: Vec<Vec<char>> = Vec::new();
        let mut i: usize = 0;
        while i < height
            invariant
                i <= height,
                buffer@.len() == i,
                forall|k: int| 0 <= k < i ==> (#[trigger] buffer@[k])@ == Seq::<char>::empty(),
            decreases height - i,
        {
            buffer.push(Vec::new());
            i += 1;
        }
        let grid = DrawBuffer { width, buffer, cursor: Cursor { row: 0, col: 0 } };
        proof {
            assert(grid@.rows =~= Grid::blank(height as nat, width as nat).rows);
        }
        grid
    }

    /// Forces a line break: the next character goes to the start of the next
    /// display row.
    pub fn newline(&mut self)
        requires
            old(self).cursor.row < usize::MAX,
        ensures
            final(self)@ == old(self)@.newline(),
    {
        self.cursor.col = 0;
        self.cursor.row += 1;
    }

    /// Feeds the character `c`, which occupies `w` columns, into the grid and
    /// returns the place it was given. A character that does not stay in the
    /// current row goes to the start of the next one. Returns `None`, and
    /// changes nothing, if the grid has no room for the character.
    pub fn place(&mut self, c: char, w: usize) -> (placed: Option<Cursor>)
        ensures
            final(self)@ == old(self)@.put(c, w as nat),
            coordinates(placed) == old(self)@.slot(w as nat),
    {
        if self.cursor.row >= self.buffer.len() {
            return None;
        }
        match advance(self.cursor.col, w, self.width) {
            Some(next) => {
                let prev = self.cursor;
                self.buffer[self.cursor.row].push(c);
                self.cursor.col = next;
                proof {
                    assert(self@.rows =~= old(self)@.put(c, w as nat).rows);
                }
                Some(prev)
            },
            None => {
                if self.cursor.row + 1 >= self.buffer.len() {
                    return None;
                }
                self.cursor.row += 1;
                self.buffer[self.cursor.row].push(c);
                self.cursor.col = w;
                proof {
                    assert(self@.rows =~= old(self)@.put(c, w as nat).rows);
                }
                Some(Cursor { row: self.cursor.row, col: 0 })
            },
        }
    }

    /// Feeds the character `c` into the grid at its display width and returns
    /// the place it was given, or `None` if the grid has no room for it.
    pub fn put(&mut self, c: char) -> (placed: Option<Cursor>)
        ensures
            final(self)@ == old(self)@.put(c, glyph_width(c)),
            coordinates(placed) == old(self)@.slot(glyph_width(c)),
    {
        let w = display_width(c);
        self.place(c, w)
    }

    /// Feeds the characters of `line` into the grid in order, up to the first
    /// that finds no room. Returns whether all of them found room, and the
    /// place that the position `mark` of the line was given, see
    /// [`Grid::mark`].
    pub fn feed(&mut self, line: &[char], mark: Option<usize>) -> (fed: (bool, Option<Cursor>))
        ensures
            (final(self)@, fed.0) == old(self)@.fed(line@),
            old(self)@.has_room() ==> final(self)@.has_room(),
            coordinates(fed.1) == (match mark {
                Some(col) => old(self)@.mark(line@, col as int),
                None => None,
            }),
    {
        let ghost start = self@;
        let mut at: Option<Cursor> = None;
        let mut j: usize = 0;
        proof {
            assert(line@.take(0) =~= Seq::<char>::empty());
        }
        while j < line.len()
            invariant
                j <= line.len(),
                start == old(self)@,
                start.fed(line@.take(j as int)) == (self@, true),
                start.has_room() ==> self@.has_room(),
                coordinates(at) == (match mark {
                    Some(col) if col < j => start.mark(line@, col as int),
                    _ => None,
                }),
            decreases line.len() - j,
        {
            let placed = self.put(line[j]);
            proof {
                assert(line@.take(j + 1).drop_last() =~= line@.take(j as int));
            }
            if mark == Some(j) {
                at = placed;
            }
            if placed.is_none() {
                proof {
                    lemma_fed_stays_closed(start, line@, j + 1);
                    if let Some(col) = mark {
                        if j < col <= line@.len() {
                            assert(line@.take(col as int).take(j + 1) =~= line@.take(j + 1));
                            lemma_fed_stays_closed(start, line@.take(col as int), j + 1);
                        }
                    }
                }
                return (false, at);
            }
            j += 1;
        }
        proof {
            assert(line@.take(j as int) =~= line@);
        }
        if mark == Some(j) {
            at = Some(self.cursor);
        }
        (true, at)
    }

    /// Appends the text of the grid to `out`: the characters of each display
    /// row as they are, with a carriage return and a line feed between two
    /// rows and none after the last.
    pub fn draw(&self, out: &mut Vec<char>)
        ensures
            final(out)@ == old(out)@ + self@.text(),
    {
        let ghost rows = self@.rows;
        let ghost sep = seq!['\r', '\n'];
        let n = self.buffer.len();
        let mut i: usize = 0;
        while i < n
            invariant
                i <= n,
                n == self.buffer.len(),
                rows == self@.rows,
                sep == seq!['\r', '\n'],
                out@ == old(out)@ + join_rows(rows.take(i as int)) + (if 0 < i < n {
                    sep
                } else {
                    Seq::empty()
                }),
            decreases n - i,
        {
            let ghost base = out@;
            let line = &self.buffer[i];
            let mut j: usize = 0;
            while j < line.len()
                invariant
                    j <= line.len(),
                    out@ == base + line@.take(j as int),
                decreases line.len() - j,
            {
                out.push(line[j]);
                proof {
                    assert(line@.take(j + 1) =~= line@.take(j as int).push(line@[j as int]));
                }
                j += 1;
            }
            proof {
                assert(line@.take(j as int) =~= line@);
                assert(rows.take(i + 1).drop_last() =~= rows.take(i as int));
                assert(rows.take(i + 1).last() == line@);
                assert(out@ =~= old(out)@ + join_rows(rows.take(i + 1)));
            }
            if i != n - 1 {
                out.push('\r');
                out.push('\n');
                proof {
                    assert(out@ =~= old(out)@ + join_rows(rows.take(i + 1)) + sep);
                }
            }
            i += 1;
        }
        proof {
            assert(rows.take(i as int) =~= rows);
        }
    }
}

} // verus!
