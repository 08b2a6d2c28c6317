//! Display widths of characters, and the rule that decides whether a glyph
//! still fits into the current display row.

use unicode_width::UnicodeWidthChar;
use vstd::prelude::*;

verus! {

/// What `unicode_width::UnicodeWidthChar::width` returns for `c`: the number
/// of terminal columns the character occupies, or `None` for a control
/// character. The value comes from the Unicode tables compiled into that
/// crate and is not proved here.
pub uninterp spec fn unicode_char_width(c: char) -> Option<usize>;

/// The number of columns `c` occupies on screen; a character without a
/// defined width occupies none.
pub open spec fn glyph_width(c: char) -> nat {
    match unicode_char_width(c) {
        Some(w) => w as nat,
        None => 0,
    }
}

/// Calls `unicode_width::UnicodeWidthChar::width` on `c`. Trusted: the result
/// is the table lookup named by [`unicode_char_width`], a function of `c`
/// alone.
#[verifier::external_body]
fn char_width(c: char) -> (w: Option<usize>)
    ensures
        w == unicode_char_width(c),
{
    UnicodeWidthChar::width(c)
}

/// The display width of `c` in columns, with 0 for a character that has none.
pub fn display_width(c: char) -> (w: usize)
    ensures
        w == glyph_width(c),
{
    char_width(c).unwrap_or(0)
}

/// The boundary rule of soft wrapping: a glyph of `w` columns placed at column
/// `col` stays in a row of `width` columns only if it ends strictly before the
/// last column.
pub open spec fn stays_in_row(col: nat, w: nat, width: nat) -> bool {
    col + w < width
}

/// Decides where the column counter stands after a glyph of `w` columns is
/// placed at `col`: `Some(col + w)` if it stays in the row, `None` if it has to
/// start a new one.
pub fn advance(col: usize, w: usize, width: usize) -> (next: Option<usize>)
    ensures
        stays_in_row(col as nat, w as nat, width as nat) ==> next == Some((col + w) as usize),
        !stays_in_row(col as nat, w as nat, width as nat) ==> next is None,
{
    if w < width && col < width - w {
        Some(col + w)
    } else {
        None
    }
}

} // verus!
