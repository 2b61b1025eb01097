//! Draw instructions, and the picture of one streak.
//!
//! Rows and columns count from zero at the top left of the terminal.

use vstd::prelude::*;

use crate::number_streak::{NumberStreak, StreakView};
use crate::palette::Rgb;

verus! {

/// One instruction to the terminal.
#[derive(Clone, Copy, Debug, PartialEq, Eq, Structural)]
pub enum Draw {
    /// Paint `cells` blank cells in `color`, starting at the top left corner,
    /// and keep `color` as the background from then on.
    Fill { color: Rgb, cells: u32 },
    /// Blank the cell at (`row`, `col`).
    Clear { row: u16, col: u16 },
    /// Write `glyph` in `color` at (`row`, `col`).
    Glyph { row: u16, col: u16, glyph: char, color: Rgb },
}

impl Draw {
    /// Whether the instruction fits a terminal of `cols` by `rows`: a fill
    /// covers every cell, and a cell that is cleared or written lies on a
    /// row of the terminal, in a column that is neither the first nor the
    /// last.
    pub open spec fn in_bounds(self, cols: u16, rows: u16) -> bool {
        match self {
            Draw::Fill { cells, .. } => cells == cols * rows,
            Draw::Clear { row, col } => row < rows && 0 < col < cols - 1,
            Draw::Glyph { row, col, .. } => row < rows && 0 < col < cols - 1,
        }
    }

    /// Where the cursor goes for the instruction, as (column, row) counted
    /// from one: the cell itself, or the top left corner for a fill. There
    /// is no such place for a cell in the last row or column that a 16-bit
    /// coordinate can name.
    pub open spec fn spec_cursor(self) -> Option<(u16, u16)> {
        match self {
            Draw::Fill { .. } => Some((1u16, 1u16)),
            Draw::Clear { row, col } => if row < u16::MAX && col < u16::MAX {
                Some(((col + 1) as u16, (row + 1) as u16))
            } else {
                None
            },
            Draw::Glyph { row, col, .. } => if row < u16::MAX && col < u16::MAX {
                Some(((col + 1) as u16, (row + 1) as u16))
            } else {
                None
            },
        }
    }

    /// Computes where the cursor goes for the instruction, counted from one.
    pub fn cursor(&self) -> (at: Option<(u16, u16)>)
        ensures
            at == self.spec_cursor(),
    {
        match self {
            Draw::Fill { .. } => Some((1, 1)),
            Draw::Clear { row, col } => Self::one_based(*row, *col),
            Draw::Glyph { row, col, .. } => Self::one_based(*row, *col),
        }
    }

    /// Turns a cell counted from zero into (column, row) counted from one.
    fn one_based(row: u16, col: u16) -> (at: Option<(u16, u16)>)
        ensures
            at == if row < u16::MAX && col < u16::MAX {
                Some(((col + 1) as u16, (row + 1) as u16))
            } else {
                None
            },
    {
        if row < u16::MAX && col < u16::MAX {
            Some((col + 1, row + 1))
        } else {
            None
        }
    }
}

/// The row `rhs` rows above `lhs` in a terminal of `row_limit` rows, going
/// round from the top to the bottom.
pub open spec fn wrapped_row(row_limit: int, lhs: int, rhs: int) -> int {
    if lhs >= rhs {
        lhs - rhs
    } else {
        row_limit + lhs - rhs
    }
}

/// The instruction that writes the glyph `offset` rows behind the head.
pub open spec fn trail_cell(s: StreakView, row_limit: u16, colors: Seq<Rgb>, offset: int) -> Draw {
    Draw::Glyph {
        row: wrapped_row(row_limit as int, s.row as int, offset) as u16,
        col: s.col,
        glyph: s.visible_glyph(offset),
        color: colors[offset],
    }
}

/// What there is to draw of one streak: first the cell just behind the
/// last glyph that is to be seen is blanked, then every such glyph is
/// written, from the head back, each in the colour of its distance from the
/// head. Glyphs that have faded are not drawn.
pub open spec fn frame(s: StreakView, row_limit: u16, colors: Seq<Rgb>) -> Seq<Draw> {
    seq![
        Draw::Clear {
            row: wrapped_row(row_limit as int, s.row as int, s.visible() as int) as u16,
            col: s.col,
        },
    ] + Seq::new(s.visible(), |j: int| trail_cell(s, row_limit, colors, j))
}

/// Computes the row `rhs` rows above `lhs`, wrapping round a terminal of
/// `row_limit` rows.
pub fn wrapping_row_div(row_limit: u16, lhs: u16, rhs: u16) -> (row: u16)
    requires
        lhs < rhs ==> rhs - lhs <= row_limit,
    ensures
        row == wrapped_row(row_limit as int, lhs as int, rhs as int),
        lhs < row_limit ==> row < row_limit,
{
    if lhs >= rhs {
        lhs - rhs
    } else {
        row_limit - (rhs - lhs)
    }
}

/// Appends the picture of `streak` to `out`.
pub fn render(streak: &NumberStreak, row_limit: u16, colors: &Vec<Rgb>, out: &mut Vec<Draw>)
    requires
        streak.inv(),
        streak@.visible() <= colors@.len(),
        streak@.visible() <= row_limit,
    ensures
        final(out)@ == old(out)@ + frame(streak@, row_limit, colors@),
{
    let len = streak.visible();
    let first = streak.faded();
    let col = streak.col();
    let head = streak.row();
    let ghost before = out@;
    let ghost picture = frame(streak@, row_limit, colors@);
    out.push(Draw::Clear { row: wrapping_row_div(row_limit, head, len as u16), col });
    assert(picture.len() == len + 1);
    assert(out@ =~= before + picture.take(1));
    let mut jdx: usize = 0;
    while jdx < len
        invariant
            streak.inv(),
            len == streak@.visible(),
            first == streak@.death,
            first + len == streak@.growth(),
            streak@.max_len() <= usize::MAX,
            len <= colors@.len(),
            len <= row_limit,
            col == streak@.col,
            head == streak@.row,
            jdx <= len,
            picture == frame(streak@, row_limit, colors@),
            picture.len() == len + 1,
            out@ == before + picture.take(jdx + 1),
        decreases len - jdx,
    {
        let row = wrapping_row_div(row_limit, head, jdx as u16);
        let glyph = streak.index(first + jdx);
        let color = colors[jdx];
        out.push(Draw::Glyph { row, col, glyph, color });
        assert(out@ =~= before + picture.take(jdx + 2));
        jdx += 1;
    }
    assert(picture.take(len + 1) =~= picture);
}

/// Wrapping keeps a row inside the terminal: for a head row below
/// `row_limit` and an offset of at most `row_limit`, the result is a row of
/// the terminal.
pub proof fn lemma_wrapped_row_in_bounds(row_limit: int, lhs: int, rhs: int)
    requires
        0 <= lhs < row_limit,
        0 <= rhs <= row_limit,
    ensures
        0 <= wrapped_row(row_limit, lhs, rhs) < row_limit,
{
}

/// An instruction that fits a terminal has a place for the cursor.
pub proof fn lemma_in_bounds_has_cursor(draw: Draw, cols: u16, rows: u16)
    requires
        draw.in_bounds(cols, rows),
    ensures
        draw.spec_cursor().is_some(),
{
}

/// The picture of a streak stays inside the terminal: if the head is on a
/// row of the terminal, the glyphs to be seen are no more than the terminal
/// has rows, and the column is an inner one, every instruction of the
/// picture fits.
pub proof fn lemma_frame_in_bounds(s: StreakView, cols: u16, rows: u16, colors: Seq<Rgb>, i: int)
    requires
        s.row < rows,
        s.visible() <= rows,
        0 < s.col < cols - 1,
        0 <= i < frame(s, rows, colors).len(),
    ensures
        frame(s, rows, colors).len() == s.visible() + 1,
        frame(s, rows, colors)[i].in_bounds(cols, rows),
{
    lemma_wrapped_row_in_bounds(rows as int, s.row as int, s.visible() as int);
    if i > 0 {
        lemma_wrapped_row_in_bounds(rows as int, s.row as int, i - 1);
        assert(frame(s, rows, colors)[i] == trail_cell(s, rows, colors, i - 1));
    }
}

} // verus!
