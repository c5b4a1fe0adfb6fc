//! What the embedded terminal paints for its grid: one paint record per
//! visible cell, one for the cursor, and the grid's size in cells.
use crate::terminal::{background, resolve_color, resolve_spec, Rgb8, TermColor, BOLD_BRIGHT};
use vstd::prelude::*;

verus! {

/// One cell of the emulator's display, with its viewport position (`line`
/// is negative for scrollback above the screen).
#[derive(Clone, Copy, Debug)]
pub struct GridCell {
    pub line: i32,
    pub col: usize,
    pub c: char,
    pub fg: TermColor,
    pub bg: TermColor,
    pub inverse: bool,
    pub bold: bool,
    pub hidden: bool,
    pub underline: bool,
}

/// A character drawn in a colour.
#[derive(Clone, Copy, Debug, PartialEq, Eq, Structural)]
pub struct Glyph {
    pub c: char,
    pub color: Rgb8,
}

/// What to paint in one cell: a background fill unless it is the
/// terminal's own background, the glyph and its colour unless hidden or a
/// space, and an underline in the glyph colour.
#[derive(Clone, Copy, Debug, PartialEq, Eq, Structural)]
pub struct CellPaint {
    pub col: usize,
    pub line: usize,
    pub fill: Option<Rgb8>,
    pub glyph: Option<Glyph>,
    pub underline: Option<Rgb8>,
}

/// Whether a cell lies in the visible `cols` × `rows` grid.
pub open spec fn on_screen(cell: GridCell, cols: usize, rows: usize) -> bool {
    0 <= cell.line && cell.col < cols && cell.line < rows
}

/// Foreground and background of a cell: bold text in the bright variant,
/// inverse video swapping the two.
pub open spec fn cell_colors(cell: GridCell) -> (Rgb8, Rgb8) {
    let fg = resolve_spec(cell.fg, cell.bold && BOLD_BRIGHT);
    let bg = resolve_spec(cell.bg, false);
    if cell.inverse {
        (bg, fg)
    } else {
        (fg, bg)
    }
}

pub open spec fn paint_spec(cell: GridCell) -> CellPaint {
    let (fg, bg) = cell_colors(cell);
    CellPaint {
        col: cell.col,
        line: cell.line as usize,
        fill: if bg != background() {
            Some(bg)
        } else {
            None
        },
        glyph: if !cell.hidden && cell.c != ' ' {
            Some(Glyph { c: cell.c, color: fg })
        } else {
            None
        },
        underline: if cell.underline {
            Some(fg)
        } else {
            None
        },
    }
}

/// The paint records of the visible cells, in display order.
pub open spec fn paints_spec(cells: Seq<GridCell>, cols: usize, rows: usize) -> Seq<CellPaint>
    decreases cells.len(),
{
    if cells.len() == 0 {
        Seq::empty()
    } else {
        let rest = paints_spec(cells.drop_last(), cols, rows);
        if on_screen(cells.last(), cols, rows) {
            rest.push(paint_spec(cells.last()))
        } else {
            rest
        }
    }
}

fn paint_cell(cell: &GridCell) -> (p: CellPaint)
    requires
        0 <= cell.line,
    ensures
        p == paint_spec(*cell),
{
    let fg0 = resolve_color(cell.fg, cell.bold && BOLD_BRIGHT);
    let bg0 = resolve_color(cell.bg, false);
    let (fg, bg) = if cell.inverse {
        (bg0, fg0)
    } else {
        (fg0, bg0)
    };
    let is_background = bg.r == 0x08 && bg.g == 0x08 && bg.b == 0x0a;
    CellPaint {
        col: cell.col,
        line: cell.line as usize,
        fill: if !is_background {
            Some(bg)
        } else {
            None
        },
        glyph: if !cell.hidden && cell.c != ' ' {
            Some(Glyph { c: cell.c, color: fg })
        } else {
            None
        },
        underline: if cell.underline {
            Some(fg)
        } else {
            None
        },
    }
}

/// Paint records for the cells that fall in the visible grid; the others
/// (scrollback, or beyond a grid just shrunk) are skipped.
pub fn paint_cells(cells: &Vec<GridCell>, cols: usize, rows: usize) -> (r: Vec<CellPaint>)
    ensures
        r@ == paints_spec(cells@, cols, rows),
{
    let mut r: Vec<CellPaint> = Vec::new();
    let mut i: usize = 0;
    while i < cells.len()
        invariant
            i <= cells.len(),
            r@ == paints_spec(cells@.subrange(0, i as int), cols, rows),
        decreases cells.len() - i,
    {
        let cell = &cells[i];
        assert(cells@.subrange(0, i + 1).drop_last() =~= cells@.subrange(0, i as int));
        if 0 <= cell.line && cell.col < cols && (cell.line as usize) < rows {
            r.push(paint_cell(cell));
        }
        i += 1;
    }
    assert(cells@.subrange(0, cells.len() as int) =~= cells@);
    r
}

/// The cursor shapes a terminal asks for.
#[derive(Clone, Copy, Debug, PartialEq, Eq, Structural)]
pub enum CursorShape {
    Block,
    Underline,
    Beam,
    HollowBlock,
    Hidden,
}

/// How the cursor is drawn: a line under the cell, a bar at its left edge,
/// a filled block with the character under it redrawn in the background
/// colour (the terminal has keyboard focus), or a hollow outline.
#[derive(Clone, Copy, Debug, PartialEq, Eq, Structural)]
pub enum CursorMark {
    Underline,
    Beam,
    Filled { glyph: Option<char> },
    Outline,
}

/// The cursor's paint: where, and how; nothing when it is hidden or off the
/// visible grid.
pub open spec fn cursor_spec(
    line: i32,
    col: usize,
    shape: CursorShape,
    under: char,
    cols: usize,
    rows: usize,
    has_focus: bool,
) -> Option<(usize, usize, CursorMark)> {
    if line < 0 || col >= cols || line >= rows || shape == CursorShape::Hidden {
        None
    } else {
        let mark = match shape {
            CursorShape::Underline => CursorMark::Underline,
            CursorShape::Beam => CursorMark::Beam,
            _ => if has_focus {
                CursorMark::Filled {
                    glyph: if under != ' ' {
                        Some(under)
                    } else {
                        None
                    },
                }
            } else {
                CursorMark::Outline
            },
        };
        Some((col, line as usize, mark))
    }
}

/// Decide how to draw the cursor at viewport `line`, `col`, over the
/// character `under`.
pub fn cursor_paint(
    line: i32,
    col: usize,
    shape: CursorShape,
    under: char,
    cols: usize,
    rows: usize,
    has_focus: bool,
) -> (r: Option<(usize, usize, CursorMark)>)
    ensures
        r == cursor_spec(line, col, shape, under, cols, rows, has_focus),
{
    if line < 0 {
        return None;
    }
    let l = line as usize;
    if col >= cols || l >= rows {
        return None;
    }
    let mark = match shape {
        CursorShape::Hidden => {
            return None;
        },
        CursorShape::Underline => CursorMark::Underline,
        CursorShape::Beam => CursorMark::Beam,
        _ => if has_focus {
            CursorMark::Filled {
                glyph: if under != ' ' {
                    Some(under)
                } else {
                    None
                },
            }
        } else {
            CursorMark::Outline
        },
    };
    Some((col, l, mark))
}

/// What is painted for a cell: a fill in its background colour exactly when
/// that colour (after inverse video swaps the two) is not the terminal's own
/// background, whether or not the cell is inverse; its character in its
/// foreground colour unless hidden or a space; an underline in the
/// foreground colour when underlined. Bold text takes the bright variant of
/// a named foreground colour.
pub proof fn a_cell_paints_its_own_colors(cell: GridCell)
    requires
        0 <= cell.line,
    ensures
        ({
            let p = paint_spec(cell);
            let fg = resolve_spec(cell.fg, cell.bold && BOLD_BRIGHT);
            let bg = resolve_spec(cell.bg, false);
            let back = if cell.inverse { fg } else { bg };
            let front = if cell.inverse { bg } else { fg };
            &&& p.col == cell.col && p.line == cell.line
            &&& p.fill is Some <==> back != background()
            &&& p.fill is Some ==> p.fill == Some(back)
            &&& p.glyph is Some <==> !cell.hidden && cell.c != ' '
            &&& p.glyph is Some ==> p.glyph == Some(Glyph { c: cell.c, color: front })
            &&& p.underline is Some <==> cell.underline
            &&& p.underline is Some ==> p.underline == Some(front)
        }),
{
}

/// The paints are those of the on-screen cells, one each, in display order:
/// every on-screen cell is painted, and nothing else is.
pub proof fn every_visible_cell_is_painted(cells: Seq<GridCell>, cols: usize, rows: usize)
    ensures
        exists|idx: Seq<int>|
            {
                &&& #[trigger] idx.len() == paints_spec(cells, cols, rows).len()
                &&& forall|k: int|
                    0 <= k < idx.len() ==> 0 <= #[trigger] idx[k] < cells.len() && on_screen(
                        cells[idx[k]],
                        cols,
                        rows,
                    ) && paints_spec(cells, cols, rows)[k] == paint_spec(cells[idx[k]])
                &&& forall|k: int, l: int| 0 <= k < l < idx.len() ==> idx[k] < idx[l]
                &&& forall|j: int|
                    0 <= j < cells.len() && on_screen(#[trigger] cells[j], cols, rows) ==> exists|k: int|
                        0 <= k < idx.len() && idx[k] == j
            },
    decreases cells.len(),
{
    let ps = paints_spec(cells, cols, rows);
    if cells.len() == 0 {
        let idx = Seq::<int>::empty();
        assert(idx.len() == ps.len());
    } else {
        let front = cells.drop_last();
        every_visible_cell_is_painted(front, cols, rows);
        let pf = paints_spec(front, cols, rows);
        let fi = choose|idx: Seq<int>|
            {
                &&& #[trigger] idx.len() == pf.len()
                &&& forall|k: int|
                    0 <= k < idx.len() ==> 0 <= #[trigger] idx[k] < front.len() && on_screen(
                        front[idx[k]],
                        cols,
                        rows,
                    ) && pf[k] == paint_spec(front[idx[k]])
                &&& forall|k: int, l: int| 0 <= k < l < idx.len() ==> idx[k] < idx[l]
                &&& forall|j: int|
                    0 <= j < front.len() && on_screen(#[trigger] front[j], cols, rows) ==> exists|k: int|
                        0 <= k < idx.len() && idx[k] == j
            };
        let last = cells.len() - 1;
        let idx = if on_screen(cells.last(), cols, rows) { fi.push(last) } else { fi };
        assert(idx.len() == ps.len());
        assert forall|k: int| 0 <= k < idx.len() implies 0 <= #[trigger] idx[k] < cells.len() && on_screen(
            cells[idx[k]],
            cols,
            rows,
        ) && ps[k] == paint_spec(cells[idx[k]]) by {
            if k < fi.len() {
                assert(idx[k] == fi[k]);
                assert(cells[fi[k]] == front[fi[k]]);
            }
        }
        assert forall|k: int, l: int| 0 <= k < l < idx.len() implies idx[k] < idx[l] by {
            if l < fi.len() {
                assert(idx[k] == fi[k] && idx[l] == fi[l]);
            } else {
                assert(idx[k] == fi[k]);
            }
        }
        assert forall|j: int| 0 <= j < cells.len() && on_screen(#[trigger] cells[j], cols, rows) implies exists|k: int|
            0 <= k < idx.len() && idx[k] == j by {
            if j < last {
                assert(front[j] == cells[j]);
                let k = choose|k: int| 0 <= k < fi.len() && fi[k] == j;
                assert(idx[k] == j);
            } else {
                assert(idx[idx.len() - 1] == j);
            }
        }
    }
}

/// A visible cursor is drawn in the shape the application asks for: an
/// underline for `Underline` and a bar for `Beam` whether or not the
/// terminal has focus; a block (filled over the character under it with
/// focus, an outline without) for the block shapes. A hidden cursor, or one
/// off the grid, is not drawn.
pub proof fn cursor_keeps_the_asked_shape(
    line: i32,
    col: usize,
    shape: CursorShape,
    under: char,
    cols: usize,
    rows: usize,
    has_focus: bool,
)
    ensures
        ({
            let r = cursor_spec(line, col, shape, under, cols, rows, has_focus);
            let visible = 0 <= line && col < cols && line < rows && shape != CursorShape::Hidden;
            &&& !visible ==> r is None
            &&& visible ==> r is Some && r.unwrap().0 == col && r.unwrap().1 == line
            &&& visible && shape == CursorShape::Underline ==> r.unwrap().2 == CursorMark::Underline
            &&& visible && shape == CursorShape::Beam ==> r.unwrap().2 == CursorMark::Beam
            &&& visible && (shape == CursorShape::Block || shape == CursorShape::HollowBlock) && has_focus
                ==> r.unwrap().2 == CursorMark::Filled { glyph: if under == ' ' { None } else { Some(under) } }
            &&& visible && (shape == CursorShape::Block || shape == CursorShape::HollowBlock) && !has_focus
                ==> r.unwrap().2 == CursorMark::Outline
            &&& shape == CursorShape::Underline || shape == CursorShape::Beam ==> r == cursor_spec(
                line,
                col,
                shape,
                under,
                cols,
                rows,
                !has_focus,
            )
        }),
{
}

/// The terminal grid's size in cells, as last told to the pty.
#[derive(Clone, Copy, Debug, PartialEq, Eq, Structural)]
pub struct GridSize {
    pub cols: usize,
    pub rows: usize,
}

/// The grid that fits a window `fit_cols` cells wide and `fit_rows` cells
/// tall, never smaller than 4 × 2.
pub fn fit_grid(fit_cols: usize, fit_rows: usize) -> (g: GridSize)
    ensures
        g.cols == (if fit_cols < 4 { 4 } else { fit_cols }),
        g.rows == (if fit_rows < 2 { 2 } else { fit_rows }),
{
    GridSize {
        cols: if fit_cols < 4 {
            4
        } else {
            fit_cols
        },
        rows: if fit_rows < 2 {
            2
        } else {
            fit_rows
        },
    }
}

impl GridSize {
    /// Take the new size; returns whether it differs from the old one, in
    /// which case the emulator and the pty must be resized.
    pub fn resize(&mut self, cols: usize, rows: usize) -> (changed: bool)
        ensures
            changed == (cols != old(self).cols || rows != old(self).rows),
            final(self).cols == cols,
            final(self).rows == rows,
    {
        if cols == self.cols && rows == self.rows {
            return false;
        }
        self.cols = cols;
        self.rows = rows;
        true
    }
}

} // verus!
