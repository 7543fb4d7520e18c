//! What a renderer paints: cell rectangles and full frames, in pixels.
use vstd::prelude::*;

use crate::cell::Cell;

verus! {

/// Paint the rectangle at `(left, top)` of `width` by `height` pixels in the
/// colour of `cell`.
#[derive(Clone, Copy, Debug, PartialEq, Eq, Structural)]
pub struct Fill {
    pub left: usize,
    pub top: usize,
    pub width: usize,
    pub height: usize,
    pub cell: Cell,
}

/// A full redraw: reset the surface to `pixel_width` by `pixel_height`,
/// stroke a grid line half a pixel before each of `column_lines` and
/// `row_lines`, then paint every one of `fills`.
#[derive(Clone, Debug)]
pub struct Frame {
    pub pixel_width: usize,
    pub pixel_height: usize,
    pub column_lines: Vec<usize>,
    pub row_lines: Vec<usize>,
    pub fills: Vec<Fill>,
}

/// The rectangle of the cell at `(x, y)` for cells of `cw` by `ch` pixels,
/// one pixel short on each axis to leave room for the grid lines.
pub open spec fn fill_of(x: int, y: int, cw: int, ch: int, cell: Cell) -> Fill {
    Fill {
        left: (x * cw) as usize,
        top: (y * ch) as usize,
        width: (cw - 1) as usize,
        height: (ch - 1) as usize,
        cell,
    }
}

/// The pixel offsets of the boundaries between `n` cells of `size` pixels.
pub open spec fn boundaries(n: int, size: int) -> Seq<usize> {
    Seq::new((n - 1) as nat, |i: int| ((i + 1) * size) as usize)
}

impl Frame {
    /// This frame draws the `w` by `h` grid `cells` with cells of `cw` by
    /// `ch` pixels, painting the cells in row-major order.
    pub open spec fn draws(&self, cells: Seq<Cell>, w: int, h: int, cw: int, ch: int) -> bool {
        &&& self.pixel_width == cw * w - 1
        &&& self.pixel_height == ch * h - 1
        &&& self.column_lines@ == boundaries(w, cw)
        &&& self.row_lines@ == boundaries(h, ch)
        &&& self.fills@ == Seq::new(
            cells.len(),
            |i: int| fill_of(i % w, i / w, cw, ch, cells[i]),
        )
    }
}

/// The `k`-th of `n` cells of `size` pixels starts at `k * size`, inside the
/// `n * size` pixels of the row.
pub proof fn lemma_offset(k: int, n: int, size: int)
    requires
        0 <= k < n,
        size > 0,
    ensures
        0 <= k * size,
        k * size + size <= n * size,
{
    assert(0 <= k * size && k * size + size <= n * size) by (nonlinear_arith)
        requires
            0 <= k < n,
            size > 0,
    ;
}

} // verus!
