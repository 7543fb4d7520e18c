//! The grid itself, its generation step, edits and resizing.
use vstd::arithmetic::div_mod::lemma_fundamental_div_mod_converse;
use vstd::prelude::*;

use crate::cell::Cell;
use crate::surface::{boundaries, fill_of, lemma_offset, Fill, Frame};
use crate::life::{
    changes_between, generation, lemma_index, live_neighbours, resized, resolve, state_at,
    CellChange,
};

verus! {

/// Why a request on a grid was refused.
#[derive(Clone, Copy, Debug, PartialEq, Eq, Structural)]
pub enum WorldError {
    /// A width, height or cell size of zero.
    InvalidDimension,
    /// A coordinate outside the grid.
    OutOfRangeCoordinate,
}

/// A grid of cells with its geometry on the drawing surface.
pub struct World {
    world: Vec<Cell>,
    width: usize,
    height: usize,
    cell_w: usize,
    cell_h: usize,
    wrap_around: bool,
}

impl World {
    /// The cells in row-major order.
    pub closed spec fn cells(&self) -> Seq<Cell> {
        self.world@
    }

    /// The number of cells in a row.
    pub closed spec fn w(&self) -> int {
        self.width as int
    }

    /// The number of rows.
    pub closed spec fn h(&self) -> int {
        self.height as int
    }

    /// The width of a cell on the drawing surface, in pixels.
    pub closed spec fn cw(&self) -> int {
        self.cell_w as int
    }

    /// The height of a cell on the drawing surface, in pixels.
    pub closed spec fn ch(&self) -> int {
        self.cell_h as int
    }

    /// Whether neighbour lookups wrap around the edges.
    pub closed spec fn wraps(&self) -> bool {
        self.wrap_around
    }

    /// Every dimension is positive, there is one cell per position, and the
    /// surface fits the machine's sizes.
    pub open spec fn wf(&self) -> bool {
        &&& self.w() > 0
        &&& self.h() > 0
        &&& self.cw() > 0
        &&& self.ch() > 0
        &&& self.cells().len() == self.w() * self.h()
        &&& World::fits(self.w(), self.h(), self.cw(), self.ch())
    }

    /// The cell at `(x, y)`.
    pub open spec fn cell_at(&self, x: int, y: int) -> Cell {
        self.cells()[y * self.w() + x]
    }

    /// Grid sizes that this machine can hold, with the surface that draws them.
    pub open spec fn fits(width: int, height: int, cell_w: int, cell_h: int) -> bool {
        &&& width * height <= usize::MAX
        &&& cell_w * width <= usize::MAX
        &&& cell_h * height <= usize::MAX
    }

    /// A grid of `width` by `height` dead cells, each drawn as a `cell_w` by
    /// `cell_h` pixel rectangle, with its first full redraw; or
    /// `InvalidDimension` where any of the four is zero.
    pub fn new(width: usize, height: usize, cell_w: usize, cell_h: usize, wrap_around: bool) -> (r:
        Result<(World, Frame), WorldError>)
        requires
            World::fits(width as int, height as int, cell_w as int, cell_h as int),
        ensures
            r is Err <==> (width == 0 || height == 0 || cell_w == 0 || cell_h == 0),
            r is Err ==> r->Err_0 == WorldError::InvalidDimension,
            r matches Ok((s, f)) ==> {
                &&& s.wf()
                &&& s.w() == width
                &&& s.h() == height
                &&& s.cw() == cell_w
                &&& s.ch() == cell_h
                &&& s.wraps() == wrap_around
                &&& forall|i: int| 0 <= i < s.cells().len() ==> #[trigger] s.cells()[i] == Cell::Dead
                &&& f.draws(s.cells(), width as int, height as int, cell_w as int, cell_h as int)
            },
    {
        if width == 0 || height == 0 || cell_w == 0 || cell_h == 0 {
            return Err(WorldError::InvalidDimension);
        }
        let n: usize = width * height;
        let mut world: Vec<Cell> = Vec::new();
        while world.len() < n
            invariant
                world.len() <= n,
                forall|i: int| 0 <= i < world.len() ==> #[trigger] world@[i] == Cell::Dead,
            decreases n - world.len(),
        {
            world.push(Cell::Dead);
        }
        let s = World { world, width, height, cell_w, cell_h, wrap_around };
        let f = s.frame();
        Ok((s, f))
    }

    pub fn width(&self) -> (r: usize)
        ensures
            r == self.w(),
    {
        self.width
    }

    pub fn height(&self) -> (r: usize)
        ensures
            r == self.h(),
    {
        self.height
    }

    /// The width of a cell on the drawing surface, in pixels.
    pub fn cell_width(&self) -> (r: usize)
        ensures
            r == self.cw(),
    {
        self.cell_w
    }

    /// The height of a cell on the drawing surface, in pixels.
    pub fn cell_height(&self) -> (r: usize)
        ensures
            r == self.ch(),
    {
        self.cell_h
    }

    pub fn wrap_around(&self) -> (r: bool)
        ensures
            r == self.wraps(),
    {
        self.wrap_around
    }

    /// Changes the boundary policy; the cells stay as they are.
    pub fn set_wrap_around(&mut self, wrap_around: bool)
        ensures
            final(self).wraps() == wrap_around,
            final(self).cells() == old(self).cells(),
            final(self).w() == old(self).w(),
            final(self).h() == old(self).h(),
            final(self).cw() == old(self).cw(),
            final(self).ch() == old(self).ch(),
            final(self).wf() == old(self).wf(),
    {
        self.wrap_around = wrap_around;
    }

    /// The cell at `(x, y)`, or `None` outside the grid.
    pub fn get_cell(&self, x: usize, y: usize) -> (r: Option<Cell>)
        requires
            self.wf(),
        ensures
            r is None <==> (x >= self.w() || y >= self.h()),
            r matches Some(c) ==> c == self.cell_at(x as int, y as int),
    {
        if x >= self.width || y >= self.height {
            return None;
        }
        proof {
            lemma_index(x as int, y as int, self.w(), self.h());
        }
        Some(self.world[y * self.width + x])
    }

    /// Puts `cell` at `(x, y)`, with no change record; `OutOfRangeCoordinate`
    /// outside the grid, which is then left as it was.
    pub fn set_cell(&mut self, x: usize, y: usize, cell: Cell) -> (r: Result<(), WorldError>)
        requires
            old(self).wf(),
        ensures
            final(self).wf(),
            final(self).w() == old(self).w(),
            final(self).h() == old(self).h(),
            final(self).cw() == old(self).cw(),
            final(self).ch() == old(self).ch(),
            final(self).wraps() == old(self).wraps(),
            r is Err <==> (x >= old(self).w() || y >= old(self).h()),
            r is Err ==> r->Err_0 == WorldError::OutOfRangeCoordinate && final(self).cells()
                == old(self).cells(),
            r is Ok ==> final(self).cells() == old(self).cells().update(
                y * old(self).w() + x,
                cell,
            ),
    {
        if x >= self.width || y >= self.height {
            return Err(WorldError::OutOfRangeCoordinate);
        }
        proof {
            lemma_index(x as int, y as int, self.w(), self.h());
        }
        self.world.set(y * self.width + x, cell);
        Ok(())
    }

    /// The fields other than the cells are those of `other`.
    pub open spec fn same_shape(&self, other: &World) -> bool {
        &&& self.w() == other.w()
        &&& self.h() == other.h()
        &&& self.cw() == other.cw()
        &&& self.ch() == other.ch()
        &&& self.wraps() == other.wraps()
    }

    /// Advances the grid by one generation. Every neighbour count is taken
    /// from the grid as it was before the step. Returns one change record
    /// for each cell whose state changed, in row-major order.
    pub fn update(&mut self) -> (changes: Vec<CellChange>)
        requires
            old(self).wf(),
        ensures
            final(self).wf(),
            final(self).same_shape(old(self)),
            final(self).cells() == generation(
                old(self).cells(),
                old(self).w(),
                old(self).h(),
                old(self).wraps(),
            ),
            changes@ == changes_between(
                old(self).cells(),
                final(self).cells(),
                old(self).w(),
                old(self).cells().len(),
            ),
    {
        let ghost before = self.cells();
        let ghost after = generation(before, self.w(), self.h(), self.wraps());
        let n: usize = self.world.len();
        let mut next: Vec<Cell> = Vec::new();
        let mut changes: Vec<CellChange> = Vec::new();
        let mut i: usize = 0;
        let mut x: usize = 0;
        let mut y: usize = 0;
        while i < n
            invariant
                self.wf(),
                self.cells() == before,
                after == generation(before, self.w(), self.h(), self.wraps()),
                n == before.len(),
                i <= n,
                x < self.w(),
                i == y * self.w() + x,
                next@ == after.take(i as int),
                changes@ == changes_between(before, after, self.w(), i as nat),
            decreases n - i,
        {
            proof {
                assert(y < self.h()) by (nonlinear_arith)
                    requires
                        i == y * self.w() + x,
                        i < n,
                        n == self.w() * self.h(),
                        self.w() > 0,
                ;
                lemma_index(x as int, y as int, self.w(), self.h());
            }
            let neighbours = self.calculate_neighbors(x, y);
            let cell = self.world[i];
            match cell.transition(neighbours) {
                Some(c) => {
                    next.push(c);
                    changes.push(CellChange { x, y, cell: c });
                },
                None => {
                    next.push(cell);
                },
            }
            assert(next@ =~= after.take(i + 1));
            i = i + 1;
            if x + 1 == self.width {
                x = 0;
                y = y + 1;
                assert(i == y * self.w() + x) by (nonlinear_arith)
                    requires
                        i == (y - 1) * self.w() + self.w(),
                        x == 0,
                ;
            } else {
                x = x + 1;
            }
        }
        assert(next@ =~= after);
        self.world = next;
        changes
    }

    /// The rectangle that shows `cell` at `(x, y)`.
    pub fn cell_fill(&self, x: usize, y: usize, cell: Cell) -> (r: Fill)
        requires
            self.wf(),
            x < self.w(),
            y < self.h(),
        ensures
            r == fill_of(x as int, y as int, self.cw(), self.ch(), cell),
    {
        proof {
            lemma_offset(x as int, self.w(), self.cw());
            lemma_offset(y as int, self.h(), self.ch());
        }
        Fill {
            left: x * self.cell_w,
            top: y * self.cell_h,
            width: self.cell_w - 1,
            height: self.cell_h - 1,
            cell,
        }
    }

    /// The full redraw of the grid as it stands.
    pub fn frame(&self) -> (f: Frame)
        requires
            self.wf(),
        ensures
            f.draws(self.cells(), self.w(), self.h(), self.cw(), self.ch()),
    {
        let column_lines = grid_lines(self.width, self.cell_w);
        let row_lines = grid_lines(self.height, self.cell_h);
        let n: usize = self.world.len();
        let mut fills: Vec<Fill> = Vec::new();
        let mut i: usize = 0;
        let mut x: usize = 0;
        let mut y: usize = 0;
        while i < n
            invariant
                self.wf(),
                n == self.cells().len(),
                i <= n,
                x < self.w(),
                i == y * self.w() + x,
                fills@ == Seq::new(
                    i as nat,
                    |k: int| fill_of(k % self.w(), k / self.w(), self.cw(), self.ch(), self.cells()[k]),
                ),
            decreases n - i,
        {
            proof {
                assert(y < self.h()) by (nonlinear_arith)
                    requires
                        i == y * self.w() + x,
                        i < n,
                        n == self.w() * self.h(),
                        self.w() > 0,
                ;
                lemma_index(x as int, y as int, self.w(), self.h());
            }
            let fill = self.cell_fill(x, y, self.world[i]);
            fills.push(fill);
            i = i + 1;
            if x + 1 == self.width {
                x = 0;
                y = y + 1;
                assert(i == y * self.w() + x) by (nonlinear_arith)
                    requires
                        i == (y - 1) * self.w() + self.w(),
                        x == 0,
                ;
            } else {
                x = x + 1;
            }
        }
        proof {
            lemma_offset(self.w() - 1, self.w(), self.cw());
            lemma_offset(self.h() - 1, self.h(), self.ch());
            assert(self.cell_w * self.width >= 1 && self.cell_h * self.height >= 1) by (
            nonlinear_arith)
                requires
                    self.cell_w >= 1,
                    self.width >= 1,
                    self.cell_h >= 1,
                    self.height >= 1,
            ;
        }
        Frame {
            pixel_width: self.cell_w * self.width - 1,
            pixel_height: self.cell_h * self.height - 1,
            column_lines,
            row_lines,
            fills,
        }
    }

    /// Puts `cell` at `(x, y)` and reports it.
    fn change_cell(&mut self, x: usize, y: usize, cell: Cell) -> (r: CellChange)
        requires
            old(self).wf(),
            x < old(self).w(),
            y < old(self).h(),
        ensures
            final(self).wf(),
            final(self).same_shape(old(self)),
            final(self).cells() == old(self).cells().update(y * old(self).w() + x, cell),
            r == (CellChange { x, y, cell }),
    {
        proof {
            lemma_index(x as int, y as int, self.w(), self.h());
        }
        self.world.set(y * self.width + x, cell);
        CellChange { x, y, cell }
    }

    /// Flips the cell at `(x, y)` and reports its new state;
    /// `OutOfRangeCoordinate` outside the grid, which is then left as it was.
    pub fn toggle_cell(&mut self, x: usize, y: usize) -> (r: Result<CellChange, WorldError>)
        requires
            old(self).wf(),
        ensures
            final(self).wf(),
            final(self).same_shape(old(self)),
            r is Err <==> (x >= old(self).w() || y >= old(self).h()),
            r is Err ==> r->Err_0 == WorldError::OutOfRangeCoordinate && final(self).cells()
                == old(self).cells(),
            r is Ok ==> {
                let c = old(self).cell_at(x as int, y as int).flipped();
                &&& r->Ok_0 == (CellChange { x, y, cell: c })
                &&& final(self).cells() == old(self).cells().update(y * old(self).w() + x, c)
            },
    {
        if x >= self.width || y >= self.height {
            return Err(WorldError::OutOfRangeCoordinate);
        }
        proof {
            lemma_index(x as int, y as int, self.w(), self.h());
        }
        let cell = self.world[y * self.width + x].flip();
        Ok(self.change_cell(x, y, cell))
    }

    /// Carries the grid over to `width` by `height` cells, keeping the
    /// overlapping rectangle at the top-left, and returns the full redraw.
    fn change_size(&mut self, width: usize, height: usize) -> (f: Frame)
        requires
            old(self).wf(),
            width > 0,
            height > 0,
            World::fits(width as int, height as int, old(self).cw(), old(self).ch()),
        ensures
            final(self).wf(),
            final(self).w() == width,
            final(self).h() == height,
            final(self).cw() == old(self).cw(),
            final(self).ch() == old(self).ch(),
            final(self).wraps() == old(self).wraps(),
            final(self).cells() == resized(
                old(self).cells(),
                old(self).w(),
                old(self).h(),
                width as int,
                height as int,
            ),
            f.draws(final(self).cells(), width as int, height as int, old(self).cw(), old(self).ch()),
    {
        let ghost target = resized(self.cells(), self.w(), self.h(), width as int, height as int);
        let n: usize = width * height;
        let mut new_world: Vec<Cell> = Vec::new();
        let mut i: usize = 0;
        let mut x: usize = 0;
        let mut y: usize = 0;
        while i < n
            invariant
                self.wf(),
                target == resized(self.cells(), self.w(), self.h(), width as int, height as int),
                n == width * height,
                i <= n,
                x < width,
                i == y * width + x,
                new_world@ == target.take(i as int),
            decreases n - i,
        {
            proof {
                assert(y < height) by (nonlinear_arith)
                    requires
                        i == y * width + x,
                        i < n,
                        n == width * height,
                        width > 0,
                ;
                lemma_index(x as int, y as int, width as int, height as int);
            }
            if x < self.width && y < self.height {
                proof {
                    lemma_index(x as int, y as int, self.w(), self.h());
                }
                new_world.push(self.world[y * self.width + x]);
            } else {
                new_world.push(Cell::Dead);
            }
            assert(new_world@ =~= target.take(i + 1));
            i = i + 1;
            if x + 1 == width {
                x = 0;
                y = y + 1;
                assert(i == y * width + x) by (nonlinear_arith)
                    requires
                        i == (y - 1) * width + width,
                        x == 0,
                ;
            } else {
                x = x + 1;
            }
        }
        assert(new_world@ =~= target);
        self.world = new_world;
        self.width = width;
        self.height = height;
        self.frame()
    }

    /// Sets the number of cells in a row, keeping the height; returns the
    /// full redraw, or `InvalidDimension` for a width of zero, which leaves
    /// the grid as it was.
    pub fn set_width(&mut self, width: usize) -> (r: Result<Frame, WorldError>)
        requires
            old(self).wf(),
            World::fits(width as int, old(self).h(), old(self).cw(), old(self).ch()),
        ensures
            final(self).wf(),
            final(self).cw() == old(self).cw(),
            final(self).ch() == old(self).ch(),
            final(self).wraps() == old(self).wraps(),
            final(self).h() == old(self).h(),
            r is Err <==> width == 0,
            r is Err ==> r->Err_0 == WorldError::InvalidDimension && final(self).cells()
                == old(self).cells() && final(self).w() == old(self).w(),
            r matches Ok(f) ==> {
                &&& final(self).w() == width
                &&& final(self).cells() == resized(
                    old(self).cells(),
                    old(self).w(),
                    old(self).h(),
                    width as int,
                    old(self).h(),
                )
                &&& f.draws(final(self).cells(), width as int, old(self).h(), old(self).cw(), old(self).ch())
            },
    {
        if width == 0 {
            return Err(WorldError::InvalidDimension);
        }
        Ok(self.change_size(width, self.height))
    }

    /// Sets the number of rows, keeping the width; returns the full redraw,
    /// or `InvalidDimension` for a height of zero, which leaves the grid as
    /// it was.
    pub fn set_height(&mut self, height: usize) -> (r: Result<Frame, WorldError>)
        requires
            old(self).wf(),
            World::fits(old(self).w(), height as int, old(self).cw(), old(self).ch()),
        ensures
            final(self).wf(),
            final(self).cw() == old(self).cw(),
            final(self).ch() == old(self).ch(),
            final(self).wraps() == old(self).wraps(),
            final(self).w() == old(self).w(),
            r is Err <==> height == 0,
            r is Err ==> r->Err_0 == WorldError::InvalidDimension && final(self).cells()
                == old(self).cells() && final(self).h() == old(self).h(),
            r matches Ok(f) ==> {
                &&& final(self).h() == height
                &&& final(self).cells() == resized(
                    old(self).cells(),
                    old(self).w(),
                    old(self).h(),
                    old(self).w(),
                    height as int,
                )
                &&& f.draws(final(self).cells(), old(self).w(), height as int, old(self).cw(), old(self).ch())
            },
    {
        if height == 0 {
            return Err(WorldError::InvalidDimension);
        }
        Ok(self.change_size(self.width, height))
    }

    /// Resolves the coordinate `value + delta` on an axis of length `max`
    /// under the grid's boundary policy.
    fn wrap(&self, value: usize, delta: i8, max: usize) -> (r: Option<usize>)
        requires
            value < max,
            -1 <= delta <= 1,
        ensures
            r matches Some(v) ==> v < max && resolve(value + delta, max as int, self.wraps())
                == Some(v as int),
            r is None ==> resolve(value + delta, max as int, self.wraps()) is None,
    {
        proof {
            if self.wrap_around {
                lemma_fundamental_div_mod_converse(-1, max as int, -1, max - 1);
                lemma_fundamental_div_mod_converse(max as int, max as int, 1, 0);
                if 0 <= value + delta < max {
                    lemma_fundamental_div_mod_converse(value + delta, max as int, 0, value + delta);
                }
            }
        }
        if delta < 0 {
            if value == 0 {
                if self.wrap_around {
                    Some(max - 1)
                } else {
                    None
                }
            } else {
                Some(value - 1)
            }
        } else if delta > 0 {
            if value == max - 1 {
                if self.wrap_around {
                    Some(0)
                } else {
                    None
                }
            } else {
                Some(value + 1)
            }
        } else {
            Some(value)
        }
    }

    /// The value of the neighbour of `(x, y)` at offset `(dx, dy)`.
    fn get_cell_state(&self, x: usize, dx: i8, y: usize, dy: i8) -> (r: u8)
        requires
            self.wf(),
            x < self.w(),
            y < self.h(),
            -1 <= dx <= 1,
            -1 <= dy <= 1,
        ensures
            r == state_at(self.cells(), self.w(), self.h(), self.wraps(), x + dx, y + dy),
    {
        let Some(a) = self.wrap(x, dx, self.width) else {
            return 0;
        };
        let Some(b) = self.wrap(y, dy, self.height) else {
            return 0;
        };
        proof {
            lemma_index(a as int, b as int, self.w(), self.h());
        }
        self.world[b * self.width + a].get_state()
    }

    /// The number of live neighbours of `(x, y)`.
    fn calculate_neighbors(&self, x: usize, y: usize) -> (r: u8)
        requires
            self.wf(),
            x < self.w(),
            y < self.h(),
        ensures
            r == live_neighbours(self.cells(), self.w(), self.h(), self.wraps(), x as int, y as int),
            r <= 8,
    {
        self.get_cell_state(x, 1, y, 1) + self.get_cell_state(x, 1, y, 0) + self.get_cell_state(
            x,
            1,
            y,
            -1,
        ) + self.get_cell_state(x, 0, y, -1) + self.get_cell_state(x, -1, y, -1)
            + self.get_cell_state(x, -1, y, 0) + self.get_cell_state(x, -1, y, 1)
            + self.get_cell_state(x, 0, y, 1)
    }
}

/// The pixel offsets of the boundaries between `n` cells of `size` pixels.
fn grid_lines(n: usize, size: usize) -> (r: Vec<usize>)
    requires
        n > 0,
        size * n <= usize::MAX,
    ensures
        r@ == boundaries(n as int, size as int),
{
    let mut lines: Vec<usize> = Vec::new();
    let mut i: usize = 1;
    while i < n
        invariant
            1 <= i <= n,
            size * n <= usize::MAX,
            lines@ == Seq::new((i - 1) as nat, |k: int| ((k + 1) * size) as usize),
        decreases n - i,
    {
        proof {
            if size > 0 {
                lemma_offset(i as int, n as int, size as int);
            } else {
                assert(i * size == 0) by (nonlinear_arith)
                    requires
                        size == 0,
                ;
            }
        }
        lines.push(i * size);
        assert(lines@ =~= Seq::new(i as nat, |k: int| ((k + 1) * size) as usize));
        i = i + 1;
    }
    assert(lines@ =~= boundaries(n as int, size as int));
    lines
}

} // verus!
