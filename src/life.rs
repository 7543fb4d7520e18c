//! The mathematical model of a grid: cells in row-major order, the cell at
//! `(x, y)` at index `y * w + x`.
use vstd::arithmetic::div_mod::lemma_fundamental_div_mod_converse;
use vstd::prelude::*;

use crate::cell::Cell;

verus! {

/// A change record: the cell at `(x, y)` now holds `cell`.
#[derive(Clone, Copy, Debug, PartialEq, Eq, Structural)]
pub struct CellChange {
    pub x: usize,
    pub y: usize,
    pub cell: Cell,
}

/// Where the coordinate `v` of a neighbour lands on an axis of length `max`:
/// modulo `max` on a torus, and nowhere when it falls off a bounded grid.
pub open spec fn resolve(v: int, max: int, wrap: bool) -> Option<int> {
    if wrap {
        Some(v % max)
    } else if 0 <= v < max {
        Some(v)
    } else {
        None
    }
}

/// What the position `(x, y)` contributes to a neighbour count: the value of
/// the cell it resolves to, or 0 where it resolves to no cell.
pub open spec fn state_at(cells: Seq<Cell>, w: int, h: int, wrap: bool, x: int, y: int) -> nat {
    match (resolve(x, w, wrap), resolve(y, h, wrap)) {
        (Some(a), Some(b)) => cells[b * w + a].value(),
        _ => 0,
    }
}

/// The number of live cells among the eight neighbours of `(x, y)`.
pub open spec fn live_neighbours(cells: Seq<Cell>, w: int, h: int, wrap: bool, x: int, y: int) -> nat {
    state_at(cells, w, h, wrap, x + 1, y + 1) + state_at(cells, w, h, wrap, x + 1, y)
        + state_at(cells, w, h, wrap, x + 1, y - 1) + state_at(cells, w, h, wrap, x, y - 1)
        + state_at(cells, w, h, wrap, x - 1, y - 1) + state_at(cells, w, h, wrap, x - 1, y)
        + state_at(cells, w, h, wrap, x - 1, y + 1) + state_at(cells, w, h, wrap, x, y + 1)
}

/// The next generation of a grid of width `w` and height `h`.
pub open spec fn generation(cells: Seq<Cell>, w: int, h: int, wrap: bool) -> Seq<Cell> {
    Seq::new(
        cells.len(),
        |i: int| cells[i].next(live_neighbours(cells, w, h, wrap, i % w, i / w) as int),
    )
}

/// The change records, in index order, for the cells among the first `k`
/// whose state differs between `before` and `after`.
pub open spec fn changes_between(before: Seq<Cell>, after: Seq<Cell>, w: int, k: nat) -> Seq<
    CellChange,
>
    decreases k,
{
    if k == 0 {
        Seq::empty()
    } else {
        let i = k - 1;
        let prev = changes_between(before, after, w, (k - 1) as nat);
        if before[i] != after[i] {
            prev.push(CellChange { x: (i % w) as usize, y: (i / w) as usize, cell: after[i] })
        } else {
            prev
        }
    }
}

/// The cells of a `w` by `h` grid carried over to a `nw` by `nh` grid: the
/// overlapping rectangle at the top-left keeps its cells, the rest is dead.
pub open spec fn resized(cells: Seq<Cell>, w: int, h: int, nw: int, nh: int) -> Seq<Cell> {
    Seq::new(
        (nw * nh) as nat,
        |i: int|
            if i % nw < w && i / nw < h {
                cells[(i / nw) * w + i % nw]
            } else {
                Cell::Dead
            },
    )
}

/// The cell at `(x, y)` sits at index `y * w + x`, inside the grid.
pub proof fn lemma_index(x: int, y: int, w: int, h: int)
    requires
        0 <= x < w,
        0 <= y < h,
    ensures
        0 <= y * w + x < w * h,
        (y * w + x) % w == x,
        (y * w + x) / w == y,
{
    assert(0 <= y * w + x < w * h) by (nonlinear_arith)
        requires
            0 <= x < w,
            0 <= y < h,
    ;
    lemma_fundamental_div_mod_converse(y * w + x, w, y, x);
}

/// Whether the position `(x, y)` lies on a `w` by `h` grid, as 1 or 0.
pub open spec fn on_grid(w: int, h: int, x: int, y: int) -> nat {
    if 0 <= x < w && 0 <= y < h {
        1
    } else {
        0
    }
}

/// How many of the eight neighbour positions of `(x, y)` lie on the grid.
pub open spec fn neighbours_on_grid(w: int, h: int, x: int, y: int) -> nat {
    on_grid(w, h, x + 1, y + 1) + on_grid(w, h, x + 1, y) + on_grid(w, h, x + 1, y - 1) + on_grid(
        w,
        h,
        x,
        y - 1,
    ) + on_grid(w, h, x - 1, y - 1) + on_grid(w, h, x - 1, y) + on_grid(w, h, x - 1, y + 1)
        + on_grid(w, h, x, y + 1)
}

/// On a bounded grid a cell counts only neighbours that lie on the grid, so
/// a corner cell counts at most three.
pub proof fn lemma_bounded_count(cells: Seq<Cell>, w: int, h: int, x: int, y: int)
    requires
        cells.len() == w * h,
        0 <= x < w,
        0 <= y < h,
    ensures
        live_neighbours(cells, w, h, false, x, y) <= neighbours_on_grid(w, h, x, y),
        (x == 0 || x == w - 1) && (y == 0 || y == h - 1) ==> live_neighbours(
            cells,
            w,
            h,
            false,
            x,
            y,
        ) <= 3,
{
}

/// The value of the cell that `(x, y)` lands on when both axes wrap.
pub open spec fn torus_value(cells: Seq<Cell>, w: int, h: int, x: int, y: int) -> nat {
    cells[(y % h) * w + x % w].value()
}

/// On a torus every one of the eight neighbour positions lands on a cell,
/// each axis taken modulo its length, and the count adds up all eight.
pub proof fn lemma_torus_count(cells: Seq<Cell>, w: int, h: int, x: int, y: int)
    requires
        cells.len() == w * h,
        0 <= x < w,
        0 <= y < h,
    ensures
        forall|dx: int, dy: int|
            -1 <= dx <= 1 && -1 <= dy <= 1 ==> {
                &&& 0 <= #[trigger] ((x + dx) % w) < w
                &&& 0 <= #[trigger] ((y + dy) % h) < h
                &&& resolve(x + dx, w, true) is Some
                &&& resolve(y + dy, h, true) is Some
            },
        live_neighbours(cells, w, h, true, x, y) == torus_value(cells, w, h, x + 1, y + 1)
            + torus_value(cells, w, h, x + 1, y) + torus_value(cells, w, h, x + 1, y - 1)
            + torus_value(cells, w, h, x, y - 1) + torus_value(cells, w, h, x - 1, y - 1)
            + torus_value(cells, w, h, x - 1, y) + torus_value(cells, w, h, x - 1, y + 1)
            + torus_value(cells, w, h, x, y + 1),
{
    assert forall|dx: int, dy: int| -1 <= dx <= 1 && -1 <= dy <= 1 implies {
        &&& 0 <= #[trigger] ((x + dx) % w) < w
        &&& 0 <= #[trigger] ((y + dy) % h) < h
    } by {
        vstd::arithmetic::div_mod::lemma_mod_bound(x + dx, w);
        vstd::arithmetic::div_mod::lemma_mod_bound(y + dy, h);
    }
}

/// A grid with no live cell stays empty.
pub proof fn lemma_empty_grid_stable(cells: Seq<Cell>, w: int, h: int, wrap: bool)
    requires
        w > 0,
        h > 0,
        cells.len() == w * h,
        forall|i: int| 0 <= i < cells.len() ==> #[trigger] cells[i] == Cell::Dead,
    ensures
        generation(cells, w, h, wrap) == cells,
        changes_between(cells, generation(cells, w, h, wrap), w, cells.len()) == Seq::<
            CellChange,
        >::empty(),
{
    assert forall|x: int, y: int| #[trigger] state_at(cells, w, h, wrap, x, y) == 0 by {
        match (resolve(x, w, wrap), resolve(y, h, wrap)) {
            (Some(a), Some(b)) => {
                vstd::arithmetic::div_mod::lemma_mod_bound(x, w);
                vstd::arithmetic::div_mod::lemma_mod_bound(y, h);
                lemma_index(a, b, w, h);
            },
            _ => {},
        }
    }
    assert(generation(cells, w, h, wrap) =~= cells);
    lemma_stable_no_changes(cells, generation(cells, w, h, wrap), w, cells.len());
}

/// Where a step leaves the cells as they were, it reports no change.
pub proof fn lemma_stable_no_changes(before: Seq<Cell>, after: Seq<Cell>, w: int, k: nat)
    requires
        before == after,
    ensures
        changes_between(before, after, w, k) == Seq::<CellChange>::empty(),
    decreases k,
{
    if k > 0 {
        lemma_stable_no_changes(before, after, w, (k - 1) as nat);
    }
}

/// Every cell that changed has a record with its position and new state,
/// and every record names a cell that changed, with its new state.
pub proof fn lemma_changes_exact(before: Seq<Cell>, after: Seq<Cell>, w: int, k: nat)
    requires
        w > 0,
        k <= before.len(),
        k <= after.len(),
        k <= usize::MAX,
    ensures
        forall|i: int|
            0 <= i < k && before[i] != after[i] ==> changes_between(before, after, w, k).contains(
                CellChange { x: (i % w) as usize, y: (i / w) as usize, cell: after[i] },
            ),
        forall|j: int|
            0 <= j < changes_between(before, after, w, k).len() ==> exists|i: int|
                0 <= i < k && before[i] != after[i] && #[trigger] changes_between(
                    before,
                    after,
                    w,
                    k,
                )[j] == (CellChange { x: (i % w) as usize, y: (i / w) as usize, cell: after[i] }),
    decreases k,
{
    if k > 0 {
        let prev = changes_between(before, after, w, (k - 1) as nat);
        let cur = changes_between(before, after, w, k);
        lemma_changes_exact(before, after, w, (k - 1) as nat);
        let i0 = k - 1;
        assert forall|i: int| 0 <= i < k && before[i] != after[i] implies cur.contains(
            CellChange { x: (i % w) as usize, y: (i / w) as usize, cell: after[i] },
        ) by {
            if i < k - 1 {
                let c = CellChange { x: (i % w) as usize, y: (i / w) as usize, cell: after[i] };
                let j = choose|j: int| 0 <= j < prev.len() && prev[j] == c;
                assert(cur[j] == c);
            } else {
                assert(cur[cur.len() - 1] == CellChange {
                    x: (i % w) as usize,
                    y: (i / w) as usize,
                    cell: after[i],
                });
            }
        }
        assert forall|j: int| 0 <= j < cur.len() implies exists|i: int|
            0 <= i < k && before[i] != after[i] && #[trigger] cur[j] == (CellChange {
                x: (i % w) as usize,
                y: (i / w) as usize,
                cell: after[i],
            }) by {
            if j < prev.len() {
                assert(cur[j] == prev[j]);
            } else {
                assert(before[i0] != after[i0]);
            }
        }
    }
}

/// The column of a position is at most the position itself.
proof fn lemma_mod_within(i: int, w: int)
    requires
        w > 0,
        0 <= i,
    ensures
        0 <= i % w <= i,
        0 <= i / w <= i,
{
    vstd::arithmetic::div_mod::lemma_fundamental_div_mod(i, w);
    vstd::arithmetic::div_mod::lemma_mod_bound(i, w);
    vstd::arithmetic::div_mod::lemma_div_pos_is_pos(i, w);
    vstd::arithmetic::div_mod::lemma_div_is_ordered_by_denominator(i, 1, w);
    assert(w * (i / w) >= 0) by (nonlinear_arith)
        requires
            w > 0,
            i / w >= 0,
    ;
}

/// Two positions of the grid with the same column and row are the same
/// position.
proof fn lemma_position_unique(i: int, i2: int, w: int)
    requires
        w > 0,
        0 <= i,
        0 <= i2,
        i % w == i2 % w,
        i / w == i2 / w,
    ensures
        i == i2,
{
    vstd::arithmetic::div_mod::lemma_fundamental_div_mod(i, w);
    vstd::arithmetic::div_mod::lemma_fundamental_div_mod(i2, w);
}

/// A cell that kept its state gets no record.
pub proof fn lemma_unchanged_not_reported(before: Seq<Cell>, after: Seq<Cell>, w: int, k: nat)
    requires
        w > 0,
        k <= before.len(),
        k <= after.len(),
        k <= usize::MAX,
    ensures
        forall|i: int, j: int|
            #![trigger after[i], changes_between(before, after, w, k)[j]]
            0 <= i < k && before[i] == after[i] && 0 <= j < changes_between(
                before,
                after,
                w,
                k,
            ).len() ==> !(changes_between(before, after, w, k)[j].x == (i % w) as usize
                && changes_between(before, after, w, k)[j].y == (i / w) as usize),
{
    lemma_changes_exact(before, after, w, k);
    let cur = changes_between(before, after, w, k);
    assert forall|i: int, j: int|
        #![trigger after[i], cur[j]]
        0 <= i < k && before[i] == after[i] && 0 <= j < cur.len() implies !(
        cur[j].x == (i % w) as usize && cur[j].y == (i / w) as usize) by {
        let i2 = choose|i2: int|
            0 <= i2 < k && before[i2] != after[i2] && #[trigger] cur[j] == (CellChange {
                x: (i2 % w) as usize,
                y: (i2 / w) as usize,
                cell: after[i2],
            });
        if cur[j].x == (i % w) as usize && cur[j].y == (i / w) as usize {
            lemma_mod_within(i, w);
            lemma_mod_within(i2, w);
            lemma_position_unique(i, i2, w);
        }
    }
}

/// Growing a grid and shrinking it back to its old size gives back the old
/// cells, and every position that the growth added is dead.
pub proof fn lemma_resize_round_trip(cells: Seq<Cell>, w: int, h: int, nw: int, nh: int)
    requires
        w > 0,
        h > 0,
        nw >= w,
        nh >= h,
        cells.len() == w * h,
    ensures
        resized(resized(cells, w, h, nw, nh), nw, nh, w, h) == cells,
        forall|x: int, y: int|
            0 <= x < nw && 0 <= y < nh && (x >= w || y >= h) ==> #[trigger] resized(
                cells,
                w,
                h,
                nw,
                nh,
            )[y * nw + x] == Cell::Dead,
{
    let big = resized(cells, w, h, nw, nh);
    let back = resized(big, nw, nh, w, h);
    assert forall|i: int| 0 <= i < cells.len() implies back[i] == cells[i] by {
        let x = i % w;
        let y = i / w;
        vstd::arithmetic::div_mod::lemma_fundamental_div_mod(i, w);
        vstd::arithmetic::div_mod::lemma_mod_bound(i, w);
        lemma_mod_within(i, w);
        assert(y < h) by (nonlinear_arith)
            requires
                i == w * y + x,
                0 <= x,
                i < w * h,
                w > 0,
        ;
        lemma_index(x, y, nw, nh);
        lemma_index(x, y, w, h);
    }
    assert(back =~= cells);
    assert forall|x: int, y: int|
        0 <= x < nw && 0 <= y < nh && (x >= w || y >= h) implies #[trigger] big[y * nw + x]
        == Cell::Dead by {
        lemma_index(x, y, nw, nh);
    }
}

/// Toggling the same cell twice gives back the grid as it was.
pub proof fn lemma_toggle_twice(cells: Seq<Cell>, i: int)
    requires
        0 <= i < cells.len(),
    ensures
        ({
            let once = cells.update(i, cells[i].flipped());
            once.update(i, once[i].flipped())
        }) == cells,
{
    let once = cells.update(i, cells[i].flipped());
    assert(once.update(i, once[i].flipped()) =~= cells);
}

} // verus!
