use vstd::prelude::*;

verus! {

/// The state of one grid position.
#[derive(Clone, Copy, Debug, PartialEq, Eq, Structural)]
pub enum Cell {
    Dead,
    Alive,
}

impl Cell {
    /// The integer view of the state: 1 for a live cell, 0 for a dead one.
    pub open spec fn value(self) -> nat {
        match self {
            Cell::Dead => 0,
            Cell::Alive => 1,
        }
    }

    /// The other state.
    pub open spec fn flipped(self) -> Cell {
        match self {
            Cell::Dead => Cell::Alive,
            Cell::Alive => Cell::Dead,
        }
    }

    /// The state of this cell in the next generation, given how many of its
    /// neighbours are alive now.
    pub open spec fn next(self, neighbours: int) -> Cell {
        match self {
            Cell::Alive => if neighbours == 2 || neighbours == 3 {
                Cell::Alive
            } else {
                Cell::Dead
            },
            Cell::Dead => if neighbours == 3 {
                Cell::Alive
            } else {
                Cell::Dead
            },
        }
    }

    pub fn get_state(&self) -> (r: u8)
        ensures
            r == self.value(),
    {
        match self {
            Cell::Dead => 0,
            Cell::Alive => 1,
        }
    }

    pub fn is_alive(&self) -> (r: bool)
        ensures
            r == (*self == Cell::Alive),
    {
        self.get_state() == 1
    }

    pub fn is_dead(&self) -> (r: bool)
        ensures
            r == (*self == Cell::Dead),
    {
        self.get_state() == 0
    }

    /// The other state.
    pub fn flip(&self) -> (r: Cell)
        ensures
            r == self.flipped(),
    {
        if self.is_alive() {
            Cell::Dead
        } else {
            Cell::Alive
        }
    }

    /// The new state of this cell after one generation with `neighbours` live
    /// neighbours, or `None` where the cell keeps its state.
    pub fn transition(&self, neighbours: u8) -> (r: Option<Cell>)
        ensures
            r == (if self.next(neighbours as int) == *self {
                None
            } else {
                Some(self.next(neighbours as int))
            }),
    {
        if self.is_alive() && (neighbours < 2 || neighbours > 3) {
            Some(Cell::Dead)
        } else if self.is_dead() && neighbours == 3 {
            Some(Cell::Alive)
        } else {
            None
        }
    }
}

/// The rule of a generation: a live cell survives exactly when two or three
/// of its neighbours are alive, a dead cell comes alive exactly when three
/// are, and every other cell keeps its state.
pub proof fn lemma_life_rule(c: Cell, n: int)
    ensures
        c == Cell::Alive ==> (c.next(n) == Cell::Alive <==> (n == 2 || n == 3)),
        c == Cell::Dead ==> (c.next(n) == Cell::Alive <==> n == 3),
        c.next(n) != c <==> ((c == Cell::Alive && n != 2 && n != 3) || (c == Cell::Dead && n
            == 3)),
{
}

} // verus!
