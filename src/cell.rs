//! The state of one cell and the transition rule of a single cell.
use vstd::prelude::*;

verus! {

/// A cell is either alive or dead.
#[derive(Clone, Copy, Debug, PartialEq, Eq, Structural)]
pub enum Cell {
    Alive,
    Dead,
}

impl Cell {
    /// The opposite state.
    pub open spec fn flipped(self) -> Cell {
        match self {
            Cell::Alive => Cell::Dead,
            Cell::Dead => Cell::Alive,
        }
    }

    /// One when alive, zero when dead.
    pub open spec fn weight(self) -> int {
        match self {
            Cell::Alive => 1,
            Cell::Dead => 0,
        }
    }

    /// Returns the opposite state.
    pub fn flip(self) -> (r: Cell)
        ensures
            r == self.flipped(),
    {
        match self {
            Cell::Alive => Cell::Dead,
            Cell::Dead => Cell::Alive,
        }
    }

    /// Whether the cell is alive.
    pub fn is_alive(self) -> (r: bool)
        ensures
            r == (self == Cell::Alive),
    {
        match self {
            Cell::Alive => true,
            Cell::Dead => false,
        }
    }
}

/// The standard rule: a live cell survives with two or three live
/// neighbours, a dead cell is born with exactly three; every other cell is
/// dead in the next generation.
pub open spec fn next_state_spec(cell: Cell, neighbors: int) -> Cell {
    match cell {
        Cell::Alive => if neighbors == 2 || neighbors == 3 {
            Cell::Alive
        } else {
            Cell::Dead
        },
        Cell::Dead => if neighbors == 3 {
            Cell::Alive
        } else {
            Cell::Dead
        },
    }
}

/// The state that a cell with `neighbors` live neighbours has in the next
/// generation.
pub fn next_state(cell: Cell, neighbors: u8) -> (r: Cell)
    ensures
        r == next_state_spec(cell, neighbors as int),
{
    match cell {
        Cell::Alive => if neighbors == 2 || neighbors == 3 {
            Cell::Alive
        } else {
            Cell::Dead
        },
        Cell::Dead => if neighbors == 3 {
            Cell::Alive
        } else {
            Cell::Dead
        },
    }
}

} // verus!
