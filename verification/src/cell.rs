//! The state of one position of the grid, and the rule that renews it.

use vstd::prelude::*;

verus! {

/// A cell is either alive or dead; it has no other attribute.
#[derive(Debug, Copy, Clone, PartialEq, Eq, Structural)]
pub enum Cell {
    Live,
    Dead,
}

impl Cell {
    /// The state that follows `self` when `live_neighbors` of the eight
    /// surrounding cells are alive: three neighbours give life, two keep the
    /// cell as it is, any other count leaves it dead.
    pub open spec fn successor(self, live_neighbors: nat) -> Cell {
        if live_neighbors == 3 {
            Cell::Live
        } else if live_neighbors == 2 {
            self
        } else {
            Cell::Dead
        }
    }

    /// The character that stands for the cell in a rendering: a full block
    /// for a live cell, a space for a dead one.
    pub open spec fn glyph(self) -> char {
        match self {
            Cell::Live => '\u{2588}',
            Cell::Dead => ' ',
        }
    }

    /// Applies the rule of the automaton to one cell.
    pub fn next(self, live_neighbors: u8) -> (r: Cell)
        ensures
            r == self.successor(live_neighbors as nat),
    {
        if live_neighbors == 3 {
            Cell::Live
        } else if live_neighbors == 2 {
            self
        } else {
            Cell::Dead
        }
    }
}

} // verus!
