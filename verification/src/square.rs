//! One square of the board: what it hides, and what the player has done to
//! it.

use vstd::prelude::*;
use crate::edge::Edge;

verus! {

/// What a square hides: a mine, or the number of mines that touch it.
#[derive(Clone, Copy, Debug, PartialEq, Eq, Structural)]
pub enum Mine {
    Explode,
    Count(usize),
}

impl Mine {
    /// Adds one to the count of a square without a mine; a mine stays as it
    /// is.
    pub fn increment_count(&mut self)
        requires
            *old(self) != Mine::Count(usize::MAX),
        ensures
            *final(self) == match *old(self) {
                Mine::Explode => Mine::Explode,
                Mine::Count(count) => Mine::Count((count + 1) as usize),
            },
    {
        if let Mine::Count(num) = self {
            *num += 1;
        }
    }

    /// The number of mines that touch a square without a mine.
    pub fn get_count(&self) -> (count: usize)
        requires
            *self is Count,
        ensures
            *self == Mine::Count(count),
    {
        match self {
            Mine::Count(count) => *count,
            Mine::Explode => 0,
        }
    }
}

/// A square of the board. `mine` and `edge` are fixed when the board is
/// laid out; `opened` and `flagged` follow the player's moves.
#[derive(Clone, Copy, Debug, PartialEq, Eq, Structural)]
pub struct Square {
    pub mine: Mine,
    pub opened: bool,
    pub flagged: bool,
    pub edge: Edge,
}

impl Square {
    /// A closed square without a flag.
    pub fn new(mine: Mine, edge: Edge) -> (square: Square)
        ensures
            square == (Square { mine, opened: false, flagged: false, edge }),
    {
        Square { mine, opened: false, flagged: false, edge }
    }

    /// Plants a flag on a square without one and takes it from a square
    /// that has one; returns whether the square now has a flag.
    pub fn toggle_flag(&mut self) -> (flagged: bool)
        ensures
            *final(self) == (Square { flagged: !old(self).flagged, ..*old(self) }),
            flagged == !old(self).flagged,
    {
        self.flagged = !self.flagged;
        self.flagged
    }
}

} // verus!
