use vstd::prelude::*;

verus! {

/// Represents a single cell in the game, where life can be contained.
#[derive(Clone, Copy, Debug, PartialEq, Eq, Structural)]
pub enum Cell {
    Dead,
    Alive,
}

impl Cell {
    /// Returns whether cell is alive.
    pub fn is_alive(&self) -> (r: bool)
        ensures
            r == (*self is Alive),
    {
        *self == Cell::Alive
    }

    /// Toggle current value.
    pub fn toggle(&mut self)
        ensures
            *old(self) is Alive ==> *final(self) is Dead,
            *old(self) is Dead ==> *final(self) is Alive,
    {
        *self = match *self {
            Cell::Alive => Cell::Dead,
            Cell::Dead => Cell::Alive,
        };
    }
}

} // verus!
