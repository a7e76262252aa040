//! A verified engine for Conway's Game of Life on a fixed-size toroidal grid.
//!
//! The grid wraps around at its edges, so every position has exactly eight
//! neighbours. Each generation applies the classic B3/S23 rule to every
//! position at once, always judged against the state before the step.

mod cell;
mod game;
mod world;

pub use cell::Cell;
pub use game::Game;
pub use world::World;
