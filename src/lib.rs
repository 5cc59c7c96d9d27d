//! Conway's Game of Life on a square toroidal grid.
//!
//! The library holds the cellular-automaton core: the grid of cells, the
//! rule that computes one generation from the previous one, toggling a single
//! cell, and the mapping from a pointer position to a cell coordinate.
pub mod cell;
pub mod engine;
pub mod grid;
pub mod laws;
pub mod pointer;
pub mod simulation;

pub use cell::{next_state, Cell};
pub use engine::{advance, neighbor_count, toggle};
pub use grid::{Grid, GridError};
pub use pointer::pointer_to_cell;
pub use simulation::SimulationState;
