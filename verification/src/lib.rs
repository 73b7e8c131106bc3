//! Simulation core of a grid-based snake game.
//!
//! The library owns the grid, advances the snake one discrete step at a
//! time, resolves eating, collision and boundary rules, and manages the
//! food respawn search.  Rendering, raw input capture and tick-rate
//! management are external collaborators: they drive the simulation
//! through its per-tick entry point and read-only queries.

pub mod cell;
pub mod grid;
pub mod input;
pub mod simulation;
pub mod utils;

mod rng;
