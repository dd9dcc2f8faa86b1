//! A verified core for a terminal Minesweeper game: mine placement with an
//! exclusion zone around the first move, neighbor-mine counting, a flood-fill
//! reveal of connected zero-count regions, and the session state machine.

pub mod board;
pub mod minefield;
pub mod position;
pub mod rng;
pub mod session;
