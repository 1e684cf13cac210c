//! Rules engine for a minesweeper puzzle.
//!
//! A rectangular grid of cells, each hidden, revealed, or flagged, with mines
//! distributed among them, plus deterministic logic for revealing, flagging,
//! chorded multi-reveal, win/loss detection, and a constraint-based hint
//! solver. Rendering, timing, and input handling are left to the caller, which
//! supplies user intents and reads back cell states through the `Grid` API.

pub mod algorithms;
pub mod cascade;
pub mod cell;
pub mod game;
pub mod grid;
pub mod laws;
pub mod message;
pub mod populate;
pub mod state;
