//! A verified Minesweeper board engine.
//!
//! The engine owns a square grid of cells, places mines at random,
//! precomputes each cell's neighboring-mine count, and answers reveal
//! requests, driving the game through its `InProgress` / `Lost` / `Won`
//! state machine. A presentation layer is expected to sit on top of it,
//! forwarding reveal and reset intents and rendering the cell states it
//! reads back through the query surface.

pub mod board;
mod rng;
