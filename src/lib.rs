//! Conway's Game of Life on a bounded grid: the cell matrix, its update rule,
//! in-memory snapshots, the plain-text grid format and the keyboard control rules.

pub mod control;
pub mod grid;
pub mod text;

pub use control::{advance, command_for, handle_key_event, Command, Flow, Key};
pub use grid::{Grid, GridError, GridView};
