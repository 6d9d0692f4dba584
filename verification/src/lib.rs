//! Conway's Game of Life on a fixed-size toroidal grid.
//!
//! The library holds the whole game core: the two-state [`cell::Cell`] with
//! the classification predicates of the Life rule, the grid session state
//! [`grid::App`] with toroidal neighbor lookup and the simultaneous
//! generation step, and the command dispatcher [`grid::App::update`] that
//! maps discrete UI commands onto grid operations and a running/paused flag.
//! Rendering and timer plumbing are left to whatever shell drives the
//! dispatcher.

pub mod cell;
pub mod dispatch;
pub mod grid;
pub mod laws;
