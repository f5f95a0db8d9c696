//! A verified solver for the puzzle of the light grid, and the dispatcher
//! that selects it by its day.
//!
//! Commands such as `turn on 0,0 through 2,2` are parsed, applied in order
//! to a sparse grid of lights that have a brightness each, and the
//! brightness of the whole grid is summed.

pub mod command;
pub mod dispatch;
pub mod grid;
pub mod laws;
pub mod model;
pub mod solve;
pub mod text;
