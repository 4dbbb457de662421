//! Timing engine of a rhythm game: compiles a textual beat chart into timed
//! projectiles and advances the run frame by frame.

pub mod fixed;
pub mod game;
pub mod sheet;
pub mod text;
