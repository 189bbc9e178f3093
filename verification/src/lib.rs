//! A generalized Game-of-Life engine on a dynamically growing rectangular
//! grid, together with the playback state machine that drives it.

pub mod board;
pub mod sim;
