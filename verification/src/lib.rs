//! A sparse engine for a stochastic cellular automaton on a bounded grid,
//! together with the state machine of the loop that drives it.

pub mod cell;
pub mod game;
pub mod laws;
pub mod matrix;
pub mod order;
mod random;
pub mod rule;
pub mod tally;
