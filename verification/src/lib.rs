//! A verified turn-based simulation engine for untrusted bot scripts.
//!
//! The engine drives a fixed number of ticks. On each tick it builds a
//! request from the current game state, hands it to an external decision
//! process (spawned by the surrounding application), and interprets the
//! captured output: a well-formed `"(dx, dy)"` line moves the player,
//! anything else aborts the run with a descriptive error and the state
//! accumulated so far.

use vstd::prelude::*;

pub mod action;
pub mod driver;
pub mod engine;
pub mod text;

verus! {

/// Tick budget of a standard run.
pub const DEFAULT_NUM_TICKS: u32 = 10;

} // verus!
