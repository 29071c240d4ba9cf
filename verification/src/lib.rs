//! Accumulation of simulated state changes, block by block.
//!
//! The crate holds the decisions of a trace-accumulation actor: which
//! simulation to start next, how a simulation's report is merged into the
//! running per-block diff, and when a waiting caller is answered. It performs
//! no I/O itself: every step takes an event and returns the action that the
//! surrounding task has to carry out.

pub mod primitives;
pub mod assoc;
pub mod account;
pub mod diff;
pub mod engine;
pub mod options;
pub mod laws;
