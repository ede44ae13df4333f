//! Core of an exercise-runner: an ordered curriculum of small source
//! files is compiled and executed one at a time, in order, and the first
//! failure halts the pass.  A watch orchestrator re-drives verification
//! from the position of an edited file and keeps the hint of the most
//! recent failure for an interactive shell.
//!
//! Everything that decides (the verification engine, the completion
//! marker scan, the watch state machine, the curriculum lookups) lives here,
//! verified.  Reading files, spawning the toolchain and terminal
//! output stay outside, in the thin binary around this crate.

pub mod curriculum;
pub mod order;
pub mod run;
pub mod searches;
pub mod sorts;
pub mod state;
pub mod verify;
pub mod watch;
