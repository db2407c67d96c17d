//! A one-way folder mirror.
//!
//! A mirror copies the contents of a source directory tree into a
//! destination tree: it creates what is missing, overwrites every file, and
//! deletes nothing. It runs once on request, or again and again on a timer
//! while monitoring is switched on.
//!
//! The library holds the decisions and leaves the filesystem, the clock and
//! the threads to its caller:
//!
//! - [`state`]: the four settings (monitoring flag, interval, source and
//!   destination folder) and the operations on them;
//! - [`command`]: the operations that a graphical shell invokes;
//! - [`scheduler`]: what one cycle of the background loop does with the
//!   settings that it finds, and what follows for the loop as a whole;
//! - [`mirror`]: the protocol of one mirror run, as a state machine that
//!   names the filesystem work to be done and takes in what became of it;
//! - [`tree`] and [`world`]: the mathematical model of directory trees and
//!   of a filesystem that serves the protocol;
//! - [`laws`]: what every run achieves in that model.

pub mod command;
pub mod laws;
pub mod mirror;
pub mod scheduler;
pub mod state;
pub mod tree;
pub mod world;
