//! Interactive session switcher for a terminal multiplexer.
//!
//! The crate holds the verified core of the tool: ranking the multiplexer's
//! sessions, the line protocol spoken with the fuzzy-selector subprocess,
//! the translation of a resolved choice into a multiplexer command batch,
//! and the command-line grammar. All values cross the boundary as plain
//! bytes; the surrounding binary does the process spawning and I/O.

pub mod action;
pub mod bytes;
pub mod cli;
pub mod digits;
pub mod lines;
pub mod picker;
pub mod session;


