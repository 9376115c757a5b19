//! An interactive, terminal-resident task list: the session core.
//!
//! The library holds the verified heart of the program: the task
//! records and their mutation contract (`tasks`), the modal input
//! state machine and selection tracker that drive a session
//! (`session`), the key-map descriptions shown on screen (`keys`),
//! and the on-disk encoding of the task collection (`codec`).
//! Terminal input, rendering and file access live outside, in the
//! surrounding binary, which feeds plain values into these modules
//! and carries their results back out.

pub mod codec;
pub mod keys;
pub mod session;
pub mod tasks;
