//! A log file used as a queue: complete lines are tailed out of an
//! append-only file and handed to a forwarder, the space they took is
//! reclaimed from the front of the file, and the read position survives
//! restarts in a sidecar file.
//!
//! The crate holds the decisions only. Every unit is a state machine that is
//! told what happened and answers with what to do next; reading, waiting and
//! sending are left to the caller.

pub mod debug;
pub mod errors;
pub mod filequeue;
pub mod kafkasink;
pub mod lines;
pub mod offset;
pub mod queue;
pub mod truncate;
