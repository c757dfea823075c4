//! Core of a line-oriented, multi-room text chat server.
//!
//! The crate provides the pure protocol parser, the shared registry of users
//! and rooms with its invariants, the liveness-watchdog decision rule, and the
//! per-connection state-machine dispatch.  Socket handling, timers and the
//! executor live outside the library and drive it through these entry points.

pub mod mailbox;
pub mod messages;
pub mod names;
pub mod parser;
pub mod server_state;
pub mod session;
pub mod tokens;
pub mod watchdog;
