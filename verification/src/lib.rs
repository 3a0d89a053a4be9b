//! Core of a parallel remote-command executor.
//!
//! The library holds the verified logic of the tool: command-line and
//! hosts-file parsing, construction of the per-host child command, the three
//! output disciplines (line, group, join) with their buffering rules, and the
//! bounded-concurrency supervisor state machine.  The thin layer of process
//! and descriptor syscalls that drives the state machine lives outside the
//! library.

pub mod bytes;
pub mod color;
pub mod command;
pub mod config;
pub mod errors;
pub mod hosts;
pub mod join;
pub mod stream;
pub mod supervisor;

pub use bytes::bytes_eq;
pub use errors::{ParseError, RuntimeError};
