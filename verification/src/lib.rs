//! Verified core of an HTTP bridge in front of a task-queue daemon.
//!
//! The crate models the daemon's status snapshot as plain data, computes
//! per-group statistics together with a deterministic change-detection
//! digest, decides when the cached status may be served, validates and
//! translates the caller-facing requests into protocol or command-line
//! form, and interprets what the two transport paths hand back.  All
//! networking, process spawning and JSON shaping live outside the library
//! and only plumb plain values into and out of it.

pub mod cache;
pub mod cli;
pub mod digest;
pub mod launch;
pub mod laws;
pub mod logs;
pub mod numeric;
pub mod requests;
pub mod snapshot;
pub mod stats;
pub mod text;
pub mod timestamp;

pub use digest::hash_str;
pub use requests::{AddTaskRequest, GroupActionRequest, log_cli_fallback_once};
