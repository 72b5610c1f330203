//! Process supervision and cross-thread state publication core for a
//! desktop shell that hosts background data-collection modules.
//!
//! The crate has three parts:
//!
//! - [`gate`]: a write-once publication slot for the application handle,
//!   with a one-shot readiness gate that other execution contexts poll
//!   (the blocking wait itself is driven by the host around [`gate::HandleGate::wait_step`]).
//! - [`supervisor`]: the module registry and process supervisor, the sole
//!   mutator of the per-module running flags.
//! - [`tray`]: the presentation adapter that builds a menu description from
//!   a registry snapshot and dispatches tray events into supervisor
//!   operations.
//! - [`commands`]: the commands the bundled web UI can invoke.

pub mod commands;
pub mod gate;
pub mod supervisor;
pub mod tray;
