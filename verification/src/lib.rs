//! Coordination core for a multi-session agent workspace.
//!
//! The crate has two halves that mirror the running system:
//!
//! * the intelligence hub — an in-memory store of broadcast messages, shared
//!   scratchpad notes and per-file activity, with conflict detection between
//!   sessions that touch the same file;
//! * the remote-access layer — a single-token authentication gate, a
//!   bounded event fan-out, and the per-connection protocol state machine
//!   that multiplexes subscriptions and correlated invoke requests.
//!
//! All state handling is plain in-memory logic and is verified; calls that
//! need a clock, fresh identifiers or the machine address go through small
//! trusted bindings.

pub mod access;
pub mod clock;
pub mod fanout;
pub mod hub;
pub mod ids;
pub mod paths;
pub mod protocol;
pub mod strutil;
