//! Operation lifecycle engine for a completion-driven network server.
//!
//! Requests for kernel work (accept, read, write) are tracked as
//! [`operation::Operation`] values that move between a pending queue and a
//! table of submissions in flight, keyed by correlation tag.

pub mod census;
pub mod connection;
pub mod event_loop;
pub mod laws;
pub mod operation;
pub mod queue;
pub mod state;
pub mod submission;
pub mod trace;
