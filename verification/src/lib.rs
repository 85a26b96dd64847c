//! A registry of live, positionable sound sources and the liveness
//! supervision that empties it when the host falls silent.
//!
//! The crate holds the decisions of such a service and proves them: which
//! sources are registered under which id, what each operation does to that
//! mapping, and when a silent host has its sources collected. The audio
//! device, the clock and the threads stay with the caller, who hands in
//! plain values (ids, timestamps, the sources themselves).

pub mod listing;
pub mod registry;
pub mod supervisor;
pub mod token;
pub mod trace;

pub use crate::registry::Registry;
pub use crate::supervisor::Supervisor;
