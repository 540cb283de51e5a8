//! Keeps a named target process's CPU affinity in sync with a user-chosen
//! set of CPU indices, persists that desired configuration, and reports
//! live synchronization status.
//!
//! The crate is organised around the reconciliation engine:
//! - [`selections`]: conversions between CPU index sets and affinity bitmasks;
//! - [`persistence`]: the CPU selection set and the persisted configuration;
//! - [`render`]: exact text rendering of CPU index lists;
//! - [`worker`]: the reconciliation tick state machine, the worker heartbeat,
//!   and the single-slot heartbeat channel;
//! - [`errors`]: the library's own error values.

pub mod errors;
pub mod persistence;
pub mod render;
pub mod selections;
pub mod worker;
