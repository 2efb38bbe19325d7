//! Verified core of a multi-device state-synchronization backend.
//!
//! Each account ("user") owns a logical document whose mutations ("patches")
//! are produced independently by several devices ("clients") and must reach
//! every other device, while a single shared "head" pointer is protected from
//! silently lost concurrent writes.  This crate holds the pieces with all the
//! consistency reasoning: the sortable identifier generator and its base-62
//! encoding, the store model with idempotent patch insertion and fan-out /
//! fan-in propagation, the compare-and-swap head coordinator, and the
//! orchestrator that composes them.  Transport, request decoding and process
//! bootstrap live outside the verified library.

pub mod api;
mod clock;
pub mod errors;
pub mod generator;
pub mod id128;
pub mod laws;
pub mod model;
pub mod parse;
pub mod store;
