//! Core of a session-based packet relay server.
//!
//! The crate provides the building blocks of an authoritative game-session
//! server: a symmetric little-endian binary codec with a proved round-trip
//! law, a slot pool with stable handles and free-list reuse, the wire
//! protocol records, password-gated sessions with selective packet fan-out
//! and kick authority, the per-thread worker bookkeeping, and a
//! double-buffered snapshot primitive with a synchronize-on-publish
//! contract.  All socket work lives outside this crate; the functions here
//! take and return plain values and decide what the surrounding I/O layer
//! must do.

pub mod codec;
pub mod pathfinder;
pub mod pool;
pub mod protocol;
pub mod sample;
pub mod session;
pub mod store;
pub mod sync;
pub mod worker;

use vstd::prelude::*;

verus! {

} // verus!
