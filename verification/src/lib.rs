//! A constant-product automated market maker (AMM) paired with a
//! hashed-timelock escrow (HTLC), both operating over a shared in-memory
//! asset ledger and a monotonic block clock.
//!
//! The durable state lives in [`engine::Pallet`]; each public operation is
//! proved against a transition function in [`transitions`], which gives its
//! exact outcome — the error returned, or the successor state and the event
//! emitted. [`laws`] proves the properties that relate several operations:
//! exclusive pair creation, one-shot escrow resolution, and the
//! constant-product invariant of swaps.

pub mod engine;
pub mod hashing;
pub mod invariance;
pub mod laws;
pub mod ledger;
pub mod locks;
pub mod math;
pub mod registry;
pub mod store;
pub mod transitions;
pub mod types;
