//! A synchronous, dealerless distributed key generation (DKG) protocol for
//! BLS threshold cryptography over the BLS12-381 curve.
//!
//! Each participating node contributes a random bivariate polynomial through a
//! `Propose` message, confirms other nodes' contributions through `Accept`
//! messages, and, once enough proposals are complete, derives a shared public
//! key set together with its own secret key share. No single node ever learns
//! the master secret.
//!
//! The protocol is a pure, single-threaded state machine: the transport is
//! expected to deliver the identical message sequence to every node.

pub mod crypto;
pub mod fault_log;
pub mod sync_key_gen;

pub use fault_log::{Fault, FaultKind, FaultLog};
pub use sync_key_gen::{Accept, Propose, ProposeOutcome, SyncKeyGen};
