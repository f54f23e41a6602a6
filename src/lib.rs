//! The threshold ECDSA core of a replicated subnet: the state machine that
//! decides which dealings, dealing supports and signature shares a replica
//! contributes to the shared artifact pool, sorts peers' artifacts into
//! validated and removed, and advances the block payload's 4-tuples until
//! signatures can be assembled.
//!
//! Every decision is a function of the finalized tip, a snapshot of the pool
//! and the outcomes of the cryptographic operations it needs; the
//! cryptographic service itself is a trait that the user provides.

pub mod codec;
pub mod crypto;
pub mod ecdsa;
pub mod gather;
pub mod laws;
pub mod payload;
pub mod pool;
pub mod pre_signer;
pub mod types;
