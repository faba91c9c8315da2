//! Core of a cross-chain NFT bridge relayer.
//!
//! The library tracks every in-flight bridge request through a durable state
//! machine: a request is received, the locked token is observed on the origin
//! chain, a representative token is minted on the destination chain, and the
//! request completes.  All records live in a byte-keyed store behind a
//! self-describing codec, together with a swap-remove set of pending request
//! ids and an append-only list of completed ones.  Chain RPC, websockets and
//! HTTP are thin adapters around this crate and stay outside of it.

pub mod chain;
pub mod codec;
pub mod db;
pub mod endpoints;
pub mod errors;
pub mod events;
pub mod pending;
pub mod recovery;
pub mod registry;
pub mod state;
pub mod text;
pub mod types;
pub mod worker;
