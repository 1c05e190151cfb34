//! Identity-scoped signing key custody backed by an external
//! threshold-signature authority.
//!
//! Each caller identity is deterministically mapped to a derived public key,
//! and messages on behalf of that identity can be signed without this library
//! ever holding a private key. The library owns the pure core: the
//! environment-driven configuration table, the identity-to-key store, the
//! state transitions around the external derivation and signing calls, and
//! the snapshot/restore byte codec used across process restarts. The external
//! authority itself and the host's transport live outside, in the surrounding
//! process, which hands plain values in and out.

pub mod config;
pub mod errors;
pub mod keystore;
pub mod state;
pub mod gateway;
pub mod persist;
