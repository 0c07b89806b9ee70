//! Core of an end-to-end encrypted multi-device messaging client.
//!
//! - `handshake` and `symmetric`: the transport handshake with the relay,
//!   which authenticates it against a pinned root key and yields the two
//!   frame ciphers of `frame`.
//! - `codec`: the compact binary encoding of message trees.
//! - `chain`, `session`, `ratchet`, `bootstrap`: pairwise end-to-end sessions,
//!   from prekey bundles to single-use message keys.
//! - `group`: group sender keys.
//! - `store`: the device's key material.
//! - `correlator` and `iq`: matching responses to outstanding requests.

pub mod bytes;
pub mod tables;
pub mod error;
pub mod crypto;
pub mod codec;
pub mod symmetric;
pub mod frame;
pub mod handshake;
pub mod chain;
pub mod session;
pub mod ratchet;
pub mod bootstrap;
pub mod group;
pub mod records;
pub mod store;
pub mod correlator;
pub mod iq;
