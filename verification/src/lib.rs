//! Cryptographic core of a small end-to-end encrypted messenger: the X3DH
//! handshake, the Double Ratchet with header encryption, the binary wire
//! format and the bookkeeping around them.
//!
//! - [`primitives`]: the algorithm suite and the key-derivation functions.
//! - [`bundle`], [`x3dh`]: a user's keys, and the handshake in both roles.
//! - [`header`], [`skipped`], [`session`]: one Double Ratchet session.
//! - [`laws`]: what holds of sessions that talk to each other.
//! - [`wire`]: the wire message and its binary format.
//! - [`manager`]: a user's sessions, by peer.
//! - [`persist`]: the stored forms of sessions and keys.
//! - [`protocol`], [`directory`]: requests and responses, and the server's
//!   side of them.
//! - [`client`], [`credentials`]: what a client keeps, and what it derives
//!   from a password.
//! - [`bytes`], [`errors`]: helpers on byte strings, and the error kinds.

pub mod bundle;
pub mod bytes;
pub mod client;
pub mod credentials;
pub mod directory;
pub mod errors;
pub mod header;
pub mod laws;
pub mod manager;
pub mod persist;
pub mod primitives;
pub mod protocol;
pub mod session;
pub mod skipped;
pub mod wire;
pub mod x3dh;
