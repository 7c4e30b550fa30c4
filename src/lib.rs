//! A local, offline password vault: a single append-only file of
//! authenticated-encrypted records under a key hierarchy derived from a
//! master password, and a rule-driven password generator.
//!
//! - `crypto`: Argon2id, AES-256-GCM, HKDF-SHA256 and Ed25519, and the
//!   wrapping of the data-encrypting key.
//! - `codec`: varints, the header and the entry plaintext, with their
//!   round-trip laws.
//! - `vault`: record framing, replay, last-write-wins and tombstones.
//! - `keyring`: unlocking and the per-operation call surface.
//! - `password`: password and pronounceable-password generation.
//! - `platform`: clipboard and idle-lock timing decisions.
use vstd::prelude::*;

pub mod codec;
pub mod crypto;
pub mod error;
pub mod keyring;
pub mod password;
pub mod platform;
pub mod vault;

verus! {

} // verus!
