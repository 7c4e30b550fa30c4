//! The error kinds that the vault core reports.
use vstd::prelude::*;

verus! {

#[derive(Clone, Copy, Debug, PartialEq, Eq, Structural)]
pub enum VaultError {
    /// Magic or version mismatch, or a header that does not decode.
    InvalidHeader,
    /// An AEAD tag did not match: wrong password or tampered data.
    AuthenticationFailed,
    /// A wrapped key or record too short to hold a nonce and a tag.
    MalformedCiphertext,
    /// A complete record in the log failed to open or to decode.
    CorruptLog,
    /// No live record for the requested id.
    NotFound,
    /// A file or operating-system failure.
    Io,
    /// A malformed id string or out-of-range parameters.
    InvalidArgument,
}

impl VaultError {
    /// A short human-readable description.
    pub fn message(&self) -> (r: &'static str) {
        match self {
            VaultError::InvalidHeader => "invalid vault header",
            VaultError::AuthenticationFailed => "decryption failure - wrong password or corrupted data",
            VaultError::MalformedCiphertext => "ciphertext too short",
            VaultError::CorruptLog => "corrupt vault log",
            VaultError::NotFound => "Entry not found",
            VaultError::Io => "i/o failure",
            VaultError::InvalidArgument => "invalid argument",
        }
    }
}

} // verus!
