//! Transparent field-level authenticated encryption for a row-oriented store.
//!
//! Every value written through this layer is serialized by the value codec and
//! sealed with AES-256-GCM before it reaches the underlying store; every value
//! read back is opened and decoded again.  The at-rest shape of an encrypted
//! value is `nonce || ciphertext || tag`, carried in the byte-array variant of
//! [`value::Value`].  Key rotation re-encrypts every value of a row under a
//! fresh key without changing that shape.

use vstd::prelude::*;

pub mod aead;
pub mod bytes;
pub mod codec;
pub mod encdec;
pub mod nonce;
pub mod test_utils;
pub mod value;

verus! {

/// Length in bytes of an AES-256-GCM nonce.
pub const NONCE_LEN: usize = 12;

/// Length in bytes of an AES-256-GCM authentication tag.
pub const TAG_LEN: usize = 16;

/// Length in bytes of AES-256 key material.
pub const KEY_LEN: usize = 32;

/// Everything that can go wrong in this layer.
///
/// Errors of the underlying store are not represented here: this library never
/// talks to the store itself, its callers do.
#[derive(Clone, Copy, Debug, PartialEq, Eq, Structural)]
pub enum Error {
    /// The value codec could not decode a plaintext buffer.
    SerializationError,
    /// AEAD sealing or opening failed: wrong key, tampered or corrupt data.
    EncryptionError,
    /// A stored byte buffer is too short to hold `nonce || ciphertext || tag`.
    InvalidValue,
    /// Key material of the wrong length, or a key that cannot read existing data.
    InvalidKey,
    /// The nonce sequencer cannot produce a fresh nonce any more.
    NonceExhausted,
}

} // verus!
