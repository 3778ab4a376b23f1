//! The cipher engine: AES-256-GCM sealing and opening through `ring`.
//!
//! A [`CipherKey`] carries the key material beside the prepared `ring` key, so
//! contracts can speak of the material as plain bytes.  What sealing and
//! opening return is named by [`sealed_of`] and [`opened_of`]: both are
//! functions of the key material, the nonce (which doubles as the associated
//! data throughout this crate) and the input bytes alone.

use vstd::prelude::*;

use crate::{Error, KEY_LEN, NONCE_LEN, TAG_LEN};

verus! {

/// `ring`'s AEAD key type, carried opaquely.
#[verifier::external_type_specification]
#[verifier::external_body]
pub struct ExLessSafeKey(ring::aead::LessSafeKey);

/// What AES-256-GCM sealing returns: the ciphertext followed by the 16-byte
/// tag, as a function of key material, nonce and plaintext.
pub uninterp spec fn sealed_of(key: Seq<u8>, nonce: Seq<u8>, plaintext: Seq<u8>) -> Seq<u8>;

/// What AES-256-GCM opening returns: the plaintext, or nothing when
/// authentication fails, as a function of key material, nonce and input.
pub uninterp spec fn opened_of(key: Seq<u8>, nonce: Seq<u8>, ciphertext: Seq<u8>) -> Option<
    Seq<u8>,
>;

/// A plaintext length up to which sealing is promised to succeed; well under
/// the AES-GCM per-message limit.
pub const SEAL_MAX: u64 = 0xffff_ffff;

/// An AES-256-GCM key, together with the 32 bytes of material it was built
/// from.  The material is what the contracts of [`aead_seal`] and
/// [`aead_open`] speak of.
pub struct CipherKey {
    material: Vec<u8>,
    inner: ring::aead::LessSafeKey,
}

impl View for CipherKey {
    type V = Seq<u8>;

    closed spec fn view(&self) -> Seq<u8> {
        self.material@
    }
}

impl CipherKey {
    /// Relies on `ring::aead::UnboundKey::new` with `AES_256_GCM`, which
    /// succeeds exactly on material of the algorithm's key length, and on
    /// `ring::aead::LessSafeKey::new`, which wraps the key unchanged.
    #[verifier::external_body]
    pub fn new(material: Vec<u8>) -> (r: Result<CipherKey, Error>)
        ensures
            r matches Ok(k) ==> k@ == material@ && material@.len() == KEY_LEN,
            r matches Err(e) ==> e == Error::InvalidKey && material@.len() != KEY_LEN,
    {
        match ring::aead::UnboundKey::new(&ring::aead::AES_256_GCM, material.as_slice()) {
            Ok(unbound) => Ok(
                CipherKey { material, inner: ring::aead::LessSafeKey::new(unbound) },
            ),
            Err(_) => Err(Error::InvalidKey),
        }
    }
}

/// Seals `plaintext` under `key` with `nonce`, the nonce itself serving as
/// associated data; yields the ciphertext with the tag appended.
///
/// Relies on `ring::aead::LessSafeKey::seal_in_place_separate_tag` with
/// `AES_256_GCM`: its output is a function of key material, nonce, associated
/// data and plaintext alone; the tag is 16 bytes; it accepts any input well
/// under the AES-GCM per-message limit; and opening its output under the same
/// key, nonce and associated data yields the plaintext again.
#[verifier::external_body]
pub fn aead_seal(key: &CipherKey, nonce: &Vec<u8>, plaintext: Vec<u8>) -> (r: Result<
    Vec<u8>,
    Error,
>)
    requires
        nonce@.len() == NONCE_LEN,
    ensures
        r matches Ok(c) ==> c@ == sealed_of(key@, nonce@, plaintext@) && c@.len() == plaintext@.len()
            + TAG_LEN && opened_of(key@, nonce@, c@) == Some(plaintext@),
        plaintext@.len() <= SEAL_MAX ==> r is Ok,
        r matches Err(e) ==> e == Error::EncryptionError,
{
    let mut buf = plaintext;
    let arr: [u8; 12] = match nonce.as_slice().try_into() {
        Ok(a) => a,
        Err(_) => return Err(Error::EncryptionError),
    };
    let n = ring::aead::Nonce::assume_unique_for_key(arr);
    match key.inner.seal_in_place_separate_tag(n, ring::aead::Aad::from(arr), buf.as_mut_slice()) {
        Ok(tag) => {
            buf.extend_from_slice(tag.as_ref());
            Ok(buf)
        },
        Err(_) => Err(Error::EncryptionError),
    }
}

/// Opens `ciphertext` (ciphertext with trailing tag) under `key` with `nonce`,
/// the nonce itself serving as associated data.
///
/// Relies on `ring::aead::LessSafeKey::open_in_place` with `AES_256_GCM`: its
/// outcome is a function of key material, nonce, associated data and input
/// alone; it fails when the tag does not authenticate; and it yields exactly
/// the plaintext whose sealing under the same key, nonce and associated data
/// produced the input.
#[verifier::external_body]
pub fn aead_open(key: &CipherKey, nonce: &Vec<u8>, ciphertext: Vec<u8>) -> (r: Result<
    Vec<u8>,
    Error,
>)
    requires
        nonce@.len() == NONCE_LEN,
    ensures
        r matches Ok(p) ==> opened_of(key@, nonce@, ciphertext@) == Some(p@),
        r is Ok <==> opened_of(key@, nonce@, ciphertext@) is Some,
        r matches Err(e) ==> e == Error::EncryptionError,
{
    let mut buf = ciphertext;
    let arr: [u8; 12] = match nonce.as_slice().try_into() {
        Ok(a) => a,
        Err(_) => return Err(Error::EncryptionError),
    };
    let n = ring::aead::Nonce::assume_unique_for_key(arr);
    match key.inner.open_in_place(n, ring::aead::Aad::from(arr), buf.as_mut_slice()) {
        Ok(plain) => Ok(plain.to_vec()),
        Err(_) => Err(Error::EncryptionError),
    }
}

} // verus!
