//! Helpers for exercising the layer: a random nonce source and a fixed key.
//!
//! [`RandNonce`] is the recommended production sequencer: fresh random bytes
//! per nonce, no persisted state, collision odds negligible at realistic
//! volumes.  Nothing can be promised of a random value, so its contract says
//! only what holds of every draw; the provable uniqueness statement lives
//! with [`crate::nonce::CounterNonce`].

use vstd::prelude::*;

use rand_chacha::rand_core::SeedableRng;

use crate::aead::CipherKey;
use crate::nonce::NonceSource;
use crate::{Error, KEY_LEN, NONCE_LEN};

verus! {

/// `rand_chacha`'s ChaCha-20 generator, carried opaquely.
#[verifier::external_type_specification]
#[verifier::external_body]
pub struct ExChaCha20Rng(rand_chacha::ChaCha20Rng);

/// Relies on rand_core's `RngCore::fill_bytes` for `ChaCha20Rng`: fills the
/// buffer with generator output and cannot fail.
#[verifier::external_body]
fn chacha_nonce(rng: &mut rand_chacha::ChaCha20Rng) -> (r: Vec<u8>)
    ensures
        r@.len() == NONCE_LEN,
{
    let mut nonce = [0u8; 12];
    rand_chacha::rand_core::RngCore::fill_bytes(rng, &mut nonce);
    nonce.to_vec()
}

/// A nonce source drawing random bytes from a ChaCha-20 generator.
pub struct RandNonce {
    /// The generator the nonces are drawn from.
    pub rng: rand_chacha::ChaCha20Rng,
    history: Ghost<Seq<Seq<u8>>>,
}

/// Relies on `ChaCha20Rng::from_os_rng` (rand_core's `SeedableRng`): a fresh
/// generator seeded by the operating system.  The call panics if the
/// operating system cannot supply entropy; that depends on the environment,
/// not on any argument.
#[verifier::external_body]
fn chacha_from_os() -> (r: rand_chacha::ChaCha20Rng) {
    rand_chacha::ChaCha20Rng::from_os_rng()
}

impl RandNonce {
    /// A source over a fresh generator seeded by the operating system.
    pub fn new() -> (r: RandNonce)
        ensures
            r.drawn() == Seq::<Seq<u8>>::empty(),
    {
        RandNonce { rng: chacha_from_os(), history: Ghost(Seq::empty()) }
    }
}

impl NonceSource for RandNonce {
    closed spec fn drawn(&self) -> Seq<Seq<u8>> {
        self.history@
    }

    open spec fn can_advance(&self) -> bool {
        true
    }

    fn advance(&mut self) -> (r: Result<Vec<u8>, Error>) {
        let n: Vec<u8> = chacha_nonce(&mut self.rng);
        proof {
            self.history@ = self.history@.push(n@);
        }
        Ok(n)
    }
}

/// A fixed all-zero AES-256 key, for exercising the layer.
pub fn new_key() -> (k: CipherKey)
    ensures
        k@ == Seq::new(KEY_LEN as nat, |i: int| 0u8),
{
    let mut material: Vec<u8> = Vec::new();
    let mut i: usize = 0;
    while i < KEY_LEN
        invariant
            i <= KEY_LEN,
            material@ == Seq::new(i as nat, |j: int| 0u8),
        decreases KEY_LEN - i,
    {
        material.push(0);
        proof {
            assert(material@ =~= Seq::new((i + 1) as nat, |j: int| 0u8));
        }
        i = i + 1;
    }
    match CipherKey::new(material) {
        Ok(k) => k,
        Err(_) => {
            proof {
                assert(false);
            }
            vstd::pervasive::unreached()
        },
    }
}

} // verus!
