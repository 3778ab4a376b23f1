//! The nonce sequencer: a fresh nonce for every sealing under one key.
//!
//! No key may ever see one nonce twice; that is the central invariant of the
//! whole layer.  Sealing always draws from a [`NonceSource`] held by `&mut`,
//! which serializes access.  The trait carries a ghost draw history, so the
//! sealing contracts can tie every blob to the draw that produced its nonce.
//! [`CounterNonce`] renders a monotone counter into the nonce, and its whole
//! draw history is provably pairwise distinct; a random source lives beside
//! the test helpers.

use vstd::prelude::*;

use crate::bytes::{lemma_u64_le_injective, push_u64_le, u64_le};
use crate::{Error, NONCE_LEN};

verus! {

/// A source of nonces for sealing under one key.
pub trait NonceSource {
    /// The nonces handed out so far, oldest first.
    spec fn drawn(&self) -> Seq<Seq<u8>>;

    /// Whether the source can still produce a nonce.
    spec fn can_advance(&self) -> bool;

    /// Produces the next nonce of [`NONCE_LEN`] bytes and appends it to the
    /// draw history, or reports exhaustion leaving the history as it is.
    fn advance(&mut self) -> (r: Result<Vec<u8>, Error>)
        ensures
            r matches Ok(n) ==> n@.len() == NONCE_LEN && final(self).drawn() == old(
                self,
            ).drawn().push(n@),
            r is Err ==> final(self).drawn() == old(self).drawn(),
            r matches Err(e) ==> e == Error::NonceExhausted,
            old(self).can_advance() ==> r is Ok,
    ;
}

/// The nonce a counter value is rendered into: the value's 8-byte
/// little-endian image padded with four zero bytes.
pub open spec fn counter_nonce(c: u64) -> Seq<u8> {
    u64_le(c) + seq![0u8, 0u8, 0u8, 0u8]
}

/// Distinct counter values render into distinct nonces.
pub proof fn lemma_counter_nonces_distinct(c1: u64, c2: u64)
    requires
        c1 != c2,
    ensures
        counter_nonce(c1) != counter_nonce(c2),
{
    if counter_nonce(c1) == counter_nonce(c2) {
        assert(u64_le(c1) =~= u64_le(c2)) by {
            assert forall|i: int| 0 <= i < 8 implies u64_le(c1)[i] == u64_le(c2)[i] by {
                assert(counter_nonce(c1)[i] == counter_nonce(c2)[i]);
            }
        }
        lemma_u64_le_injective(c1, c2);
    }
}

/// A deterministic nonce sequencer: a monotone counter rendered into each
/// nonce.  Restarting it from an old value under an unchanged key would reuse
/// nonces, so either persist the counter with the key or change the key; see
/// [`CounterNonce::starting_at`].
pub struct CounterNonce {
    next: u64,
    started: Ghost<u64>,
    history: Ghost<Seq<Seq<u8>>>,
}

impl CounterNonce {
    /// The counter value the next nonce is rendered from.
    pub closed spec fn counter(&self) -> u64 {
        self.next
    }

    /// The sequencer's draws are consecutive counter values rendered into
    /// nonces: the `i`-th draw is the image of the counter it started at
    /// plus `i`.  Both constructors establish this and [`Self::advance`]
    /// keeps it.
    pub closed spec fn wf(&self) -> bool {
        &&& self.started@ <= self.next
        &&& self.next - self.started@ == self.history@.len()
        &&& forall|i: int|
            0 <= i < self.history@.len() ==> self.history@[i] == counter_nonce(
                (self.started@ + i) as u64,
            )
    }

    /// A sequencer starting at zero, for a key no data was sealed under yet.
    pub fn new() -> (r: CounterNonce)
        ensures
            r.counter() == 0,
            r.drawn() == Seq::<Seq<u8>>::empty(),
            r.wf(),
            r.can_advance(),
    {
        CounterNonce { next: 0, started: Ghost(0), history: Ghost(Seq::empty()) }
    }

    /// Resumes a sequencer from a persisted counter value.
    pub fn starting_at(next: u64) -> (r: CounterNonce)
        ensures
            r.counter() == next,
            r.drawn() == Seq::<Seq<u8>>::empty(),
            r.wf(),
    {
        CounterNonce { next, started: Ghost(next), history: Ghost(Seq::empty()) }
    }
}

impl NonceSource for CounterNonce {
    closed spec fn drawn(&self) -> Seq<Seq<u8>> {
        self.history@
    }

    closed spec fn can_advance(&self) -> bool {
        self.next < u64::MAX
    }

    fn advance(&mut self) -> (r: Result<Vec<u8>, Error>)
        ensures
            r matches Ok(n) ==> n@.len() == NONCE_LEN && final(self).drawn() == old(
                self,
            ).drawn().push(n@),
            r is Err ==> final(self).drawn() == old(self).drawn(),
            r matches Err(e) ==> e == Error::NonceExhausted,
            old(self).can_advance() ==> r is Ok,
            r matches Ok(n) ==> n@ == counter_nonce(old(self).counter()) && final(self).counter()
                == old(self).counter() + 1,
            r is Err ==> *final(self) == *old(self),
            old(self).wf() ==> final(self).wf(),
    {
        if self.next == u64::MAX {
            return Err(Error::NonceExhausted);
        }
        let mut n: Vec<u8> = Vec::new();
        push_u64_le(&mut n, self.next);
        n.push(0);
        n.push(0);
        n.push(0);
        n.push(0);
        self.next = self.next + 1;
        proof {
            assert(n@ =~= counter_nonce(old(self).next));
            self.history@ = self.history@.push(n@);
        }
        Ok(n)
    }
}

/// Never twice one nonce under one key — the layer's central invariant —
/// shown of the counter sequencer: its whole draw history is pairwise
/// distinct, however many draws were made and wherever it started.
pub proof fn lemma_counter_drawn_distinct(s: CounterNonce, i: int, j: int)
    requires
        s.wf(),
        0 <= i < j < s.drawn().len(),
    ensures
        s.drawn()[i] != s.drawn()[j],
{
    lemma_counter_nonces_distinct((s.started@ + i) as u64, (s.started@ + j) as u64);
}

} // verus!
