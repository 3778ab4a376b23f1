//! Value and row crypto: sealing, opening and re-keying in place.
//!
//! An encrypted value is the byte-array variant holding
//! `nonce || ciphertext || tag`; the nonce doubles as associated data, which
//! binds it to the ciphertext.  Row operations apply the value operations to
//! every value of a row and stop at the first failure; they never change the
//! row's shape.

use vstd::prelude::*;

use crate::aead::{aead_open, aead_seal, opened_of, sealed_of, CipherKey, SEAL_MAX};
use crate::codec::{
    decodable, decode_value, decoded, encode_value, encoding, lemma_encoding_injective,
};
use crate::nonce::NonceSource;
use crate::value::{wf_value, DataRow, RowView, Value, ValueView};
use crate::{Error, NONCE_LEN, TAG_LEN};

verus! {

/// The at-rest blob of value `v` sealed under key material `key` with `nonce`:
/// the nonce, then the ciphertext and tag of the value's byte form.
pub open spec fn blob_of(key: Seq<u8>, nonce: Seq<u8>, v: ValueView) -> Seq<u8> {
    nonce + sealed_of(key, nonce, encoding(v))
}

/// Whether decrypting `v` under key material `key` succeeds: a value outside
/// the byte-array variant passes through; a byte-array value must frame a
/// nonce and tag, authenticate, and hold a decodable plaintext.
pub open spec fn value_opens(key: Seq<u8>, v: ValueView) -> bool {
    match v {
        ValueView::Bytea(b) => b.len() >= NONCE_LEN + TAG_LEN && (opened_of(
            key,
            b.take(NONCE_LEN as int),
            b.skip(NONCE_LEN as int),
        ) matches Some(p) && decodable(p)),
        _ => true,
    }
}

/// What decrypting `v` under key material `key` yields when it succeeds.
pub open spec fn value_plain(key: Seq<u8>, v: ValueView) -> ValueView {
    match v {
        ValueView::Bytea(b) => decoded(
            opened_of(key, b.take(NONCE_LEN as int), b.skip(NONCE_LEN as int)).unwrap(),
        ),
        _ => v,
    }
}

/// The error a value that fails to open reports, by its cause: a frame too
/// short for nonce and tag, an authentication failure, or an opened plaintext
/// that is no value encoding.
pub open spec fn open_failure(key: Seq<u8>, v: ValueView) -> Error
    recommends
        !value_opens(key, v),
{
    match v {
        ValueView::Bytea(b) => if b.len() < NONCE_LEN + TAG_LEN {
            Error::InvalidValue
        } else if opened_of(key, b.take(NONCE_LEN as int), b.skip(NONCE_LEN as int)) is None {
            Error::EncryptionError
        } else {
            Error::SerializationError
        },
        _ => Error::InvalidValue,
    }
}

/// `b` is an at-rest sealing of `a` under key material `key`: some nonce's
/// blob, which opens back to exactly `a`.
pub open spec fn encrypted_pair(key: Seq<u8>, a: ValueView, b: ValueView) -> bool {
    &&& wf_value(a)
    &&& exists|n: Seq<u8>| n.len() == NONCE_LEN && b == ValueView::Bytea(blob_of(key, n, a))
    &&& value_opens(key, b)
    &&& value_plain(key, b) == a
}

/// The values of a row, in order.
pub open spec fn row_values(r: RowView) -> Seq<ValueView> {
    match r {
        RowView::Values(vs) => vs,
        RowView::Named(ps) => ps.map_values(|p: (Seq<char>, ValueView)| p.1),
    }
}

/// Rows of one shape: the same representation, the same arity, and for named
/// rows the same column names in the same order.
pub open spec fn same_shape(a: RowView, b: RowView) -> bool {
    match (a, b) {
        (RowView::Values(x), RowView::Values(y)) => x.len() == y.len(),
        (RowView::Named(x), RowView::Named(y)) => x.len() == y.len() && (forall|i: int|
            0 <= i < x.len() ==> x[i].0 == #[trigger] y[i].0),
        _ => false,
    }
}

/// The round trip of value crypto: whatever blob a sealing call produced for
/// a well-formed value `v` — its contract says the blob's tail is
/// `sealed_of` of the value's byte form, sixteen bytes longer than that form,
/// and opens back to it — that blob is a byte-array value which opens under
/// the same key material and yields exactly `v` again.
pub proof fn lemma_value_round_trip(key: Seq<u8>, n: Seq<u8>, v: ValueView)
    requires
        wf_value(v),
        n.len() == NONCE_LEN,
        sealed_of(key, n, encoding(v)).len() == encoding(v).len() + TAG_LEN,
        opened_of(key, n, sealed_of(key, n, encoding(v))) == Some(encoding(v)),
    ensures
        value_opens(key, ValueView::Bytea(blob_of(key, n, v))),
        value_plain(key, ValueView::Bytea(blob_of(key, n, v))) == v,
{
    let blob = blob_of(key, n, v);
    assert(blob.take(NONCE_LEN as int) =~= n);
    assert(blob.skip(NONCE_LEN as int) =~= sealed_of(key, n, encoding(v)));
    assert(wf_value(v) && encoding(v) == encoding(v));
    assert(decodable(encoding(v)));
    lemma_encoding_injective(decoded(encoding(v)), v);
}

/// Tamper and wrong-key detection, as far as the cipher's contract carries
/// it: a framed byte-array value whose ciphertext does not authenticate under
/// the key material — the named open result being nothing, which is what
/// AES-GCM yields for a flipped bit, an altered nonce or another key — does
/// not open, and decryption reports exactly `EncryptionError` for it; a row
/// holding such a value therefore fails key validation with `InvalidKey`.
pub proof fn lemma_authentication_failure_is_encryption_error(key: Seq<u8>, b: Seq<u8>)
    requires
        b.len() >= NONCE_LEN + TAG_LEN,
        opened_of(key, b.take(NONCE_LEN as int), b.skip(NONCE_LEN as int)) is None,
    ensures
        !value_opens(key, ValueView::Bytea(b)),
        open_failure(key, ValueView::Bytea(b)) == Error::EncryptionError,
{
}

/// Seals one value in place: draws a nonce from the sequencer, renders the
/// value in its byte form, seals that under `key` with the nonce as associated
/// data, and replaces the value by the blob `nonce || ciphertext || tag` in
/// the byte-array variant.  What it wrote opens back to the original value
/// under the same key.
pub fn encrypt_value_in_place<N: NonceSource>(
    key: &CipherKey,
    nonce_sequence: &mut N,
    value: &mut Value,
) -> (r: Result<(), Error>)
    ensures
        r is Ok ==> wf_value(old(value)@) && ({
            let n = final(nonce_sequence).drawn().last();
            &&& final(nonce_sequence).drawn() == old(nonce_sequence).drawn().push(n)
            &&& n.len() == NONCE_LEN
            &&& final(value)@ == ValueView::Bytea(blob_of(key@, n, old(value)@))
            &&& blob_of(key@, n, old(value)@).len() == NONCE_LEN + TAG_LEN + encoding(
                old(value)@,
            ).len()
        }),
        r is Ok ==> value_opens(key@, final(value)@) && value_plain(key@, final(value)@) == old(
            value,
        )@,
        r is Err ==> final(value)@ == old(value)@,
        old(nonce_sequence).drawn().is_prefix_of(final(nonce_sequence).drawn()),
        final(nonce_sequence).drawn().len() <= old(nonce_sequence).drawn().len() + 1,
        old(nonce_sequence).can_advance() && encoding(old(value)@).len() <= SEAL_MAX ==> r is Ok,
        r matches Err(e) ==> e == Error::NonceExhausted || e == Error::EncryptionError,
{
    let nonce: Vec<u8> = match nonce_sequence.advance() {
        Ok(n) => n,
        Err(e) => {
            return Err(e);
        },
    };
    let plaintext: Vec<u8> = encode_value(value);
    let ghost pt: Seq<u8> = plaintext@;
    let sealed: Vec<u8> = match aead_seal(key, &nonce, plaintext) {
        Ok(c) => c,
        Err(e) => {
            return Err(e);
        },
    };
    let ghost nv: Seq<u8> = nonce@;
    let ghost cv: Seq<u8> = sealed@;
    let ghost original: ValueView = value@;
    let mut blob: Vec<u8> = nonce;
    let mut tail: Vec<u8> = sealed;
    blob.append(&mut tail);
    *value = Value::Bytea(blob);
    proof {
        assert(blob@.take(NONCE_LEN as int) =~= nv);
        assert(blob@.skip(NONCE_LEN as int) =~= cv);
        assert(blob@ =~= blob_of(key@, nv, original));
        assert(wf_value(original) && encoding(original) == pt);
        assert(decodable(pt));
        lemma_encoding_injective(decoded(pt), original);
    }
    Ok(())
}

/// Opens one value in place.  A value outside the byte-array variant is
/// already plain: it is left untouched and reported as not encrypted.  A
/// byte-array value is split into nonce and ciphertext, opened under `key`
/// with the nonce as associated data, and decoded back into a value.
///
/// The outcome is a function of the key material and the old value alone,
/// and a failure reports its cause's own error: `InvalidValue` for a frame
/// too short to hold nonce and tag, `EncryptionError` exactly when
/// authentication fails, `SerializationError` exactly when the opened
/// plaintext is no value encoding.
pub fn decrypt_value_in_place(key: &CipherKey, value: &mut Value) -> (r: Result<bool, Error>)
    ensures
        !(old(value)@ is Bytea) ==> r == Ok::<bool, Error>(false) && final(value)@ == old(value)@,
        r is Ok ==> final(value)@ == value_plain(key@, old(value)@) && (r == Ok::<bool, Error>(true)
            <==> old(value)@ is Bytea),
        value_opens(key@, old(value)@) <==> r is Ok,
        r is Err ==> final(value)@ == old(value)@,
        r matches Err(e) ==> old(value)@ is Bytea && e == open_failure(key@, old(value)@),
{
    let is_bytea: bool = match &*value {
        Value::Bytea(_) => true,
        _ => false,
    };
    if !is_bytea {
        return Ok(false);
    }
    let (nonce, ct): (Vec<u8>, Vec<u8>) = match &*value {
        Value::Bytea(b) => {
            let blen: usize = b.len();
            if blen < NONCE_LEN + TAG_LEN {
                return Err(Error::InvalidValue);
            }
            let nonce: Vec<u8> = vstd::slice::slice_to_vec(
                vstd::slice::slice_subrange(b.as_slice(), 0, NONCE_LEN),
            );
            let ct: Vec<u8> = vstd::slice::slice_to_vec(
                vstd::slice::slice_subrange(b.as_slice(), NONCE_LEN, blen),
            );
            (nonce, ct)
        },
        _ => {
            return Ok(false);
        },
    };
    proof {
        let b = old(value)@->Bytea_0;
        assert(nonce@ =~= b.take(NONCE_LEN as int));
        assert(ct@ =~= b.skip(NONCE_LEN as int));
    }
    let opened: Vec<u8> = match aead_open(key, &nonce, ct) {
        Ok(p) => p,
        Err(e) => {
            return Err(e);
        },
    };
    let plain: Value = match decode_value(&opened) {
        Ok(v) => v,
        Err(e) => {
            return Err(e);
        },
    };
    proof {
        let b = old(value)@->Bytea_0;
        assert(decodable(opened@));
        lemma_encoding_injective(decoded(opened@), plain@);
    }
    *value = plain;
    Ok(true)
}

/// Re-keys one value in place: opens it under `old_key` (a value outside the
/// byte-array variant is already plain) and seals the plain value under
/// `new_key` with a fresh nonce from the sequencer.  Every value of a re-keyed
/// row ends up sealed, also one that was stored plain before.  On failure the
/// value is untouched when it did not open, and left as its opened plain form
/// when only the re-sealing failed.
pub fn rotate_value_in_place<N: NonceSource>(
    old_key: &CipherKey,
    new_key: &CipherKey,
    nonce_sequence: &mut N,
    value: &mut Value,
) -> (r: Result<(), Error>)
    ensures
        r is Ok ==> value_opens(old_key@, old(value)@),
        r is Ok ==> value_opens(new_key@, final(value)@) && value_plain(new_key@, final(value)@)
            == value_plain(old_key@, old(value)@) && final(value)@ is Bytea,
        r is Ok ==> ({
            let n = final(nonce_sequence).drawn().last();
            &&& final(nonce_sequence).drawn() == old(nonce_sequence).drawn().push(n)
            &&& n.len() == NONCE_LEN
            &&& final(value)@ == ValueView::Bytea(
                blob_of(new_key@, n, value_plain(old_key@, old(value)@)),
            )
        }),
        old(nonce_sequence).drawn().is_prefix_of(final(nonce_sequence).drawn()),
        final(nonce_sequence).drawn().len() <= old(nonce_sequence).drawn().len() + 1,
        value_opens(old_key@, old(value)@) && old(nonce_sequence).can_advance() && encoding(
            value_plain(old_key@, old(value)@),
        ).len() <= SEAL_MAX ==> r is Ok,
        r matches Err(e) ==> e == Error::InvalidValue || e == Error::EncryptionError
            || e == Error::SerializationError || e == Error::NonceExhausted,
        r is Err ==> (if value_opens(old_key@, old(value)@) {
            final(value)@ == value_plain(old_key@, old(value)@)
        } else {
            final(value)@ == old(value)@
        }),
        r matches Err(e) ==> (!value_opens(old_key@, old(value)@) ==> e == open_failure(
            old_key@,
            old(value)@,
        )),
        r matches Err(e) ==> (value_opens(old_key@, old(value)@) ==> e == Error::NonceExhausted
            || e == Error::EncryptionError),
{
    match decrypt_value_in_place(old_key, value) {
        Ok(_) => {},
        Err(e) => {
            return Err(e);
        },
    }
    match encrypt_value_in_place(new_key, nonce_sequence, value) {
        Ok(()) => Ok(()),
        Err(e) => Err(e),
    }
}

/// Seals every value of a row in place, stopping at the first failure: the
/// values before it are already sealed, the failing value and everything
/// after it are untouched.  The row's shape — representation, arity, column
/// names and their order — never changes; on success every stored value is a
/// sealing of the corresponding original value and opens back to it.
pub fn encrypt_row_in_place<N: NonceSource>(
    key: &CipherKey,
    nonce_sequence: &mut N,
    row: &mut DataRow,
) -> (r: Result<(), Error>)
    ensures
        same_shape(old(row)@, final(row)@),
        r is Ok ==> forall|i: int|
            0 <= i < row_values(old(row)@).len() ==> encrypted_pair(
                key@,
                #[trigger] row_values(old(row)@)[i],
                row_values(final(row)@)[i],
            ),
        r matches Err(e) ==> e == Error::NonceExhausted || e == Error::EncryptionError,
        row_values(old(row)@).len() == 0 ==> r is Ok,
        r is Err ==> (exists|f: int|
            #![trigger row_values(old(row)@)[f]]
            0 <= f < row_values(old(row)@).len() && (forall|k: int|
                0 <= k < f ==> encrypted_pair(
                    key@,
                    #[trigger] row_values(old(row)@)[k],
                    row_values(final(row)@)[k],
                )) && (forall|k: int|
                f <= k < row_values(old(row)@).len() ==> row_values(final(row)@)[k]
                    == #[trigger] row_values(old(row)@)[k])),
        old(nonce_sequence).drawn().is_prefix_of(final(nonce_sequence).drawn()),
        r is Ok ==> final(nonce_sequence).drawn().len() == old(nonce_sequence).drawn().len()
            + row_values(old(row)@).len() && (forall|i: int|
            0 <= i < row_values(old(row)@).len() ==> row_values(final(row)@)[i]
                == ValueView::Bytea(
                blob_of(
                    key@,
                    final(nonce_sequence).drawn()[old(nonce_sequence).drawn().len() + i],
                    #[trigger] row_values(old(row)@)[i],
                ),
            )) && (forall|i: int|
            0 <= i < row_values(old(row)@).len()
                ==> (#[trigger] final(nonce_sequence).drawn()[old(nonce_sequence).drawn().len()
                + i]).len() == NONCE_LEN),
        row_values(old(row)@).len() == 1 && old(nonce_sequence).can_advance() && encoding(
            row_values(old(row)@)[0],
        ).len() <= SEAL_MAX ==> r is Ok,
{
    let mut owned: DataRow = DataRow::Values(Vec::new());
    core::mem::swap(row, &mut owned);
    match owned {
        DataRow::Values(mut vs) => {
            let ghost orig: Seq<ValueView> = vs@.map_values(|v: Value| v@);
            let ghost d0: Seq<Seq<u8>> = nonce_sequence.drawn();
            let mut failure: Option<Error> = None;
            let ghost mut fail_at: int = 0;
            let mut i: usize = 0;
            while i < vs.len()
                invariant
                    vs@.len() == orig.len(),
                    i <= vs@.len(),
                    d0 == old(nonce_sequence).drawn(),
                    d0.is_prefix_of(nonce_sequence.drawn()),
                    i == 0 ==> *nonce_sequence == *old(nonce_sequence),
                    vs@.len() == 1 && old(nonce_sequence).can_advance() && encoding(
                        orig[0],
                    ).len() <= SEAL_MAX ==> failure is None,
                    failure is None ==> forall|k: int|
                        0 <= k < i ==> encrypted_pair(key@, #[trigger] orig[k], vs@[k]@),
                    failure is None ==> nonce_sequence.drawn().len() == d0.len() + i && (forall|
                        k: int,
                    |
                        0 <= k < i ==> vs@[k]@ == ValueView::Bytea(
                            blob_of(
                                key@,
                                nonce_sequence.drawn()[d0.len() + k],
                                #[trigger] orig[k],
                            ),
                        )) && (forall|k: int|
                        0 <= k < i ==> (#[trigger] nonce_sequence.drawn()[d0.len() + k]).len()
                            == NONCE_LEN),
                    forall|k: int| i <= k < vs@.len() ==> #[trigger] vs@[k]@ == orig[k],
                    failure matches Some(e) ==> (e == Error::NonceExhausted
                        || e == Error::EncryptionError) && 0 <= fail_at < i && (forall|k: int|
                        0 <= k < fail_at ==> encrypted_pair(key@, #[trigger] orig[k], vs@[k]@)) && (
                    forall|k: int| fail_at <= k < vs@.len() ==> #[trigger] vs@[k]@ == orig[k]),
                decreases vs@.len() - i,
            {
                if failure.is_none() {
                    let elem: &mut Value = vstd::std_specs::vec::vec_index_mut(&mut vs, i);
                    match encrypt_value_in_place(key, nonce_sequence, elem) {
                        Ok(()) => {},
                        Err(e) => {
                            failure = Some(e);
                            proof {
                                fail_at = i as int;
                            }
                        },
                    }
                }
                i = i + 1;
            }
            proof {
                assert(row_values(old(row)@) =~= orig);
            }
            *row = DataRow::Values(vs);
            proof {
                if failure is Some {
                    assert(row_values(old(row)@)[fail_at] == orig[fail_at]);
                }
            }
            match failure {
                None => Ok(()),
                Some(e) => Err(e),
            }
        },
        DataRow::Named(mut vs) => {
            let ghost orig: Seq<(Seq<char>, ValueView)> = vs@.map_values(
                |p: (String, Value)| (p.0@, p.1@),
            );
            let ghost d0: Seq<Seq<u8>> = nonce_sequence.drawn();
            let mut failure: Option<Error> = None;
            let ghost mut fail_at: int = 0;
            let mut i: usize = 0;
            while i < vs.len()
                invariant
                    vs@.len() == orig.len(),
                    i <= vs@.len(),
                    d0 == old(nonce_sequence).drawn(),
                    d0.is_prefix_of(nonce_sequence.drawn()),
                    i == 0 ==> *nonce_sequence == *old(nonce_sequence),
                    vs@.len() == 1 && old(nonce_sequence).can_advance() && encoding(
                        orig[0].1,
                    ).len() <= SEAL_MAX ==> failure is None,
                    forall|k: int| 0 <= k < vs@.len() ==> (#[trigger] vs@[k].0)@ == orig[k].0,
                    failure is None ==> forall|k: int|
                        0 <= k < i ==> encrypted_pair(key@, #[trigger] orig[k].1, vs@[k].1@),
                    failure is None ==> nonce_sequence.drawn().len() == d0.len() + i && (forall|
                        k: int,
                    |
                        0 <= k < i ==> vs@[k].1@ == ValueView::Bytea(
                            blob_of(
                                key@,
                                nonce_sequence.drawn()[d0.len() + k],
                                #[trigger] orig[k].1,
                            ),
                        )) && (forall|k: int|
                        0 <= k < i ==> (#[trigger] nonce_sequence.drawn()[d0.len() + k]).len()
                            == NONCE_LEN),
                    forall|k: int| i <= k < vs@.len() ==> (#[trigger] vs@[k].1)@ == orig[k].1,
                    failure matches Some(e) ==> (e == Error::NonceExhausted
                        || e == Error::EncryptionError) && 0 <= fail_at < i && (forall|k: int|
                        0 <= k < fail_at ==> encrypted_pair(key@, #[trigger] orig[k].1, vs@[k].1@))
                        && (forall|k: int|
                        fail_at <= k < vs@.len() ==> (#[trigger] vs@[k].1)@ == orig[k].1),
                decreases vs@.len() - i,
            {
                if failure.is_none() {
                    let elem: &mut (String, Value) = vstd::std_specs::vec::vec_index_mut(
                        &mut vs,
                        i,
                    );
                    match encrypt_value_in_place(key, nonce_sequence, &mut elem.1) {
                        Ok(()) => {},
                        Err(e) => {
                            failure = Some(e);
                            proof {
                                fail_at = i as int;
                            }
                        },
                    }
                }
                i = i + 1;
            }
            proof {
                assert(row_values(old(row)@) =~= orig.map_values(
                    |q: (Seq<char>, ValueView)| q.1,
                ));
            }
            *row = DataRow::Named(vs);
            proof {
                if failure is Some {
                    assert(row_values(old(row)@)[fail_at] == orig[fail_at].1);
                }
            }
            match failure {
                None => Ok(()),
                Some(e) => Err(e),
            }
        },
    }
}

/// Opens every value of a row in place, stopping at the first failure: the
/// values before it are already opened, the failing value and everything
/// after it are untouched, and the first failure's own error is returned.
/// The row's shape never changes; values stored plain pass through untouched.
/// Succeeds exactly when every value of the row opens under `key`.
pub fn decrypt_row_in_place(key: &CipherKey, row: &mut DataRow) -> (r: Result<(), Error>)
    ensures
        same_shape(old(row)@, final(row)@),
        r is Ok <==> (forall|i: int|
            0 <= i < row_values(old(row)@).len() ==> value_opens(
                key@,
                #[trigger] row_values(old(row)@)[i],
            )),
        r is Ok ==> forall|i: int|
            0 <= i < row_values(old(row)@).len() ==> row_values(final(row)@)[i] == value_plain(
                key@,
                #[trigger] row_values(old(row)@)[i],
            ),
        r matches Err(e) ==> e == Error::InvalidValue || e == Error::EncryptionError
            || e == Error::SerializationError,
        r matches Err(e) ==> (exists|f: int|
            #![trigger row_values(old(row)@)[f]]
            0 <= f < row_values(old(row)@).len() && !value_opens(
                key@,
                row_values(old(row)@)[f],
            ) && e == open_failure(key@, row_values(old(row)@)[f]) && (forall|k: int|
                0 <= k < f ==> value_opens(key@, #[trigger] row_values(old(row)@)[k])
                    && row_values(final(row)@)[k] == value_plain(
                    key@,
                    row_values(old(row)@)[k],
                )) && (forall|k: int|
                f <= k < row_values(old(row)@).len() ==> row_values(final(row)@)[k]
                    == #[trigger] row_values(old(row)@)[k])),
{
    let mut owned: DataRow = DataRow::Values(Vec::new());
    core::mem::swap(row, &mut owned);
    match owned {
        DataRow::Values(mut vs) => {
            let ghost orig: Seq<ValueView> = vs@.map_values(|v: Value| v@);
            let mut failure: Option<Error> = None;
            let ghost mut fail_at: int = 0;
            let mut i: usize = 0;
            while i < vs.len()
                invariant
                    vs@.len() == orig.len(),
                    i <= vs@.len(),
                    failure is None ==> forall|k: int|
                        0 <= k < i ==> value_opens(key@, #[trigger] orig[k]) && vs@[k]@
                            == value_plain(key@, orig[k]),
                    forall|k: int| i <= k < vs@.len() ==> #[trigger] vs@[k]@ == orig[k],
                    failure matches Some(e) ==> 0 <= fail_at < i && !value_opens(
                        key@,
                        orig[fail_at],
                    ) && e == open_failure(key@, orig[fail_at]) && (forall|k: int|
                        0 <= k < fail_at ==> value_opens(key@, #[trigger] orig[k]) && vs@[k]@
                            == value_plain(key@, orig[k])) && (forall|k: int|
                        fail_at <= k < vs@.len() ==> #[trigger] vs@[k]@ == orig[k]),
                decreases vs@.len() - i,
            {
                if failure.is_none() {
                    let elem: &mut Value = vstd::std_specs::vec::vec_index_mut(&mut vs, i);
                    match decrypt_value_in_place(key, elem) {
                        Ok(_) => {},
                        Err(e) => {
                            failure = Some(e);
                            proof {
                                fail_at = i as int;
                            }
                        },
                    }
                }
                i = i + 1;
            }
            proof {
                assert(row_values(old(row)@) =~= orig);
                if failure is None {
                    assert forall|i2: int|
                        0 <= i2 < row_values(old(row)@).len() implies value_opens(
                        key@,
                        #[trigger] row_values(old(row)@)[i2],
                    ) by {
                        assert(value_opens(key@, orig[i2]));
                    }
                }
            }
            *row = DataRow::Values(vs);
            proof {
                if failure is Some {
                    assert(row_values(old(row)@)[fail_at] == orig[fail_at]);
                    assert(!value_opens(key@, row_values(old(row)@)[fail_at]));
                }
            }
            match failure {
                None => Ok(()),
                Some(e) => Err(e),
            }
        },
        DataRow::Named(mut vs) => {
            let ghost orig: Seq<(Seq<char>, ValueView)> = vs@.map_values(
                |p: (String, Value)| (p.0@, p.1@),
            );
            let mut failure: Option<Error> = None;
            let ghost mut fail_at: int = 0;
            let mut i: usize = 0;
            while i < vs.len()
                invariant
                    vs@.len() == orig.len(),
                    i <= vs@.len(),
                    forall|k: int| 0 <= k < vs@.len() ==> (#[trigger] vs@[k].0)@ == orig[k].0,
                    failure is None ==> forall|k: int|
                        0 <= k < i ==> value_opens(key@, #[trigger] orig[k].1) && vs@[k].1@
                            == value_plain(key@, orig[k].1),
                    forall|k: int| i <= k < vs@.len() ==> (#[trigger] vs@[k].1)@ == orig[k].1,
                    failure matches Some(e) ==> 0 <= fail_at < i && !value_opens(
                        key@,
                        orig[fail_at].1,
                    ) && e == open_failure(key@, orig[fail_at].1) && (forall|k: int|
                        0 <= k < fail_at ==> value_opens(key@, #[trigger] orig[k].1) && vs@[k].1@
                            == value_plain(key@, orig[k].1)) && (forall|k: int|
                        fail_at <= k < vs@.len() ==> (#[trigger] vs@[k].1)@ == orig[k].1),
                decreases vs@.len() - i,
            {
                if failure.is_none() {
                    let elem: &mut (String, Value) = vstd::std_specs::vec::vec_index_mut(
                        &mut vs,
                        i,
                    );
                    match decrypt_value_in_place(key, &mut elem.1) {
                        Ok(_) => {},
                        Err(e) => {
                            failure = Some(e);
                            proof {
                                fail_at = i as int;
                            }
                        },
                    }
                }
                i = i + 1;
            }
            proof {
                assert(row_values(old(row)@) =~= orig.map_values(
                    |q: (Seq<char>, ValueView)| q.1,
                ));
                if failure is None {
                    assert forall|i2: int|
                        0 <= i2 < row_values(old(row)@).len() implies value_opens(
                        key@,
                        #[trigger] row_values(old(row)@)[i2],
                    ) by {
                        assert(row_values(old(row)@)[i2] == orig[i2].1);
                        assert(value_opens(key@, orig[i2].1));
                    }
                }
            }
            *row = DataRow::Named(vs);
            proof {
                if failure is Some {
                    assert(row_values(old(row)@)[fail_at] == orig[fail_at].1);
                    assert(!value_opens(key@, row_values(old(row)@)[fail_at]));
                }
            }
            match failure {
                None => Ok(()),
                Some(e) => Err(e),
            }
        },
    }
}

/// Re-keys every value of a row in place, stopping at the first failure: each
/// value is opened under `old_key` and sealed again under `new_key` with a
/// fresh nonce from the sequencer.  On failure, the values before the failing
/// one are already re-keyed, the failing one is untouched (or left opened in
/// place when only its re-sealing failed) and reports its own cause, and
/// everything after it is untouched.  The row's shape never changes.
pub fn rotate_row_in_place<N: NonceSource>(
    old_key: &CipherKey,
    new_key: &CipherKey,
    nonce_sequence: &mut N,
    row: &mut DataRow,
) -> (r: Result<(), Error>)
    ensures
        same_shape(old(row)@, final(row)@),
        r is Ok ==> forall|i: int|
            0 <= i < row_values(old(row)@).len() ==> value_opens(
                new_key@,
                row_values(final(row)@)[i],
            ) && row_values(final(row)@)[i] is Bytea && value_plain(
                new_key@,
                row_values(final(row)@)[i],
            ) == value_plain(old_key@, #[trigger] row_values(old(row)@)[i]),
        r is Ok ==> forall|i: int|
            0 <= i < row_values(old(row)@).len() ==> value_opens(
                old_key@,
                #[trigger] row_values(old(row)@)[i],
            ),
        r matches Err(e) ==> e == Error::InvalidValue || e == Error::EncryptionError
            || e == Error::SerializationError || e == Error::NonceExhausted,
        row_values(old(row)@).len() == 0 ==> r is Ok,
        row_values(old(row)@).len() == 1 && value_opens(old_key@, row_values(old(row)@)[0])
            && old(nonce_sequence).can_advance() && encoding(
            value_plain(old_key@, row_values(old(row)@)[0]),
        ).len() <= SEAL_MAX ==> r is Ok,
        old(nonce_sequence).drawn().is_prefix_of(final(nonce_sequence).drawn()),
        r is Ok ==> final(nonce_sequence).drawn().len() == old(nonce_sequence).drawn().len()
            + row_values(old(row)@).len() && (forall|i: int|
            0 <= i < row_values(old(row)@).len() ==> row_values(final(row)@)[i]
                == ValueView::Bytea(
                blob_of(
                    new_key@,
                    final(nonce_sequence).drawn()[old(nonce_sequence).drawn().len() + i],
                    value_plain(old_key@, #[trigger] row_values(old(row)@)[i]),
                ),
            )),
        r matches Err(e) ==> (exists|f: int|
            #![trigger row_values(old(row)@)[f]]
            0 <= f < row_values(old(row)@).len() && (forall|k: int|
                0 <= k < f ==> value_opens(old_key@, #[trigger] row_values(old(row)@)[k])
                    && value_opens(new_key@, row_values(final(row)@)[k]) && row_values(
                    final(row)@,
                )[k] is Bytea && value_plain(new_key@, row_values(final(row)@)[k]) == value_plain(
                    old_key@,
                    row_values(old(row)@)[k],
                )) && (forall|k: int|
                f < k < row_values(old(row)@).len() ==> row_values(final(row)@)[k]
                    == #[trigger] row_values(old(row)@)[k]) && (if !value_opens(
                old_key@,
                row_values(old(row)@)[f],
            ) {
                e == open_failure(old_key@, row_values(old(row)@)[f]) && row_values(final(row)@)[f]
                    == row_values(old(row)@)[f]
            } else {
                (e == Error::NonceExhausted || e == Error::EncryptionError) && row_values(
                    final(row)@,
                )[f] == value_plain(old_key@, row_values(old(row)@)[f])
            })),
{
    let mut owned: DataRow = DataRow::Values(Vec::new());
    core::mem::swap(row, &mut owned);
    match owned {
        DataRow::Values(mut vs) => {
            let ghost orig: Seq<ValueView> = vs@.map_values(|v: Value| v@);
            let ghost d0: Seq<Seq<u8>> = nonce_sequence.drawn();
            let mut failure: Option<Error> = None;
            let ghost mut fail_at: int = 0;
            let mut i: usize = 0;
            while i < vs.len()
                invariant
                    vs@.len() == orig.len(),
                    i <= vs@.len(),
                    d0 == old(nonce_sequence).drawn(),
                    d0.is_prefix_of(nonce_sequence.drawn()),
                    i == 0 ==> *nonce_sequence == *old(nonce_sequence),
                    vs@.len() == 1 && value_opens(old_key@, orig[0]) && old(
                        nonce_sequence,
                    ).can_advance() && encoding(value_plain(old_key@, orig[0])).len() <= SEAL_MAX
                        ==> failure is None,
                    failure is None ==> forall|k: int|
                        0 <= k < i ==> value_opens(old_key@, #[trigger] orig[k]) && value_opens(
                            new_key@,
                            vs@[k]@,
                        ) && vs@[k]@ is Bytea && value_plain(new_key@, vs@[k]@) == value_plain(
                            old_key@,
                            orig[k],
                        ),
                    failure is None ==> nonce_sequence.drawn().len() == d0.len() + i && (forall|
                        k: int,
                    |
                        0 <= k < i ==> vs@[k]@ == ValueView::Bytea(
                            blob_of(
                                new_key@,
                                nonce_sequence.drawn()[d0.len() + k],
                                value_plain(old_key@, #[trigger] orig[k]),
                            ),
                        )),
                    forall|k: int| i <= k < vs@.len() ==> #[trigger] vs@[k]@ == orig[k],
                    failure matches Some(e) ==> vs@.len() > 0 && 0 <= fail_at < i && (forall|
                        k: int,
                    |
                        0 <= k < fail_at ==> value_opens(old_key@, #[trigger] orig[k])
                            && value_opens(new_key@, vs@[k]@) && vs@[k]@ is Bytea && value_plain(
                            new_key@,
                            vs@[k]@,
                        ) == value_plain(old_key@, orig[k])) && (forall|k: int|
                        fail_at < k < vs@.len() ==> #[trigger] vs@[k]@ == orig[k]) && (if !value_opens(
                        old_key@,
                        orig[fail_at],
                    ) {
                        e == open_failure(old_key@, orig[fail_at]) && vs@[fail_at]@
                            == orig[fail_at]
                    } else {
                        (e == Error::NonceExhausted || e == Error::EncryptionError)
                            && vs@[fail_at]@ == value_plain(old_key@, orig[fail_at])
                    }),
                decreases vs@.len() - i,
            {
                if failure.is_none() {
                    let elem: &mut Value = vstd::std_specs::vec::vec_index_mut(&mut vs, i);
                    match rotate_value_in_place(old_key, new_key, nonce_sequence, elem) {
                        Ok(()) => {},
                        Err(e) => {
                            failure = Some(e);
                            proof {
                                fail_at = i as int;
                            }
                        },
                    }
                }
                i = i + 1;
            }
            proof {
                assert(row_values(old(row)@) =~= orig);
            }
            *row = DataRow::Values(vs);
            proof {
                if failure is Some {
                    assert(row_values(old(row)@)[fail_at] == orig[fail_at]);
                }
            }
            match failure {
                None => Ok(()),
                Some(e) => Err(e),
            }
        },
        DataRow::Named(mut vs) => {
            let ghost orig: Seq<(Seq<char>, ValueView)> = vs@.map_values(
                |p: (String, Value)| (p.0@, p.1@),
            );
            let ghost d0: Seq<Seq<u8>> = nonce_sequence.drawn();
            let mut failure: Option<Error> = None;
            let ghost mut fail_at: int = 0;
            let mut i: usize = 0;
            while i < vs.len()
                invariant
                    vs@.len() == orig.len(),
                    i <= vs@.len(),
                    d0 == old(nonce_sequence).drawn(),
                    d0.is_prefix_of(nonce_sequence.drawn()),
                    i == 0 ==> *nonce_sequence == *old(nonce_sequence),
                    vs@.len() == 1 && value_opens(old_key@, orig[0].1) && old(
                        nonce_sequence,
                    ).can_advance() && encoding(value_plain(old_key@, orig[0].1)).len() <= SEAL_MAX
                        ==> failure is None,
                    forall|k: int| 0 <= k < vs@.len() ==> (#[trigger] vs@[k].0)@ == orig[k].0,
                    failure is None ==> forall|k: int|
                        0 <= k < i ==> value_opens(old_key@, #[trigger] orig[k].1) && value_opens(
                            new_key@,
                            vs@[k].1@,
                        ) && vs@[k].1@ is Bytea && value_plain(new_key@, vs@[k].1@) == value_plain(
                            old_key@,
                            orig[k].1,
                        ),
                    failure is None ==> nonce_sequence.drawn().len() == d0.len() + i && (forall|
                        k: int,
                    |
                        0 <= k < i ==> vs@[k].1@ == ValueView::Bytea(
                            blob_of(
                                new_key@,
                                nonce_sequence.drawn()[d0.len() + k],
                                value_plain(old_key@, #[trigger] orig[k].1),
                            ),
                        )),
                    forall|k: int| i <= k < vs@.len() ==> (#[trigger] vs@[k].1)@ == orig[k].1,
                    failure matches Some(e) ==> vs@.len() > 0 && 0 <= fail_at < i && (forall|
                        k: int,
                    |
                        0 <= k < fail_at ==> value_opens(old_key@, #[trigger] orig[k].1)
                            && value_opens(new_key@, vs@[k].1@) && vs@[k].1@ is Bytea
                            && value_plain(new_key@, vs@[k].1@) == value_plain(
                            old_key@,
                            orig[k].1,
                        )) && (forall|k: int|
                        fail_at < k < vs@.len() ==> (#[trigger] vs@[k].1)@ == orig[k].1) && (
                    if !value_opens(old_key@, orig[fail_at].1) {
                        e == open_failure(old_key@, orig[fail_at].1) && vs@[fail_at].1@
                            == orig[fail_at].1
                    } else {
                        (e == Error::NonceExhausted || e == Error::EncryptionError)
                            && vs@[fail_at].1@ == value_plain(old_key@, orig[fail_at].1)
                    }),
                decreases vs@.len() - i,
            {
                if failure.is_none() {
                    let elem: &mut (String, Value) = vstd::std_specs::vec::vec_index_mut(
                        &mut vs,
                        i,
                    );
                    match rotate_value_in_place(old_key, new_key, nonce_sequence, &mut elem.1) {
                        Ok(()) => {},
                        Err(e) => {
                            failure = Some(e);
                            proof {
                                fail_at = i as int;
                            }
                        },
                    }
                }
                i = i + 1;
            }
            proof {
                assert(row_values(old(row)@) =~= orig.map_values(
                    |q: (Seq<char>, ValueView)| q.1,
                ));
            }
            *row = DataRow::Named(vs);
            proof {
                if failure is Some {
                    assert(row_values(old(row)@)[fail_at] == orig[fail_at].1);
                }
            }
            match failure {
                None => Ok(()),
                Some(e) => Err(e),
            }
        },
    }
}

/// Checks that `key` can open every value of a probe row, leaving the row
/// untouched; a key that cannot read the data is reported as `InvalidKey`.
pub fn validate_key_against_row(key: &CipherKey, row: &DataRow) -> (r: Result<(), Error>)
    ensures
        r is Ok <==> (forall|i: int|
            0 <= i < row_values(row@).len() ==> value_opens(
                key@,
                #[trigger] row_values(row@)[i],
            )),
        r matches Err(e) ==> e == Error::InvalidKey,
{
    match row {
        DataRow::Values(vs) => {
            let mut i: usize = 0;
            while i < vs.len()
                invariant
                    i <= vs@.len(),
                    row@ == RowView::Values(vs@.map_values(|v: Value| v@)),
                    forall|k: int|
                        0 <= k < i ==> value_opens(key@, #[trigger] row_values(row@)[k]),
                decreases vs@.len() - i,
            {
                let mut probe: Value = (&vs[i]).duplicate();
                match decrypt_value_in_place(key, &mut probe) {
                    Ok(_) => {},
                    Err(_) => {
                        proof {
                            assert(row_values(row@)[i as int] == vs@[i as int]@);
                            assert(!value_opens(key@, row_values(row@)[i as int]));
                        }
                        return Err(Error::InvalidKey);
                    },
                }
                i = i + 1;
            }
            Ok(())
        },
        DataRow::Named(vs) => {
            let mut i: usize = 0;
            while i < vs.len()
                invariant
                    i <= vs@.len(),
                    row@ == RowView::Named(
                        vs@.map_values(|p: (String, Value)| (p.0@, p.1@)),
                    ),
                    forall|k: int|
                        0 <= k < i ==> value_opens(key@, #[trigger] row_values(row@)[k]),
                decreases vs@.len() - i,
            {
                let mut probe: Value = (&vs[i].1).duplicate();
                match decrypt_value_in_place(key, &mut probe) {
                    Ok(_) => {},
                    Err(_) => {
                        proof {
                            assert(row_values(row@)[i as int] == vs@[i as int].1@);
                            assert(!value_opens(key@, row_values(row@)[i as int]));
                        }
                        return Err(Error::InvalidKey);
                    },
                }
                i = i + 1;
            }
            Ok(())
        },
    }
}

} // verus!
