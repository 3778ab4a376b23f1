//! Value- and row-level behaviour of the encryption layer.

use gluesql_encryption::aead::CipherKey;
use gluesql_encryption::codec::encode_value;
use gluesql_encryption::encdec::{
    decrypt_row_in_place, decrypt_value_in_place, encrypt_row_in_place, encrypt_value_in_place,
    rotate_row_in_place, validate_key_against_row,
};
use gluesql_encryption::nonce::{CounterNonce, NonceSource};
use gluesql_encryption::test_utils::{new_key, RandNonce};
use gluesql_encryption::value::{DataRow, Value};
use gluesql_encryption::Error;

fn key_b() -> CipherKey {
    CipherKey::new(vec![1u8; 32]).unwrap()
}

fn round_trip(v: Value) {
    let key = new_key();
    let mut seq = CounterNonce::new();
    let original = v;
    let mut value = match &original {
        Value::Null => Value::Null,
        Value::Bool(b) => Value::Bool(*b),
        Value::I64(x) => Value::I64(*x),
        Value::Str(s) => Value::Str(s.clone()),
        Value::Bytea(b) => Value::Bytea(b.clone()),
        Value::Opaque(b) => Value::Opaque(b.clone()),
    };
    encrypt_value_in_place(&key, &mut seq, &mut value).unwrap();
    assert!(matches!(value, Value::Bytea(_)));
    assert_eq!(decrypt_value_in_place(&key, &mut value), Ok(true));
    assert_eq!(value, original);
}

#[test]
fn round_trip_null() {
    round_trip(Value::Null);
}

#[test]
fn round_trip_bool() {
    round_trip(Value::Bool(true));
    round_trip(Value::Bool(false));
}

#[test]
fn round_trip_i64() {
    round_trip(Value::I64(1));
    round_trip(Value::I64(0));
    round_trip(Value::I64(-1));
    round_trip(Value::I64(i64::MAX));
    round_trip(Value::I64(i64::MIN));
}

#[test]
fn round_trip_str() {
    round_trip(Value::Str(String::new()));
    round_trip(Value::Str("hello".to_owned()));
    round_trip(Value::Str("snowman \u{2603} and beyond \u{10348}".to_owned()));
}

#[test]
fn round_trip_bytea() {
    round_trip(Value::Bytea(vec![]));
    round_trip(Value::Bytea(vec![0, 255, 1, 2, 3]));
}

#[test]
fn round_trip_opaque() {
    round_trip(Value::Opaque(vec![9, 8, 7]));
}

#[test]
fn counter_nonces_are_distinct() {
    let mut seq = CounterNonce::new();
    let mut nonces: Vec<Vec<u8>> = Vec::new();
    for _ in 0..5 {
        let n = seq.advance().unwrap();
        assert_eq!(n.len(), 12);
        nonces.push(n);
    }
    for i in 0..nonces.len() {
        for j in 0..nonces.len() {
            if i != j {
                assert_ne!(nonces[i], nonces[j]);
            }
        }
    }
    assert_eq!(nonces[0], vec![0u8; 12]);
    assert_eq!(nonces[1], vec![1, 0, 0, 0, 0, 0, 0, 0, 0, 0, 0, 0]);
}

#[test]
fn random_nonces_have_nonce_length() {
    let mut seq = RandNonce::new();
    let a = seq.advance().unwrap();
    let b = seq.advance().unwrap();
    assert_eq!(a.len(), 12);
    assert_eq!(b.len(), 12);
    assert_ne!(a, b);
}

#[test]
fn tampered_ciphertext_is_detected() {
    let key = new_key();
    let mut seq = CounterNonce::new();
    let mut value = Value::I64(1);
    encrypt_value_in_place(&key, &mut seq, &mut value).unwrap();
    let blob = match value {
        Value::Bytea(b) => b,
        _ => panic!("encrypted value must be a byte array"),
    };

    // Flip one bit inside the ciphertext region.
    let mut corrupted = blob.clone();
    corrupted[12] ^= 1;
    let mut v = Value::Bytea(corrupted);
    assert_eq!(decrypt_value_in_place(&key, &mut v), Err(Error::EncryptionError));

    // Flip one bit inside the tag region.
    let mut corrupted = blob.clone();
    let last = corrupted.len() - 1;
    corrupted[last] ^= 0x80;
    let mut v = Value::Bytea(corrupted);
    assert_eq!(decrypt_value_in_place(&key, &mut v), Err(Error::EncryptionError));

    // Flip one bit inside the nonce, which doubles as associated data.
    let mut corrupted = blob.clone();
    corrupted[0] ^= 1;
    let mut v = Value::Bytea(corrupted);
    assert_eq!(decrypt_value_in_place(&key, &mut v), Err(Error::EncryptionError));
}

#[test]
fn wrong_key_is_detected() {
    let key_a = new_key();
    let mut seq = CounterNonce::new();
    let mut value = Value::I64(1);
    encrypt_value_in_place(&key_a, &mut seq, &mut value).unwrap();
    assert_eq!(decrypt_value_in_place(&key_b(), &mut value), Err(Error::EncryptionError));
}

#[test]
fn wrong_key_fails_row_validation() {
    let key_a = new_key();
    let mut seq = CounterNonce::new();
    let mut row = DataRow::Values(vec![Value::I64(1)]);
    encrypt_row_in_place(&key_a, &mut seq, &mut row).unwrap();
    assert_eq!(validate_key_against_row(&key_a, &row), Ok(()));
    assert_eq!(validate_key_against_row(&key_b(), &row), Err(Error::InvalidKey));
}

#[test]
fn plain_value_passes_through() {
    let key = new_key();
    let mut value = Value::I64(7);
    assert_eq!(decrypt_value_in_place(&key, &mut value), Ok(false));
    assert_eq!(value, Value::I64(7));

    let mut value = Value::Str("default".to_owned());
    assert_eq!(decrypt_value_in_place(&key, &mut value), Ok(false));
    assert_eq!(value, Value::Str("default".to_owned()));
}

#[test]
fn row_shape_is_preserved() {
    let key = new_key();
    let mut seq = CounterNonce::new();
    let original = DataRow::Values(vec![
        Value::Null,
        Value::Bool(true),
        Value::I64(-42),
        Value::Str("mixed".to_owned()),
        Value::Bytea(vec![1, 2, 3]),
        Value::Opaque(vec![4, 5]),
    ]);
    let mut row = DataRow::Values(vec![
        Value::Null,
        Value::Bool(true),
        Value::I64(-42),
        Value::Str("mixed".to_owned()),
        Value::Bytea(vec![1, 2, 3]),
        Value::Opaque(vec![4, 5]),
    ]);
    encrypt_row_in_place(&key, &mut seq, &mut row).unwrap();
    match &row {
        DataRow::Values(vs) => {
            assert_eq!(vs.len(), 6);
            for v in vs {
                assert!(matches!(v, Value::Bytea(_)));
            }
        }
        DataRow::Named(_) => panic!("representation must not change"),
    }
    decrypt_row_in_place(&key, &mut row).unwrap();
    assert_eq!(row, original);
}

#[test]
fn named_row_keeps_column_names() {
    let key = new_key();
    let mut seq = CounterNonce::new();
    let mut row = DataRow::Named(vec![
        ("id".to_owned(), Value::I64(1)),
        ("name".to_owned(), Value::Str("ada".to_owned())),
    ]);
    encrypt_row_in_place(&key, &mut seq, &mut row).unwrap();
    match &row {
        DataRow::Named(ps) => {
            assert_eq!(ps.len(), 2);
            assert_eq!(ps[0].0, "id");
            assert_eq!(ps[1].0, "name");
            assert!(matches!(ps[0].1, Value::Bytea(_)));
            assert!(matches!(ps[1].1, Value::Bytea(_)));
        }
        DataRow::Values(_) => panic!("representation must not change"),
    }
    decrypt_row_in_place(&key, &mut row).unwrap();
    assert_eq!(
        row,
        DataRow::Named(vec![
            ("id".to_owned(), Value::I64(1)),
            ("name".to_owned(), Value::Str("ada".to_owned())),
        ])
    );
}

/// A caller inserts `{id: 1}` through the layer and reads it back: the stored
/// bytes are sealed, never the plain serialization, and the read returns the
/// plain value again.
#[test]
fn stored_bytes_are_sealed() {
    let key = new_key();
    let mut seq = CounterNonce::new();

    // Write path: the row is sealed before it reaches the store.
    let mut row = DataRow::Values(vec![Value::I64(1)]);
    encrypt_row_in_place(&key, &mut seq, &mut row).unwrap();

    // What the store holds is an opaque blob, not the value's byte form.
    let stored = match &row {
        DataRow::Values(vs) => match &vs[0] {
            Value::Bytea(b) => b.clone(),
            _ => panic!("stored value must be a byte array"),
        },
        DataRow::Named(_) => panic!("representation must not change"),
    };
    let plain_bytes = encode_value(&Value::I64(1));
    assert_ne!(stored, plain_bytes);
    assert_eq!(stored.len(), 12 + plain_bytes.len() + 16);
    assert_ne!(&stored[12..12 + plain_bytes.len()], plain_bytes.as_slice());

    // Read path: the caller sees the plain value again.
    decrypt_row_in_place(&key, &mut row).unwrap();
    assert_eq!(row, DataRow::Values(vec![Value::I64(1)]));
}

/// Key rotation: data sealed under key A is re-keyed to key B; afterwards the
/// row reads under B, and A no longer validates against it.
#[test]
fn key_rotation_re_keys_the_row() {
    let key_a = new_key();
    let key_b = key_b();
    let mut seq = CounterNonce::new();

    let mut row = DataRow::Values(vec![Value::I64(1)]);
    encrypt_row_in_place(&key_a, &mut seq, &mut row).unwrap();

    rotate_row_in_place(&key_a, &key_b, &mut seq, &mut row).unwrap();

    assert_eq!(validate_key_against_row(&key_b, &row), Ok(()));
    assert_eq!(validate_key_against_row(&key_a, &row), Err(Error::InvalidKey));

    decrypt_row_in_place(&key_b, &mut row).unwrap();
    assert_eq!(row, DataRow::Values(vec![Value::I64(1)]));
}

/// Rotation seals values that were stored plain before, as a default column
/// literal would be.
#[test]
fn key_rotation_seals_plain_values() {
    let key_a = new_key();
    let key_b = key_b();
    let mut seq = CounterNonce::new();

    let mut row = DataRow::Values(vec![Value::I64(5)]);
    rotate_row_in_place(&key_a, &key_b, &mut seq, &mut row).unwrap();
    match &row {
        DataRow::Values(vs) => assert!(matches!(vs[0], Value::Bytea(_))),
        DataRow::Named(_) => panic!("representation must not change"),
    }
    decrypt_row_in_place(&key_b, &mut row).unwrap();
    assert_eq!(row, DataRow::Values(vec![Value::I64(5)]));
}

/// A row-encrypt failure leaves a clean split: values before the failure are
/// sealed, the failing value and everything after it are untouched.
#[test]
fn row_encrypt_failure_splits_the_row() {
    let key = new_key();
    // One nonce left: the second value exhausts the sequencer.
    let mut seq = CounterNonce::starting_at(u64::MAX - 1);
    let mut row = DataRow::Values(vec![Value::I64(1), Value::I64(2), Value::I64(3)]);
    assert_eq!(
        encrypt_row_in_place(&key, &mut seq, &mut row),
        Err(Error::NonceExhausted)
    );
    match &row {
        DataRow::Values(vs) => {
            assert_eq!(vs.len(), 3);
            assert!(matches!(vs[0], Value::Bytea(_)));
            assert_eq!(vs[1], Value::I64(2));
            assert_eq!(vs[2], Value::I64(3));
        }
        DataRow::Named(_) => panic!("representation must not change"),
    }
}

/// A row-decrypt failure reports the first failing value's own error and
/// leaves that value and everything after it untouched.
#[test]
fn row_decrypt_failure_reports_first_cause() {
    let key = new_key();
    let mut seq = CounterNonce::new();
    let mut good = Value::I64(7);
    encrypt_value_in_place(&key, &mut seq, &mut good).unwrap();
    let tail_blob = match &good {
        Value::Bytea(b) => b.clone(),
        _ => panic!("encrypted value must be a byte array"),
    };
    let mut first = Value::I64(5);
    encrypt_value_in_place(&key, &mut seq, &mut first).unwrap();

    // The under-framed value fails first, with InvalidValue.
    let mut row = DataRow::Values(vec![first, Value::Bytea(vec![0u8; 10]), good]);
    assert_eq!(decrypt_row_in_place(&key, &mut row), Err(Error::InvalidValue));
    match &row {
        DataRow::Values(vs) => {
            assert_eq!(vs[0], Value::I64(5));
            assert_eq!(vs[1], Value::Bytea(vec![0u8; 10]));
            assert_eq!(vs[2], Value::Bytea(tail_blob));
        }
        DataRow::Named(_) => panic!("representation must not change"),
    }
}

/// A rotation failure leaves a clean split: values before the failure are
/// re-sealed under the new key, the failing value reports its own cause, and
/// everything after it is untouched.
#[test]
fn row_rotation_failure_splits_the_row() {
    let key_a = new_key();
    let key_b = key_b();
    let mut seq = CounterNonce::new();

    let mut row = DataRow::Values(vec![Value::I64(1), Value::Bytea(vec![0u8; 10]), Value::I64(3)]);
    encrypt_value_in_place(&key_a, &mut seq, match &mut row {
        DataRow::Values(vs) => &mut vs[0],
        DataRow::Named(_) => panic!("representation must not change"),
    })
    .unwrap();

    // The under-framed second value cannot open: rotation stops there.
    assert_eq!(
        rotate_row_in_place(&key_a, &key_b, &mut seq, &mut row),
        Err(Error::InvalidValue)
    );
    match &row {
        DataRow::Values(vs) => {
            // First value: re-sealed under the new key.
            let mut first = (&vs[0]).duplicate();
            assert_eq!(decrypt_value_in_place(&key_b, &mut first), Ok(true));
            assert_eq!(first, Value::I64(1));
            // Failing value and the rest: untouched.
            assert_eq!(vs[1], Value::Bytea(vec![0u8; 10]));
            assert_eq!(vs[2], Value::I64(3));
        }
        DataRow::Named(_) => panic!("representation must not change"),
    }
}

/// When the sequencer exhausts mid-rotation, the failing value is left as its
/// opened plain form and the rest untouched.
#[test]
fn rotation_exhaustion_leaves_opened_value() {
    let key_a = new_key();
    let key_b = key_b();
    let mut seq = CounterNonce::new();

    let mut row = DataRow::Values(vec![Value::I64(4), Value::I64(5)]);
    encrypt_row_in_place(&key_a, &mut seq, &mut row).unwrap();

    // One nonce left: the first value rotates, the second exhausts at sealing.
    let mut short_seq = CounterNonce::starting_at(u64::MAX - 1);
    assert_eq!(
        rotate_row_in_place(&key_a, &key_b, &mut short_seq, &mut row),
        Err(Error::NonceExhausted)
    );
    match &row {
        DataRow::Values(vs) => {
            let mut first = (&vs[0]).duplicate();
            assert_eq!(decrypt_value_in_place(&key_b, &mut first), Ok(true));
            assert_eq!(first, Value::I64(4));
            // The failing value was opened under the old key but not re-sealed.
            assert_eq!(vs[1], Value::I64(5));
        }
        DataRow::Named(_) => panic!("representation must not change"),
    }
}
