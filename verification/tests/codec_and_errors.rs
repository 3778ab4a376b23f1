//! The codec's exact byte forms, and one input for every error variant.

use gluesql_encryption::aead::CipherKey;
use gluesql_encryption::codec::{decode_value, encode_value};
use gluesql_encryption::encdec::{decrypt_value_in_place, encrypt_value_in_place};
use gluesql_encryption::nonce::{CounterNonce, NonceSource};
use gluesql_encryption::test_utils::new_key;
use gluesql_encryption::value::Value;
use gluesql_encryption::Error;

#[test]
fn exact_encoding_of_each_variant() {
    assert_eq!(encode_value(&Value::Null), vec![0u8]);
    assert_eq!(encode_value(&Value::Bool(false)), vec![1u8, 0]);
    assert_eq!(encode_value(&Value::Bool(true)), vec![1u8, 1]);
    assert_eq!(
        encode_value(&Value::I64(1)),
        vec![2u8, 1, 0, 0, 0, 0, 0, 0, 0]
    );
    assert_eq!(
        encode_value(&Value::I64(-1)),
        vec![2u8, 255, 255, 255, 255, 255, 255, 255, 255]
    );
    assert_eq!(
        encode_value(&Value::Str("AB".to_owned())),
        vec![3u8, 2, 0, 0, 0, 0, 0, 0, 0, 65, 0, 0, 0, 66, 0, 0, 0]
    );
    assert_eq!(
        encode_value(&Value::Bytea(vec![9, 8])),
        vec![4u8, 2, 0, 0, 0, 0, 0, 0, 0, 9, 8]
    );
    assert_eq!(
        encode_value(&Value::Opaque(vec![7])),
        vec![5u8, 1, 0, 0, 0, 0, 0, 0, 0, 7]
    );
}

#[test]
fn decode_inverts_encode() {
    let values = vec![
        Value::Null,
        Value::Bool(true),
        Value::I64(-123456789),
        Value::Str("caf\u{e9}".to_owned()),
        Value::Bytea(vec![0, 1, 2]),
        Value::Opaque(vec![250]),
    ];
    for v in values {
        let bytes = encode_value(&v);
        assert_eq!(decode_value(&bytes), Ok(v));
    }
}

#[test]
fn decode_rejects_malformed_bytes() {
    assert_eq!(decode_value(&vec![]), Err(Error::SerializationError));
    assert_eq!(decode_value(&vec![99u8]), Err(Error::SerializationError));
    assert_eq!(decode_value(&vec![0u8, 0]), Err(Error::SerializationError));
    assert_eq!(decode_value(&vec![1u8, 2]), Err(Error::SerializationError));
    assert_eq!(decode_value(&vec![2u8, 1, 0]), Err(Error::SerializationError));
    // Length prefix does not match the payload.
    assert_eq!(
        decode_value(&vec![4u8, 3, 0, 0, 0, 0, 0, 0, 0, 9]),
        Err(Error::SerializationError)
    );
    // A surrogate code point can be no character.
    assert_eq!(
        decode_value(&vec![3u8, 1, 0, 0, 0, 0, 0, 0, 0, 0x00, 0xD8, 0, 0]),
        Err(Error::SerializationError)
    );
}

#[test]
fn key_material_must_be_32_bytes() {
    assert!(CipherKey::new(vec![0u8; 32]).is_ok());
    assert!(matches!(CipherKey::new(vec![0u8; 31]), Err(Error::InvalidKey)));
    assert!(matches!(CipherKey::new(vec![0u8; 16]), Err(Error::InvalidKey)));
    assert!(matches!(CipherKey::new(Vec::new()), Err(Error::InvalidKey)));
}

#[test]
fn exhausted_counter_reports_nonce_exhausted() {
    let mut seq = CounterNonce::starting_at(u64::MAX);
    assert_eq!(seq.advance().unwrap_err(), Error::NonceExhausted);

    let key = new_key();
    let mut value = Value::I64(1);
    assert_eq!(
        encrypt_value_in_place(&key, &mut seq, &mut value),
        Err(Error::NonceExhausted)
    );
    assert_eq!(value, Value::I64(1));
}

#[test]
fn short_blob_reports_invalid_value() {
    let key = new_key();
    let mut value = Value::Bytea(vec![0u8; 27]);
    assert_eq!(decrypt_value_in_place(&key, &mut value), Err(Error::InvalidValue));
    assert_eq!(value, Value::Bytea(vec![0u8; 27]));
}

#[test]
fn unauthenticated_blob_reports_encryption_error() {
    let key = new_key();
    let mut value = Value::Bytea(vec![0u8; 28]);
    assert_eq!(decrypt_value_in_place(&key, &mut value), Err(Error::EncryptionError));
}
