//! The value codec: a stable, self-describing byte form for [`Value`].
//!
//! Every value is rendered as one code byte followed by the payload.
//! Variable-length payloads carry an 8-byte little-endian length prefix;
//! text is rendered one character per 4-byte little-endian scalar value.
//! Encoding is injective, and decoding accepts exactly the encodings.

use vstd::prelude::*;

use crate::bytes::{
    lemma_u32_le_inverse, lemma_u64_le_inverse, push_u32_le, push_u64_le, read_u32_le, read_u64_le,
    u32_le, u64_le,
};
use crate::value::{wf_value, Value, ValueView};
use crate::Error;

verus! {

/// Code byte of the absent value.
pub const CODE_NULL: u8 = 0;

/// Code byte of a boolean.
pub const CODE_BOOL: u8 = 1;

/// Code byte of a 64-bit signed integer.
pub const CODE_I64: u8 = 2;

/// Code byte of a text value.
pub const CODE_STR: u8 = 3;

/// Code byte of a byte array.
pub const CODE_BYTEA: u8 = 4;

/// Code byte of an opaque host value.
pub const CODE_OPAQUE: u8 = 5;

/// The two's-complement image of a signed 64-bit integer.
pub open spec fn i64_as_u64(x: i64) -> u64 {
    if x >= 0 {
        x as u64
    } else {
        (x + 0x1_0000_0000_0000_0000) as u64
    }
}

/// The signed reading of a two's-complement 64-bit image.
pub open spec fn u64_as_i64(u: u64) -> i64 {
    if u <= 0x7fff_ffff_ffff_ffff {
        u as i64
    } else {
        (u - 0x1_0000_0000_0000_0000) as i64
    }
}

/// The signed reading inverts the two's-complement image.
pub proof fn lemma_i64_u64_round_trip(x: i64)
    ensures
        u64_as_i64(i64_as_u64(x)) == x,
{
}

/// The byte image of a character sequence: each character as a 4-byte
/// little-endian scalar value, in order.
pub open spec fn chars_le(s: Seq<char>) -> Seq<u8>
    decreases s.len(),
{
    if s.len() == 0 {
        Seq::empty()
    } else {
        chars_le(s.drop_last()) + u32_le(s.last() as u32)
    }
}

/// A character sequence's image is four bytes per character.
pub proof fn lemma_chars_le_len(s: Seq<char>)
    ensures
        chars_le(s).len() == 4 * s.len(),
    decreases s.len(),
{
    if s.len() > 0 {
        lemma_chars_le_len(s.drop_last());
    }
}

/// The `j`-th 4-byte group of a character sequence's image is the image of
/// the `j`-th character.
pub proof fn lemma_chars_le_index(s: Seq<char>, j: int)
    requires
        0 <= j < s.len(),
    ensures
        chars_le(s).subrange(4 * j, 4 * j + 4) == u32_le(s[j] as u32),
    decreases s.len(),
{
    lemma_chars_le_len(s);
    lemma_chars_le_len(s.drop_last());
    if j == s.len() - 1 {
        assert(chars_le(s).subrange(4 * j, 4 * j + 4) =~= u32_le(s.last() as u32));
    } else {
        lemma_chars_le_index(s.drop_last(), j);
        assert(chars_le(s).subrange(4 * j, 4 * j + 4) =~= chars_le(s.drop_last()).subrange(
            4 * j,
            4 * j + 4,
        ));
    }
}

/// Character sequences of one length with one image are one sequence.
pub proof fn lemma_chars_le_injective(s: Seq<char>, t: Seq<char>)
    requires
        s.len() == t.len(),
        chars_le(s) == chars_le(t),
    ensures
        s == t,
    decreases s.len(),
{
    if s.len() > 0 {
        lemma_chars_le_len(s);
        lemma_chars_le_len(t);
        lemma_chars_le_len(s.drop_last());
        lemma_chars_le_len(t.drop_last());
        let k = 4 * (s.len() - 1);
        lemma_chars_le_index(s, s.len() - 1);
        lemma_chars_le_index(t, t.len() - 1);
        assert(u32_le(s.last() as u32) == chars_le(s).subrange(k, k + 4));
        assert(u32_le(t.last() as u32) == chars_le(t).subrange(k, k + 4));
        assert(chars_le(s.drop_last()) =~= chars_le(s).take(k));
        assert(chars_le(t.drop_last()) =~= chars_le(t).take(k));
        lemma_u32_le_inverse(s.last() as u32);
        lemma_u32_le_inverse(t.last() as u32);
        assert(s.last() as u32 == t.last() as u32);
        vstd::utf8::char_u32_cast(s.last(), s.last() as u32);
        vstd::utf8::char_u32_cast(t.last(), t.last() as u32);
        assert(s.last() == t.last());
        lemma_chars_le_injective(s.drop_last(), t.drop_last());
        assert forall|i: int| 0 <= i < s.len() implies s[i] == t[i] by {
            if i < s.len() - 1 {
                assert(s[i] == s.drop_last()[i]);
                assert(t[i] == t.drop_last()[i]);
            } else {
                assert(s[i] == s.last());
                assert(t[i] == t.last());
            }
        }
        assert(s =~= t);
    } else {
        assert(s =~= t);
    }
}

/// The byte form of a value.
pub open spec fn encoding(v: ValueView) -> Seq<u8> {
    match v {
        ValueView::Null => seq![CODE_NULL],
        ValueView::Bool(b) => seq![CODE_BOOL, (if b { 1u8 } else { 0u8 })],
        ValueView::I64(x) => seq![CODE_I64] + u64_le(i64_as_u64(x)),
        ValueView::Str(s) => seq![CODE_STR] + u64_le(s.len() as u64) + chars_le(s),
        ValueView::Bytea(b) => seq![CODE_BYTEA] + u64_le(b.len() as u64) + b,
        ValueView::Opaque(b) => seq![CODE_OPAQUE] + u64_le(b.len() as u64) + b,
    }
}

/// True when some well-formed value has `b` as its byte form.
pub open spec fn decodable(b: Seq<u8>) -> bool {
    exists|w: ValueView| wf_value(w) && encoding(w) == b
}

/// The well-formed value whose byte form `b` is.
pub open spec fn decoded(b: Seq<u8>) -> ValueView {
    choose|w: ValueView| wf_value(w) && encoding(w) == b
}

/// How the first byte of an encoding pins the variant and the layout.
pub proof fn lemma_encoding_cases(w: ValueView)
    ensures
        encoding(w).len() >= 1,
        encoding(w)[0] == CODE_NULL || encoding(w)[0] == CODE_BOOL || encoding(w)[0] == CODE_I64
            || encoding(w)[0] == CODE_STR || encoding(w)[0] == CODE_BYTEA || encoding(w)[0]
            == CODE_OPAQUE,
        encoding(w)[0] == CODE_NULL ==> w is Null && encoding(w).len() == 1,
        encoding(w)[0] == CODE_BOOL ==> w is Bool && encoding(w).len() == 2 && encoding(w)[1] == (
        if w->Bool_0 {
            1u8
        } else {
            0u8
        }),
        encoding(w)[0] == CODE_I64 ==> w is I64 && encoding(w).len() == 9 && encoding(w).subrange(
            1,
            9,
        ) == u64_le(i64_as_u64(w->I64_0)),
        encoding(w)[0] == CODE_STR ==> w is Str && encoding(w).len() == 9 + 4 * w->Str_0.len()
            && encoding(w).subrange(1, 9) == u64_le(w->Str_0.len() as u64) && encoding(w).skip(9)
            == chars_le(w->Str_0),
        encoding(w)[0] == CODE_BYTEA ==> w is Bytea && encoding(w).len() == 9 + w->Bytea_0.len()
            && encoding(w).subrange(1, 9) == u64_le(w->Bytea_0.len() as u64) && encoding(w).skip(9)
            == w->Bytea_0,
        encoding(w)[0] == CODE_OPAQUE ==> w is Opaque && encoding(w).len() == 9
            + w->Opaque_0.len() && encoding(w).subrange(1, 9) == u64_le(w->Opaque_0.len() as u64)
            && encoding(w).skip(9) == w->Opaque_0,
{
    match w {
        ValueView::Null => {},
        ValueView::Bool(b) => {},
        ValueView::I64(x) => {
            assert(encoding(w).subrange(1, 9) =~= u64_le(i64_as_u64(x)));
        },
        ValueView::Str(s) => {
            lemma_chars_le_len(s);
            assert(encoding(w).subrange(1, 9) =~= u64_le(s.len() as u64));
            assert(encoding(w).skip(9) =~= chars_le(s));
        },
        ValueView::Bytea(b) => {
            assert(encoding(w).subrange(1, 9) =~= u64_le(b.len() as u64));
            assert(encoding(w).skip(9) =~= b);
        },
        ValueView::Opaque(b) => {
            assert(encoding(w).subrange(1, 9) =~= u64_le(b.len() as u64));
            assert(encoding(w).skip(9) =~= b);
        },
    }
}

/// Well-formed values with one byte form are one value.
pub proof fn lemma_encoding_injective(v: ValueView, w: ValueView)
    requires
        wf_value(v),
        wf_value(w),
        encoding(v) == encoding(w),
    ensures
        v == w,
{
    lemma_encoding_cases(v);
    lemma_encoding_cases(w);
    match v {
        ValueView::Null => {},
        ValueView::Bool(b) => {
            assert(encoding(v)[1] == encoding(w)[1]);
        },
        ValueView::I64(x) => {
            let y = w->I64_0;
            lemma_u64_le_inverse(i64_as_u64(x));
            lemma_u64_le_inverse(i64_as_u64(y));
            assert(i64_as_u64(x) == i64_as_u64(y));
            lemma_i64_u64_round_trip(x);
            lemma_i64_u64_round_trip(y);
        },
        ValueView::Str(s) => {
            let t = w->Str_0;
            lemma_u64_le_inverse(s.len() as u64);
            lemma_u64_le_inverse(t.len() as u64);
            assert(s.len() as u64 == t.len() as u64);
            assert(s.len() == t.len());
            lemma_chars_le_injective(s, t);
        },
        ValueView::Bytea(b) => {
            assert(b =~= w->Bytea_0);
        },
        ValueView::Opaque(b) => {
            assert(b =~= w->Opaque_0);
        },
    }
}

/// The codec's round trip: every well-formed value's byte form decodes back
/// to exactly that value.
pub proof fn lemma_codec_round_trip(v: ValueView)
    requires
        wf_value(v),
    ensures
        decodable(encoding(v)),
        decoded(encoding(v)) == v,
{
    assert(wf_value(v) && encoding(v) == encoding(v));
    assert(decodable(encoding(v)));
    lemma_encoding_injective(decoded(encoding(v)), v);
}

/// The two's-complement image, executably.
pub fn i64_to_u64(x: i64) -> (u: u64)
    ensures
        u == i64_as_u64(x),
{
    if x >= 0 {
        x as u64
    } else {
        let w: i128 = x as i128 + 0x1_0000_0000_0000_0000i128;
        w as u64
    }
}

/// The signed reading of a two's-complement image, executably.
pub fn u64_to_i64(u: u64) -> (x: i64)
    ensures
        x == u64_as_i64(u),
{
    if u <= 0x7fff_ffff_ffff_ffff {
        u as i64
    } else {
        let w: i128 = u as i128 - 0x1_0000_0000_0000_0000i128;
        w as i64
    }
}

/// Relies on `String::push`: appends exactly the given character.
#[verifier::external_body]
fn push_char(s: &mut String, c: char)
    ensures
        final(s)@ == old(s)@.push(c),
{
    s.push(c);
}

/// Relies on `char::from_u32`: yields the character of a scalar value, and
/// `None` exactly on surrogates and values above the greatest code point.
pub assume_specification[ char::from_u32 ](v: u32) -> (r: Option<char>)
    ensures
        r matches Some(c) ==> c as u32 == v,
        r is Some <==> (v < 0xD800 || (0xE000 <= v && v <= 0x10FFFF)),
;

/// Renders a value in its byte form.
pub fn encode_value(v: &Value) -> (r: Vec<u8>)
    ensures
        r@ == encoding(v@),
        wf_value(v@),
{
    let mut out: Vec<u8> = Vec::new();
    match v {
        Value::Null => {
            out.push(CODE_NULL);
            proof {
                assert(out@ =~= encoding(v@));
            }
        },
        Value::Bool(b) => {
            out.push(CODE_BOOL);
            out.push(if *b { 1 } else { 0 });
            proof {
                assert(out@ =~= encoding(v@));
            }
        },
        Value::I64(x) => {
            out.push(CODE_I64);
            let u: u64 = i64_to_u64(*x);
            push_u64_le(&mut out, u);
            proof {
                assert(out@ =~= encoding(v@));
            }
        },
        Value::Str(s) => {
            out.push(CODE_STR);
            let n: usize = s.as_str().unicode_len();
            push_u64_le(&mut out, n as u64);
            let mut i: usize = 0;
            while i < n
                invariant
                    n == s@.len(),
                    i <= n,
                    out@ == seq![CODE_STR] + u64_le(n as u64) + chars_le(s@.take(i as int)),
                decreases n - i,
            {
                let c: char = s.as_str().get_char(i);
                push_u32_le(&mut out, c as u32);
                proof {
                    assert(s@.take(i + 1 as int).drop_last() =~= s@.take(i as int));
                    assert(s@.take(i + 1 as int).last() == s@[i as int]);
                }
                i = i + 1;
            }
            proof {
                assert(s@.take(n as int) =~= s@);
                assert(out@ =~= encoding(v@));
            }
        },
        Value::Bytea(b) => {
            out.push(CODE_BYTEA);
            push_u64_le(&mut out, b.len() as u64);
            let mut tail: Vec<u8> = vstd::slice::slice_to_vec(b.as_slice());
            out.append(&mut tail);
            proof {
                assert(out@ =~= encoding(v@));
            }
        },
        Value::Opaque(b) => {
            out.push(CODE_OPAQUE);
            push_u64_le(&mut out, b.len() as u64);
            let mut tail: Vec<u8> = vstd::slice::slice_to_vec(b.as_slice());
            out.append(&mut tail);
            proof {
                assert(out@ =~= encoding(v@));
            }
        },
    }
    out
}

/// Reads a value back from its byte form.
///
/// Succeeds exactly on the byte forms that [`encode_value`] produces, and
/// then yields the one value that has this form.
pub fn decode_value(bytes: &Vec<u8>) -> (r: Result<Value, Error>)
    ensures
        r matches Ok(v) ==> wf_value(v@) && encoding(v@) == bytes@,
        decodable(bytes@) ==> r is Ok,
        r matches Err(e) ==> e == Error::SerializationError,
{
    let n: usize = bytes.len();
    if n == 0 {
        proof {
            if decodable(bytes@) {
                lemma_encoding_cases(decoded(bytes@));
            }
        }
        return Err(Error::SerializationError);
    }
    let code: u8 = bytes[0];
    if code == CODE_NULL {
        if n == 1 {
            proof {
                assert(encoding(ValueView::Null) =~= bytes@);
            }
            Ok(Value::Null)
        } else {
            proof {
                if decodable(bytes@) {
                    lemma_encoding_cases(decoded(bytes@));
                }
            }
            Err(Error::SerializationError)
        }
    } else if code == CODE_BOOL {
        if n == 2 && (bytes[1] == 0 || bytes[1] == 1) {
            let b: bool = bytes[1] == 1;
            proof {
                assert(encoding(ValueView::Bool(bytes@[1] == 1)) =~= bytes@);
            }
            Ok(Value::Bool(b))
        } else {
            proof {
                if decodable(bytes@) {
                    lemma_encoding_cases(decoded(bytes@));
                }
            }
            Err(Error::SerializationError)
        }
    } else if code == CODE_I64 {
        if n == 9 {
            let u: u64 = read_u64_le(bytes, 1);
            let x: i64 = u64_to_i64(u);
            proof {
                let v = ValueView::I64(u64_as_i64(u));
                assert(i64_as_u64(u64_as_i64(u)) == u);
                assert(encoding(v) =~= bytes@);
            }
            Ok(Value::I64(x))
        } else {
            proof {
                if decodable(bytes@) {
                    lemma_encoding_cases(decoded(bytes@));
                }
            }
            Err(Error::SerializationError)
        }
    } else if code == CODE_STR {
        if n < 9 {
            proof {
                if decodable(bytes@) {
                    lemma_encoding_cases(decoded(bytes@));
                }
            }
            return Err(Error::SerializationError);
        }
        let m: u64 = read_u64_le(bytes, 1);
        let rem: usize = n - 9;
        if rem % 4 != 0 || (rem / 4) as u64 != m {
            proof {
                if decodable(bytes@) {
                    let w = decoded(bytes@);
                    lemma_encoding_cases(w);
                    let t = w->Str_0;
                    lemma_u64_le_inverse(m);
                    lemma_u64_le_inverse(t.len() as u64);
                    assert(t.len() as u64 == m);
                    assert(4 * t.len() == rem);
                }
            }
            return Err(Error::SerializationError);
        }
        let cc: usize = rem / 4;
        proof {
            if decodable(bytes@) {
                let w = decoded(bytes@);
                lemma_encoding_cases(w);
                let t = w->Str_0;
                lemma_u64_le_inverse(m);
                lemma_u64_le_inverse(t.len() as u64);
                assert(t.len() as u64 == m);
                assert(4 * t.len() == rem);
                assert(t.len() == cc);
            }
        }
        let mut s = String::new();
        let mut j: usize = 0;
        while j < cc
            invariant
                bytes@.len() == n,
                n == 9 + 4 * cc,
                j <= cc,
                s@.len() == j,
                chars_le(s@) == bytes@.subrange(9, 9 + 4 * (j as int)),
                decodable(bytes@) ==> (decoded(bytes@) matches ValueView::Str(t) && t.len() == cc
                    && chars_le(t) == bytes@.skip(9)),
            decreases cc - j,
        {
            let x: u32 = read_u32_le(bytes, 9 + 4 * j);
            match char::from_u32(x) {
                Some(c) => {
                    proof {
                        lemma_chars_le_len(s@);
                    }
                    let ghost s_old: Seq<char> = s@;
                    push_char(&mut s, c);
                    proof {
                        assert(s@.drop_last() =~= s_old);
                        assert(s@.last() == c);
                        assert(chars_le(s@) == chars_le(s_old) + u32_le(c as u32));
                        assert(chars_le(s@) =~= bytes@.subrange(9, 9 + 4 * (j + 1 as int)));
                    }
                },
                None => {
                    proof {
                        if decodable(bytes@) {
                            let w = decoded(bytes@);
                            let t = w->Str_0;
                            lemma_chars_le_index(t, j as int);
                            lemma_chars_le_len(t);
                            assert(chars_le(t).subrange(4 * (j as int), 4 * (j as int) + 4)
                                =~= bytes@.subrange(9 + 4 * (j as int), 9 + 4 * (j as int) + 4));
                            assert(u32_le(t[j as int] as u32) == bytes@.subrange(
                                9 + 4 * (j as int),
                                9 + 4 * (j as int) + 4,
                            ));
                            lemma_u32_le_inverse(t[j as int] as u32);
                            assert(t[j as int] as u32 == x);
                            vstd::utf8::char_is_scalar(t[j as int]);
                            assert(vstd::utf8::is_scalar(x));
                            assert(false);
                        }
                    }
                    return Err(Error::SerializationError);
                },
            }
            j = j + 1;
        }
        proof {
            assert(bytes@.subrange(9, 9 + 4 * (cc as int)) =~= bytes@.skip(9));
            let v = ValueView::Str(s@);
            assert(encoding(v) =~= bytes@) by {
                lemma_chars_le_len(s@);
                assert(u64_le(s@.len() as u64) == bytes@.subrange(1, 9));
            }
        }
        Ok(Value::Str(s))
    } else if code == CODE_BYTEA || code == CODE_OPAQUE {
        if n < 9 {
            proof {
                if decodable(bytes@) {
                    lemma_encoding_cases(decoded(bytes@));
                }
            }
            return Err(Error::SerializationError);
        }
        let m: u64 = read_u64_le(bytes, 1);
        let rem: usize = n - 9;
        if rem as u64 != m {
            proof {
                if decodable(bytes@) {
                    let w = decoded(bytes@);
                    lemma_encoding_cases(w);
                    lemma_u64_le_inverse(m);
                    if w is Bytea {
                        lemma_u64_le_inverse(w->Bytea_0.len() as u64);
                    } else {
                        lemma_u64_le_inverse(w->Opaque_0.len() as u64);
                    }
                }
            }
            return Err(Error::SerializationError);
        }
        let payload: Vec<u8> = vstd::slice::slice_to_vec(
            vstd::slice::slice_subrange(bytes.as_slice(), 9, n),
        );
        if code == CODE_BYTEA {
            proof {
                assert(encoding(ValueView::Bytea(bytes@.skip(9))) =~= bytes@);
                assert(payload@ =~= bytes@.skip(9));
            }
            Ok(Value::Bytea(payload))
        } else {
            proof {
                assert(encoding(ValueView::Opaque(bytes@.skip(9))) =~= bytes@);
                assert(payload@ =~= bytes@.skip(9));
            }
            Ok(Value::Opaque(payload))
        }
    } else {
        proof {
            if decodable(bytes@) {
                lemma_encoding_cases(decoded(bytes@));
            }
        }
        Err(Error::SerializationError)
    }
}

} // verus!
