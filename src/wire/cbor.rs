//! CBOR data items as plain values, read and written through ciborium.

use ciborium::value::{Integer, Value};
use vstd::prelude::*;

verus! {

/// One CBOR data item, as far as CAR headers need to tell items apart.
#[derive(Debug)]
pub enum CborValue {
    /// An integer, positive or negative.
    Integer(i128),
    /// A byte string.
    Bytes(Vec<u8>),
    /// A text string, as its UTF-8 bytes.
    Text(Vec<u8>),
    /// An array of items.
    Array(Vec<CborValue>),
    /// A map, as its (key, value) pairs in the order they were read.
    Mapping(Vec<(CborValue, CborValue)>),
    /// A tagged item.
    Tag(u64, Box<CborValue>),
    /// Any other item (a float, a simple value such as a boolean or null).
    Other,
}

/// ciborium's dynamic CBOR item, which the wrappers below convert from and to.
#[verifier::external_type_specification]
#[verifier::external_body]
pub struct ExCiboriumValue(Value);

/// The item that ciborium reads from the front of `b`, if it reads one.
pub uninterp spec fn cbor_decoded(b: Seq<u8>) -> Option<CborValue>;

/// The bytes that ciborium writes for the item `v`.
pub uninterp spec fn cbor_encoded(v: CborValue) -> Seq<u8>;

/// Relies on ciborium::de::from_reader: it reads one CBOR data item from the
/// front of the bytes, which depends on the bytes alone.
#[verifier::external_body]
pub(crate) fn decode_cbor(bytes: &[u8]) -> (r: Option<CborValue>)
    ensures
        r == cbor_decoded(bytes@),
{
    match ciborium::de::from_reader::<Value, &[u8]>(bytes) {
        Ok(v) => Some(from_ciborium(v)),
        Err(_) => None,
    }
}

/// Relies on ciborium::ser::into_writer: it writes the CBOR encoding of the item
/// into a vector, which depends on the item alone.
#[verifier::external_body]
pub(crate) fn encode_cbor(v: &CborValue) -> (r: Vec<u8>)
    ensures
        r@ == cbor_encoded(*v),
{
    let mut out: Vec<u8> = Vec::new();
    let _ = ciborium::ser::into_writer(&to_ciborium(v), &mut out);
    out
}

/// Converts ciborium's item into the library's, variant for variant.
#[verifier::external_body]
fn from_ciborium(v: Value) -> CborValue {
    match v {
        Value::Integer(i) => CborValue::Integer(i128::from(i)),
        Value::Bytes(b) => CborValue::Bytes(b),
        Value::Text(t) => CborValue::Text(t.into_bytes()),
        Value::Array(a) => CborValue::Array(a.into_iter().map(from_ciborium).collect()),
        Value::Map(m) => CborValue::Mapping(
            m.into_iter().map(|(k, x)| (from_ciborium(k), from_ciborium(x))).collect(),
        ),
        Value::Tag(t, b) => CborValue::Tag(t, Box::new(from_ciborium(*b))),
        _ => CborValue::Other,
    }
}

/// Converts the library's item into ciborium's, variant for variant; an integer
/// outside CBOR's range, which no decoded item holds, becomes null.
#[verifier::external_body]
fn to_ciborium(v: &CborValue) -> Value {
    match v {
        CborValue::Integer(i) => Integer::try_from(*i).map_or(Value::Null, Value::Integer),
        CborValue::Bytes(b) => Value::Bytes(b.clone()),
        CborValue::Text(t) => Value::Text(String::from_utf8_lossy(t).into_owned()),
        CborValue::Array(a) => Value::Array(a.iter().map(to_ciborium).collect()),
        CborValue::Mapping(m) => Value::Map(
            m.iter().map(|(k, x)| (to_ciborium(k), to_ciborium(x))).collect(),
        ),
        CborValue::Tag(t, b) => Value::Tag(*t, Box::new(to_ciborium(b))),
        CborValue::Other => Value::Null,
    }
}

} // verus!
