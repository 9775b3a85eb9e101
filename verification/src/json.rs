//! Trusted boundary to the `serde_json` crate.
//!
//! The transport carries structured parameters and results as opaque
//! `serde_json::Value`s.  Everything this crate assumes about `serde_json`
//! is stated here, as contracts on thin wrappers; each result that cannot
//! be written out in a few lines is given an uninterpreted name, and the
//! verified code reasons only through those names.

use vstd::prelude::*;

verus! {

#[verifier::external_type_specification]
#[verifier::external_body]
pub struct ExValue(serde_json::Value);

/// The JSON text, as UTF-8 bytes, that `serde_json` serializes `v` to.
pub uninterp spec fn json_bytes(v: serde_json::Value) -> Seq<u8>;

/// The value that `serde_json` parses the bytes `s` to, if they are valid JSON.
pub uninterp spec fn json_parsed(s: Seq<u8>) -> Option<serde_json::Value>;

/// The member of the object `v` under the key `k`, if `v` is an object with
/// that key.
pub uninterp spec fn json_field(v: serde_json::Value, k: Seq<char>) -> Option<serde_json::Value>;

/// The content of `v` as an unsigned integer, if it is one.
pub uninterp spec fn json_as_u64(v: serde_json::Value) -> Option<u64>;

/// The content of `v` as a signed integer, if it is one.
pub uninterp spec fn json_as_i64(v: serde_json::Value) -> Option<i64>;

/// The content of `v` as a string, if it is one.
pub uninterp spec fn json_as_text(v: serde_json::Value) -> Option<Seq<char>>;

/// Relies on `serde_json::to_vec`: serializing a `Value` is a deterministic
/// function of the value alone.  Serializing a `Value` cannot fail (every
/// `Value` is representable as JSON text, and its map keys are strings), so
/// the error arm is dead; it yields an empty buffer rather than panicking.
#[verifier::external_body]
pub(crate) fn value_to_bytes(v: &serde_json::Value) -> (r: Vec<u8>)
    ensures
        r@ == json_bytes(*v),
{
    serde_json::to_vec(v).unwrap_or_default()
}

/// Relies on `serde_json::from_slice`: parsing bytes to a `Value` is a
/// deterministic function of the bytes, succeeding exactly on valid JSON.
#[verifier::external_body]
pub(crate) fn bytes_to_value(b: &Vec<u8>) -> (r: Option<serde_json::Value>)
    ensures
        r == json_parsed(b@),
{
    serde_json::from_slice::<serde_json::Value>(b.as_slice()).ok()
}

/// Relies on `serde_json::Value::get` with a string index (a lookup in the
/// object's map, `None` for non-objects and missing keys), and on
/// `Value::clone` (an equal value).
#[verifier::external_body]
pub(crate) fn value_field(v: &serde_json::Value, k: &str) -> (r: Option<serde_json::Value>)
    ensures
        r == json_field(*v, k@),
{
    match v.get(k) {
        Some(x) => Some(x.clone()),
        None => None,
    }
}

/// Relies on `serde_json::Value::as_u64`: the number held by `v`, if `v` is
/// a number representable as `u64`.
#[verifier::external_body]
pub(crate) fn value_as_u64(v: &serde_json::Value) -> (r: Option<u64>)
    ensures
        r == json_as_u64(*v),
{
    v.as_u64()
}

/// Relies on `serde_json::Value::as_i64`: the number held by `v`, if `v` is
/// a number representable as `i64`.
#[verifier::external_body]
pub(crate) fn value_as_i64(v: &serde_json::Value) -> (r: Option<i64>)
    ensures
        r == json_as_i64(*v),
{
    v.as_i64()
}

/// Relies on `serde_json::Value::as_str` (the string held by `v`, if `v` is
/// a string), and on `str::to_owned` (an equal string).
#[verifier::external_body]
pub(crate) fn value_as_text(v: &serde_json::Value) -> (r: Option<String>)
    ensures
        match r {
            Some(s) => json_as_text(*v) == Some(s@),
            None => json_as_text(*v) is None,
        },
{
    match v.as_str() {
        Some(s) => Some(s.to_owned()),
        None => None,
    }
}

} // verus!
