//! Trusted boundary: the few outside calls the library relies on, each behind
//! a wrapper whose contract states what the call's documentation promises.

use vstd::prelude::*;
use crate::records::json_models;

verus! {

/// The characters that `bytes` decode to as UTF-8, or nothing if the bytes
/// are not valid UTF-8.
pub uninterp spec fn utf8_decode(bytes: Seq<u8>) -> Option<Seq<char>>;

/// The JSON text that serializing the given record maps produces: an array of
/// objects, one per record, each field value emitted as a JSON string.
pub uninterp spec fn json_of(records: Seq<Map<Seq<char>, Seq<char>>>) -> Seq<char>;

/// The number of leading bytes of `bytes` that are valid UTF-8: what the
/// decoder reports as `valid_up_to` when the whole input is not.
pub uninterp spec fn utf8_valid_prefix(bytes: Seq<u8>) -> nat;

/// Relies on std's `str::from_utf8` and `Utf8Error::valid_up_to`: `Ok` comes
/// exactly when the bytes are valid UTF-8, and the resulting slice's
/// characters are a function of the bytes alone; on failure, `valid_up_to` is
/// the length of the longest valid prefix, again a function of the bytes
/// alone and at most the input length; an empty input is valid and decodes to
/// the empty string.
#[verifier::external_body]
pub(crate) fn bytes_as_str(data: &Vec<u8>) -> (r: Result<&str, usize>)
    ensures
        match r {
            Ok(s) => utf8_decode(data@) == Some(s@) && (data@.len() == 0 ==> s@.len() == 0),
            Err(n) => utf8_decode(data@) is None && n as nat == utf8_valid_prefix(data@) && n
                <= data@.len() && data@.len() != 0,
        },
{
    std::str::from_utf8(data.as_slice()).map_err(|e| e.valid_up_to())
}

/// Relies on std's `str::chars`: a string slice's characters are exactly its
/// view, so collecting them gives a vector with the same view.
#[verifier::external_body]
pub(crate) fn chars_of(s: &str) -> (r: Vec<char>)
    ensures
        r@ == s@,
{
    s.chars().collect()
}

/// Relies on std's `FromIterator` for `String` over `char`: the collected
/// string's characters are exactly the characters given.
#[verifier::external_body]
pub(crate) fn string_from_chars(v: &Vec<char>) -> (r: String)
    ensures
        r@ == v@,
{
    v.iter().collect()
}

/// Relies on `serde_json::to_string` over `serde_json::Value` trees built
/// here.  With serde_json's default `BTreeMap` backing, inserting a record's
/// pairs in order leaves each `serde_json::Map` holding exactly the last
/// value written under each key, so the serialized text is a function of the
/// records' key-value maps alone; serializing an empty list yields `"[]"`.
/// The call always succeeds on these trees: its only error paths are a
/// failing writer — here a `Vec<u8>`, which cannot fail — and a non-string
/// map key, and every key here is a `String`; the `Err` variant stays only to
/// mirror the serializer's own signature.
#[verifier::external_body]
pub(crate) fn to_json(records: &Vec<Vec<(String, String)>>) -> (r: Result<String, String>)
    ensures
        r is Ok,
        match r {
            Ok(out) => out@ == json_of(json_models(records@)) && (records@.len() == 0 ==> out@
                == "[]"@),
            Err(_) => true,
        },
{
    let mut vals: Vec<serde_json::Value> = Vec::new();
    for rec in records {
        let mut obj = serde_json::Map::new();
        for (k, v) in rec {
            obj.insert(k.clone(), serde_json::Value::String(v.clone()));
        }
        vals.push(serde_json::Value::Object(obj));
    }
    serde_json::to_string(&vals).map_err(|e| e.to_string())
}

} // verus!
