//! The boundary to the `json` crate. Parsing is deterministic over the
//! bytes alone, so both the success of the parse and the two format lists
//! the parsed payload denotes are given names here. `parse_payload_lists`
//! carries the whole boundary's contract; the three helpers below it only
//! convert the outside value into plain entries, field by field.

use vstd::prelude::*;

use crate::extract::RawEntry;
use crate::extract::RawField;

verus! {

#[verifier::external_type_specification]
#[verifier::external_body]
pub struct ExJsonValue(json::JsonValue);

/// Whether a byte text is valid UTF-8 that the `json` crate parses. This
/// depends on the bytes alone.
pub uninterp spec fn json_parses(text: Seq<u8>) -> bool;

/// The entries of the progressive format list of a payload: what the
/// parsed value holds at `streamingData.formats`, each entry reduced to its
/// `type`, `itag`, `url` and `signatureCipher` fields. A missing path or a
/// non-array denotes the empty sequence. Depends on the bytes alone.
pub uninterp spec fn payload_formats(payload: Seq<u8>) -> Seq<RawEntry>;

/// The entries of the adaptive format list of a payload: what the parsed
/// value holds at `streamingData.adaptiveFormats`, reduced the same way.
/// Depends on the bytes alone.
pub uninterp spec fn payload_adaptive(payload: Seq<u8>) -> Seq<RawEntry>;

/// Relies on `json::JsonValue::is_null` and `as_str`: tells the value's
/// variants apart — null (or a missing member) gives `Missing`, a string
/// gives its text, anything else gives `Other`. Never panics.
#[verifier::external_body]
fn jv_field(f: &json::JsonValue) -> RawField {
    match (f.is_null(), f.as_str()) {
        (true, _) => RawField::Missing,
        (_, Some(t)) => RawField::Text(t.as_bytes().to_vec()),
        _ => RawField::Other,
    }
}

/// Relies on `json::JsonValue`'s `Index<&str>` (the member, or the null
/// value for a missing key or a non-object; never panics) and `as_i32`
/// (the range-checked number conversion): the four fields of one entry.
#[verifier::external_body]
fn jv_entry(e: &json::JsonValue) -> RawEntry {
    RawEntry {
        entry_type: jv_field(&e["type"]),
        itag: e["itag"].as_i32(),
        url: jv_field(&e["url"]),
        cipher: jv_field(&e["signatureCipher"]),
    }
}

/// Relies on `json::JsonValue::len` (array length, 0 for any other value)
/// and `Index<usize>` (never panics): one format list as plain entries.
#[verifier::external_body]
fn jv_list(l: &json::JsonValue) -> Vec<RawEntry> {
    (0..l.len()).map(|i| jv_entry(&l[i])).collect()
}

/// Relies on `json::parse` (with `core::str::from_utf8` to read the
/// bytes): a deterministic recursive-descent parse of the bytes alone,
/// succeeding exactly on well-formed input. On success the two format
/// lists of the parsed payload are handed over as plain entries, converted
/// by the helpers above.
#[verifier::external_body]
pub(crate) fn parse_payload_lists(text: &[u8]) -> (r: Option<(Vec<RawEntry>, Vec<RawEntry>)>)
    ensures
        r is Some <==> json_parses(text@),
        r matches Some(lists) ==> lists.0@ == payload_formats(text@) && lists.1@
            == payload_adaptive(text@),
{
    let v = match core::str::from_utf8(text).ok().and_then(|t| json::parse(t).ok()) {
        Some(v) => v,
        None => {
            return None;
        },
    };
    let d = &v["streamingData"];
    Some((jv_list(&d["formats"]), jv_list(&d["adaptiveFormats"])))
}

} // verus!
