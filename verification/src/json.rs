//! Reading JSON documents, through `serde_json`. What serde_json makes of a
//! document is not restated here: each reading is named, and the wrappers
//! below promise that their results are those names applied to their
//! arguments.
use vstd::prelude::*;

verus! {

/// Whether serde_json reads `doc` as a JSON document.
pub uninterp spec fn json_valid(doc: Seq<u8>) -> bool;

/// The string under `key` in the top-level object of `doc`, as serde_json
/// reads it; `None` when `doc` is no JSON, holds no object, lacks the key, or
/// holds no string there.
pub uninterp spec fn json_string_at(doc: Seq<u8>, key: Seq<char>) -> Option<Seq<char>>;

/// The elements of the array that the JSON pointer `pointer` designates in
/// `doc` (the empty pointer: the document itself), as serde_json reads them:
/// for each element, its strings under `a` and `b` and its boolean under
/// `flag`, each `None` where missing or of another type. `None` when `doc`
/// is no JSON or holds no array there.
pub uninterp spec fn json_array_fields(
    doc: Seq<u8>,
    pointer: Seq<char>,
    a: Seq<char>,
    b: Seq<char>,
    flag: Seq<char>,
) -> Option<Seq<(Option<Seq<char>>, Option<Seq<char>>, Option<bool>)>>;

pub open spec fn string_view(o: Option<String>) -> Option<Seq<char>> {
    match o {
        Some(s) => Some(s@),
        None => None,
    }
}

pub open spec fn fields_view(e: (Option<String>, Option<String>, Option<bool>)) -> (
    Option<Seq<char>>,
    Option<Seq<char>>,
    Option<bool>,
) {
    (string_view(e.0), string_view(e.1), e.2)
}

/// `serde_json::from_slice` into a `Value`: whether `doc` parses.
#[verifier::external_body]
pub(crate) fn parses(doc: &[u8]) -> (r: bool)
    ensures
        r == json_valid(doc@),
{
    serde_json::from_slice::<serde_json::Value>(doc).is_ok()
}

/// `serde_json::from_slice` into a `Value`, then `Value::get(key)` and
/// `Value::as_str`. Claimed: the result is `json_string_at(doc, key)`.
#[verifier::external_body]
pub(crate) fn string_field(doc: &[u8], key: &str) -> (r: Option<String>)
    ensures
        string_view(r) == json_string_at(doc@, key@),
{
    match serde_json::from_slice::<serde_json::Value>(doc) {
        Ok(value) => match value.get(key) {
            Some(field) => field.as_str().map(String::from),
            None => None,
        },
        Err(_) => None,
    }
}

/// `serde_json::from_slice` into a `Value`, `Value::pointer` and
/// `Value::as_array`, then `Value::get` with `as_str` and `as_bool` on each
/// element. Claimed: the result is `json_array_fields` of the arguments.
#[verifier::external_body]
pub(crate) fn array_fields(doc: &[u8], pointer: &str, a: &str, b: &str, flag: &str) -> (r: Option<
    Vec<(Option<String>, Option<String>, Option<bool>)>,
>)
    ensures
        match r {
            Some(v) => json_array_fields(doc@, pointer@, a@, b@, flag@) == Some(
                v@.map_values(|e: (Option<String>, Option<String>, Option<bool>)| fields_view(e)),
            ),
            None => json_array_fields(doc@, pointer@, a@, b@, flag@) is None,
        },
{
    let value = serde_json::from_slice::<serde_json::Value>(doc).ok()?;
    let mut out = Vec::new();
    for item in value.pointer(pointer)?.as_array()? {
        out.push((
            item.get(a).and_then(serde_json::Value::as_str).map(String::from),
            item.get(b).and_then(serde_json::Value::as_str).map(String::from),
            item.get(flag).and_then(serde_json::Value::as_bool),
        ));
    }
    Some(out)
}

} // verus!
