use crate::error::{ErrorKind, PolyCryptError};
use crate::record::{lemma_array_view, names_of, JsonValue, JsonView};
use vstd::prelude::*;

verus! {

/// A JSON value as `serde_json` holds it; met only between its parser or
/// serializer and the conversion to or from a `JsonValue`.
#[verifier::external_type_specification]
#[verifier::external_body]
pub struct ExJsonValue(serde_json::Value);

/// Failure of `serde_json`'s parser or serializer; carried through
/// unexamined.
#[verifier::external_type_specification]
#[verifier::external_body]
pub struct ExJsonError(serde_json::Error);

/// The value that `serde_json::from_slice` reads from `text`, or `None` where
/// `text` is not one well-formed JSON value in UTF-8.
pub uninterp spec fn json_parse(text: Seq<u8>) -> Option<JsonView>;

/// The compact JSON text that `serde_json::to_vec` writes for `value`, or
/// `None` where the serializer fails.
pub uninterp spec fn json_text(value: JsonView) -> Option<Seq<u8>>;

/// Rebuilds a parsed JSON value as a `JsonValue`, variant by variant; the entries
/// of a mapping come in the order in which `serde_json` walks them. Nothing
/// is claimed here: `parse_json` states what the two steps give together.
#[verifier::external_body]
fn value_from_json(json: &serde_json::Value) -> (value: JsonValue) {
    match json {
        serde_json::Value::Null => JsonValue::Null,
        serde_json::Value::Bool(b) => JsonValue::Bool(*b),
        serde_json::Value::Number(n) => JsonValue::Number(n.clone()),
        serde_json::Value::String(s) => JsonValue::String(s.clone()),
        serde_json::Value::Array(items) => JsonValue::Array(items.iter().map(value_from_json).collect()),
        serde_json::Value::Object(map) => JsonValue::Object(
            map.iter().map(|(k, v)| (k.clone(), value_from_json(v))).collect(),
        ),
    }
}

/// Rebuilds a `JsonValue` as a JSON value for the serializer, variant by
/// variant. Nothing is claimed here: `serialize_json` states what the two
/// steps give together.
#[verifier::external_body]
fn value_to_json(value: &JsonValue) -> (json: serde_json::Value) {
    match value {
        JsonValue::Null => serde_json::Value::Null,
        JsonValue::Bool(b) => serde_json::Value::Bool(*b),
        JsonValue::Number(n) => serde_json::Value::Number(n.clone()),
        JsonValue::String(s) => serde_json::Value::String(s.clone()),
        JsonValue::Array(items) => serde_json::Value::Array(items.iter().map(value_to_json).collect()),
        JsonValue::Object(entries) => serde_json::Value::Object(
            entries.iter().map(|(k, v)| (k.clone(), value_to_json(v))).collect(),
        ),
    }
}

/// Calls `serde_json::from_slice` for a JSON value and rebuilds what it
/// returns as a `JsonValue`.
///
/// Trusted: the outcome depends on `text` alone.
#[verifier::external_body]
pub(crate) fn parse_json(text: &[u8]) -> (r: Result<JsonValue, serde_json::Error>)
    ensures
        match r {
            Ok(value) => json_parse(text@) == Some(value@),
            Err(_) => json_parse(text@) is None,
        },
{
    match serde_json::from_slice::<serde_json::Value>(text) {
        Ok(json) => Ok(value_from_json(&json)),
        Err(e) => Err(e),
    }
}

/// Rebuilds `value` as a JSON value and calls `serde_json::to_vec` on it.
///
/// Trusted: the outcome depends on the content of `value` alone.
#[verifier::external_body]
pub(crate) fn serialize_json(value: &JsonValue) -> (r: Result<Vec<u8>, serde_json::Error>)
    ensures
        match r {
            Ok(text) => json_text(value@) == Some(text@),
            Err(_) => json_text(value@) is None,
        },
{
    serde_json::to_vec(&value_to_json(value))
}

/// Reads one record value from interchange text.
pub fn parse_value(text: &[u8]) -> (r: Result<JsonValue, PolyCryptError>)
    ensures
        match r {
            Ok(value) => json_parse(text@) == Some(value@),
            Err(e) => json_parse(text@) is None && e.kind() == ErrorKind::Parse,
        },
{
    match parse_json(text) {
        Ok(value) => Ok(value),
        Err(e) => Err(PolyCryptError::ParseError(e.to_string())),
    }
}

/// Writes one record value as interchange text.
pub fn write_value(value: &JsonValue) -> (r: Result<Vec<u8>, PolyCryptError>)
    ensures
        match r {
            Ok(text) => json_text(value@) == Some(text@),
            Err(e) => json_text(value@) is None && e.kind() == ErrorKind::Unknown,
        },
{
    match serialize_json(value) {
        Ok(text) => Ok(text),
        Err(e) => Err(PolyCryptError::UnknownError(e.to_string())),
    }
}

/// The texts of a sequence of strings; `None` for any other value.
pub open spec fn as_texts(value: JsonView) -> Option<Seq<Seq<char>>> {
    match value {
        JsonView::Array(items) => if forall|i: int| 0 <= i < items.len() ==> items[i] is String {
            Some(Seq::new(items.len(), |i: int| items[i]->String_0))
        } else {
            None
        },
        _ => None,
    }
}

/// The field names that a parsed field list holds: it must be a sequence of
/// strings.
pub fn field_names_from(value: &JsonValue) -> (r: Option<Vec<String>>)
    ensures
        match r {
            Some(names) => as_texts(value@) == Some(names_of(names@)),
            None => as_texts(value@) is None,
        },
{
    match value {
        JsonValue::Array(items) => {
            proof {
                lemma_array_view(*items);
            }
            let mut names: Vec<String> = Vec::new();
            let mut i: usize = 0;
            while i < items.len()
                invariant
                    i <= items@.len(),
                    names@.len() == i,
                    value@ is Array,
                    value@.items().len() == items@.len(),
                    forall|k: int| 0 <= k < items@.len() ==> #[trigger] value@.items()[k] == items@[k]@,
                    forall|k: int|
                        0 <= k < i ==> value@.items()[k] == JsonView::String((#[trigger] names@[k])@),
                decreases items@.len() - i,
            {
                match &items[i] {
                    JsonValue::String(name) => {
                        names.push(name.clone());
                    },
                    _ => {
                        assert(!(value@.items()[i as int] is String));
                        return None;
                    },
                }
                i += 1;
            }
            proof {
                let texts = names_of(names@);
                let items_view = value@.items();
                assert forall|k: int| 0 <= k < items_view.len() implies items_view[k]
                    == JsonView::String(texts[k]) by {
                    assert(items_view[k] == JsonView::String(names@[k]@));
                }
                assert(as_texts(value@) is Some);
                assert(as_texts(value@)->Some_0 =~= texts);
            }
            Some(names)
        },
        _ => None,
    }
}

/// The records that a parsed batch holds: it must be a sequence.
pub fn records_from(value: JsonValue) -> (r: Option<Vec<JsonValue>>)
    ensures
        match r {
            Some(records) => value == JsonValue::Array(records),
            None => !(value@ is Array),
        },
{
    match value {
        JsonValue::Array(records) => Some(records),
        _ => None,
    }
}

} // verus!
