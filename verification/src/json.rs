//! Reading fields of a JSON configuration through `serde_json`, addressed by
//! JSON pointers.
use vstd::prelude::*;

use crate::error::{PassageError, PassageErrorView};

verus! {

broadcast use vstd::string::group_string_axioms;

#[verifier::external_type_specification]
#[verifier::external_body]
pub struct ExJsonValue(serde_json::Value);

#[verifier::external_type_specification]
#[verifier::external_body]
pub struct ExJsonError(serde_json::Error);

/// Whether `serde_json::from_str::<serde_json::Value>` accepts `text`.
pub uninterp spec fn json_parses(text: Seq<char>) -> bool;

/// Whether `serde_json::Value::pointer` finds a value at `pointer` in the document `text`.
pub uninterp spec fn json_pointer_found(text: Seq<char>, pointer: Seq<char>) -> bool;

/// What `serde_json::Value::as_str` gives for the value at `pointer` in `text`.
pub uninterp spec fn json_str_at(text: Seq<char>, pointer: Seq<char>) -> Option<Seq<char>>;

/// What `serde_json::Value::as_u64` gives for the value at `pointer` in `text`.
pub uninterp spec fn json_u64_at(text: Seq<char>, pointer: Seq<char>) -> Option<u64>;

/// The length of the array that `serde_json::Value::as_array` gives for the
/// value at `pointer` in `text`, or `None` when it is no array.
pub uninterp spec fn json_array_len_at(text: Seq<char>, pointer: Seq<char>) -> Option<nat>;

/// A parsed JSON document together with its text. Only [`parse_json`] builds one.
pub struct JsonDoc {
    text: String,
    value: serde_json::Value,
}

impl View for JsonDoc {
    type V = Seq<char>;

    /// The text the document was parsed from.
    closed spec fn view(&self) -> Seq<char> {
        self.text@
    }
}

/// A value inside a [`JsonDoc`], together with the document's text and the
/// pointer that reached it. Only [`json_pointer`] builds one.
pub struct JsonNode {
    text: String,
    pointer: String,
    value: serde_json::Value,
}

impl View for JsonNode {
    type V = (Seq<char>, Seq<char>);

    /// The document's text and the pointer.
    closed spec fn view(&self) -> (Seq<char>, Seq<char>) {
        (self.text@, self.pointer@)
    }
}

/// Calls `serde_json::from_str::<serde_json::Value>(content)`. Claims that it
/// succeeds exactly when `json_parses(content)`, a function of the text alone,
/// and that the document is paired with that text.
#[verifier::external_body]
pub(crate) fn parse_json(content: &str) -> (r: Result<JsonDoc, serde_json::Error>)
    ensures
        r is Ok <==> json_parses(content@),
        r matches Ok(d) ==> d@ == content@,
{
    match serde_json::from_str::<serde_json::Value>(content) {
        Ok(value) => Ok(JsonDoc { text: content.to_string(), value }),
        Err(e) => Err(e),
    }
}

/// Calls `serde_json::Value::pointer(pointer)` on the document and clones the
/// value found. Claims that a value is found exactly when
/// `json_pointer_found(text, pointer)`, a function of the document's text and
/// the pointer alone, and that the node is paired with them.
#[verifier::external_body]
pub(crate) fn json_pointer(doc: &JsonDoc, pointer: &str) -> (r: Option<JsonNode>)
    ensures
        r is Some <==> json_pointer_found(doc@, pointer@),
        r matches Some(n) ==> n@ == (doc@, pointer@),
{
    match doc.value.pointer(pointer) {
        Some(v) => Some(JsonNode { text: doc.text.clone(), pointer: pointer.to_string(), value: v.clone() }),
        None => None,
    }
}

/// Calls `serde_json::Value::as_str` on the node. Claims that the outcome is
/// `json_str_at(text, pointer)`, a function of the node's document text and pointer.
#[verifier::external_body]
pub(crate) fn json_as_str(node: &JsonNode) -> (r: Option<String>)
    ensures
        r is Some <==> json_str_at(node@.0, node@.1) is Some,
        r matches Some(s) ==> json_str_at(node@.0, node@.1) == Some(s@),
{
    match node.value.as_str() {
        Some(s) => Some(s.to_string()),
        None => None,
    }
}

/// Calls `serde_json::Value::as_u64` on the node. Claims that the outcome is
/// `json_u64_at(text, pointer)`, a function of the node's document text and pointer.
#[verifier::external_body]
pub(crate) fn json_as_u64(node: &JsonNode) -> (r: Option<u64>)
    ensures
        r == json_u64_at(node@.0, node@.1),
{
    node.value.as_u64()
}

/// Calls `serde_json::Value::as_array` on the node and takes the array's
/// length. Claims that the outcome is `json_array_len_at(text, pointer)`, a
/// function of the node's document text and pointer.
#[verifier::external_body]
pub(crate) fn json_as_array_len(node: &JsonNode) -> (r: Option<usize>)
    ensures
        r is Some <==> json_array_len_at(node@.0, node@.1) is Some,
        r matches Some(n) ==> json_array_len_at(node@.0, node@.1) == Some(n as nat),
{
    match node.value.as_array() {
        Some(a) => Some(a.len()),
        None => None,
    }
}

impl JsonDoc {
    /// Parses `content` as a JSON document.
    pub fn parse(content: &str) -> (r: Result<JsonDoc, PassageError>)
        ensures
            r is Ok <==> json_parses(content@),
            r matches Ok(d) ==> d@ == content@,
            r matches Err(e) ==> e@ == PassageErrorView::JsonParse,
    {
        match parse_json(content) {
            Ok(d) => Ok(d),
            Err(_) => Err(PassageError::JsonParse),
        }
    }
}

/// Whether the value at `pointer` is an array of more than one element.
pub open spec fn has_many_elements(text: Seq<char>, pointer: Seq<char>) -> bool {
    &&& json_pointer_found(text, pointer)
    &&& json_array_len_at(text, pointer) matches Some(n) && n > 1
}

/// Whether only the first element of the array at `field` would be used,
/// because it holds more than one.
pub fn json_array_only_first_element_warning(json: &JsonDoc, field: &str) -> (r: bool)
    ensures
        r == has_many_elements(json@, field@),
{
    match json_pointer(json, field) {
        Some(node) => match json_as_array_len(&node) {
            Some(n) => n > 1,
            None => false,
        },
        None => false,
    }
}

/// The string at `pointer`, or the error that names the pointer.
pub open spec fn field_string(text: Seq<char>, pointer: Seq<char>) -> Result<Seq<char>, PassageErrorView> {
    if json_pointer_found(text, pointer) && json_str_at(text, pointer) is Some {
        Ok(json_str_at(text, pointer)->0)
    } else {
        Err(PassageErrorView::JsonField(pointer))
    }
}

/// The number at `pointer` cut to its low 16 bits, or the error that names the pointer.
pub open spec fn field_u16(text: Seq<char>, pointer: Seq<char>) -> Result<u16, PassageErrorView> {
    if json_pointer_found(text, pointer) && json_u64_at(text, pointer) is Some {
        Ok((json_u64_at(text, pointer)->0) as u16)
    } else {
        Err(PassageErrorView::JsonField(pointer))
    }
}

/// The unsigned number at `field`, cut to 16 bits (`as u16`).
pub fn json_get_field_to_u16(json: &JsonDoc, field: &str) -> (r: Result<u16, PassageError>)
    ensures
        r matches Ok(n) ==> field_u16(json@, field@) == Ok::<u16, PassageErrorView>(n),
        r matches Err(e) ==> field_u16(json@, field@) == Err::<u16, PassageErrorView>(e@),
{
    match json_pointer(json, field) {
        Some(node) => match json_as_u64(&node) {
            Some(n) => Ok(n as u16),
            None => Err(PassageError::JsonField(field.to_string())),
        },
        None => Err(PassageError::JsonField(field.to_string())),
    }
}

/// The string at `field`.
pub fn json_get_field_to_string(json: &JsonDoc, field: &str) -> (r: Result<String, PassageError>)
    ensures
        r matches Ok(s) ==> field_string(json@, field@) == Ok::<Seq<char>, PassageErrorView>(s@),
        r matches Err(e) ==> field_string(json@, field@) == Err::<Seq<char>, PassageErrorView>(e@),
{
    match json_pointer(json, field) {
        Some(node) => match json_as_str(&node) {
            Some(s) => Ok(s),
            None => Err(PassageError::JsonField(field.to_string())),
        },
        None => Err(PassageError::JsonField(field.to_string())),
    }
}

} // verus!
