//! Reading the flat shape of a JSON text.

use vstd::prelude::*;

verus! {

/// A member of a JSON object.
#[derive(Clone, Debug)]
pub enum JsonField {
    Null,
    Bool(bool),
    /// A number, as `serde_json` prints it.
    Number(String),
    Text(String),
    /// An array or an object, as compact JSON.
    Nested(String),
}

/// A JSON text, read one level deep.
#[derive(Clone, Debug)]
pub enum JsonDoc {
    /// No JSON.
    Invalid,
    /// JSON, but no object.
    Scalar,
    /// An object: its members in the order of the text.
    Object(Vec<(String, JsonField)>),
}

/// What a member holds.
pub enum JsonFieldView {
    Null,
    Bool(bool),
    Number(Seq<char>),
    Text(Seq<char>),
    Nested(Seq<char>),
}

/// What a JSON text holds, one level deep.
pub enum JsonDocView {
    Invalid,
    Scalar,
    Object(Seq<(Seq<char>, JsonFieldView)>),
}

impl View for JsonField {
    type V = JsonFieldView;

    open spec fn view(&self) -> JsonFieldView {
        match *self {
            JsonField::Null => JsonFieldView::Null,
            JsonField::Bool(b) => JsonFieldView::Bool(b),
            JsonField::Number(s) => JsonFieldView::Number(s@),
            JsonField::Text(s) => JsonFieldView::Text(s@),
            JsonField::Nested(s) => JsonFieldView::Nested(s@),
        }
    }
}

/// What a sequence of members holds.
pub open spec fn fields_view(v: Seq<(String, JsonField)>) -> Seq<(Seq<char>, JsonFieldView)> {
    Seq::new(v.len(), |i: int| (v[i].0@, v[i].1@))
}

impl View for JsonDoc {
    type V = JsonDocView;

    open spec fn view(&self) -> JsonDocView {
        match *self {
            JsonDoc::Invalid => JsonDocView::Invalid,
            JsonDoc::Scalar => JsonDocView::Scalar,
            JsonDoc::Object(v) => JsonDocView::Object(fields_view(v@)),
        }
    }
}

/// What `serde_json` reads a text as.
pub uninterp spec fn json_doc(text: Seq<char>) -> JsonDocView;

/// `serde_json::from_str` into a `Value`, and the value's members by variant;
/// numbers and nested values are written back with `Value`'s `Display`. A
/// function of the text.
#[verifier::external_body]
pub(crate) fn parse_json(text: &str) -> (doc: JsonDoc)
    ensures
        doc@ == json_doc(text@),
{
    let members = match serde_json::from_str::<serde_json::Value>(text) {
        Err(_) => return JsonDoc::Invalid,
        Ok(serde_json::Value::Object(map)) => map.into_iter(),
        Ok(_) => return JsonDoc::Scalar,
    };
    JsonDoc::Object(members.map(|(key, value)| match value {
        serde_json::Value::Null => (key, JsonField::Null),
        serde_json::Value::Bool(b) => (key, JsonField::Bool(b)),
        serde_json::Value::Number(n) => (key, JsonField::Number(n.to_string())),
        serde_json::Value::String(s) => (key, JsonField::Text(s)),
        nested => (key, JsonField::Nested(nested.to_string())),
    }).collect())
}

} // verus!
