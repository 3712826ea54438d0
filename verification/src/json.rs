//! JSON: writing flat objects and reading single numbers.
use crate::binary64::Binary64;
use crate::text::texts;
use serde_json::{Map as JsonMap, Value};
use vstd::prelude::*;

verus! {

/// A value of a flat object.
#[derive(Debug)]
pub enum JsonValue {
    Text(String),
    Texts(Vec<String>),
    Flag(bool),
    Number(u64),
}

/// A field of a flat object.
#[derive(Debug)]
pub struct JsonField {
    pub key: String,
    pub value: JsonValue,
}

/// What a value holds.
pub enum JsonView {
    Text(Seq<char>),
    Texts(Seq<Seq<char>>),
    Flag(bool),
    Number(u64),
}

/// What a field holds.
pub struct JsonFieldView {
    pub key: Seq<char>,
    pub value: JsonView,
}

impl View for JsonValue {
    type V = JsonView;

    open spec fn view(&self) -> JsonView {
        match *self {
            JsonValue::Text(t) => JsonView::Text(t@),
            JsonValue::Texts(l) => JsonView::Texts(texts(l@)),
            JsonValue::Flag(b) => JsonView::Flag(b),
            JsonValue::Number(n) => JsonView::Number(n),
        }
    }
}

impl View for JsonField {
    type V = JsonFieldView;

    open spec fn view(&self) -> JsonFieldView {
        JsonFieldView { key: self.key@, value: self.value@ }
    }
}

/// What a list of fields holds.
pub open spec fn field_views(fields: Seq<JsonField>) -> Seq<JsonFieldView> {
    fields.map_values(|f: JsonField| f@)
}

/// The text of the object with these fields, inserted in this order.
pub uninterp spec fn object_text(fields: Seq<JsonFieldView>) -> Seq<char>;

/// Calls `serde_json::Value::to_string` on the object that holds the fields. Trusted:
/// the text is a function of the fields and their order alone.
#[verifier::external_body]
pub(crate) fn render_object(fields: &Vec<JsonField>) -> (r: String)
    ensures
        r@ == object_text(field_views(fields@)),
{
    let mut object = JsonMap::new();
    for field in fields {
        let value = match &field.value {
            JsonValue::Text(t) => Value::from(t.as_str()),
            JsonValue::Texts(l) => Value::from(l.as_slice()),
            JsonValue::Flag(b) => Value::from(*b),
            JsonValue::Number(n) => Value::from(*n),
        };
        object.insert(field.key.clone(), value);
    }
    Value::Object(object).to_string()
}

/// How the field `key` of a JSON text reads as a number: its bits, nothing where there
/// is no such field or it is no number, or why the text is not JSON.
pub uninterp spec fn number_field(text: Seq<char>, key: Seq<char>) -> Result<
    Option<u64>,
    Seq<char>,
>;

/// What a reading of a number holds.
pub open spec fn reading(r: Result<Option<Binary64>, String>) -> Result<Option<u64>, Seq<char>> {
    match r {
        Ok(Some(x)) => Ok(Some(x.bits)),
        Ok(None) => Ok(None),
        Err(e) => Err(e@),
    }
}

/// Calls `serde_json::from_str` and reads one field of the value with
/// `serde_json::Value::get` and `serde_json::Value::as_f64`. Trusted: what is read, and
/// the error's message, are functions of the text and the key alone.
#[verifier::external_body]
pub(crate) fn read_number(text: &str, key: &str) -> (r: Result<Option<Binary64>, String>)
    ensures
        reading(r) == number_field(text@, key@),
{
    match serde_json::from_str::<Value>(text) {
        Ok(value) => Ok(
            value.get(key).and_then(|v| v.as_f64()).map(|x| Binary64 { bits: x.to_bits() }),
        ),
        Err(e) => Err(e.to_string()),
    }
}

} // verus!
