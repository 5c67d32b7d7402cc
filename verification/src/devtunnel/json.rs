//! Looking up values in JSON text.

use crate::text::str_text;
use vstd::prelude::*;

verus! {

/// What stands at one place of a JSON text.
#[derive(Debug)]
pub enum Json {
    /// The text is no JSON.
    Invalid,
    /// There is no such place.
    Missing,
    Null,
    Flag(bool),
    /// A number, where it is a whole one that is not negative and can be held.
    Number(Option<u64>),
    Text(String),
    /// An array of this many values.
    Items(usize),
    Fields,
}

/// What stands at one place of a JSON text.
pub enum JsonView {
    Invalid,
    Missing,
    Null,
    Flag(bool),
    Number(Option<u64>),
    Text(Seq<char>),
    Items(usize),
    Fields,
}

impl View for Json {
    type V = JsonView;

    open spec fn view(&self) -> JsonView {
        match self {
            Json::Invalid => JsonView::Invalid,
            Json::Missing => JsonView::Missing,
            Json::Null => JsonView::Null,
            Json::Flag(b) => JsonView::Flag(*b),
            Json::Number(n) => JsonView::Number(*n),
            Json::Text(s) => JsonView::Text(s@),
            Json::Items(n) => JsonView::Items(*n),
            Json::Fields => JsonView::Fields,
        }
    }
}

/// What `serde_json` finds in `text` at the place that the JSON pointer names.
pub uninterp spec fn json_at(text: Seq<char>, pointer: Seq<char>) -> JsonView;

/// `serde_json::from_str` into a `serde_json::Value`, and then `Value::pointer` on it:
/// which of its variants stands there. What is found depends on the text and the
/// pointer alone.
#[verifier::external_body]
pub(crate) fn look_up(text: &str, pointer: &str) -> (r: Json)
    ensures
        r@ == json_at(text@, pointer@),
{
    match serde_json::from_str::<serde_json::Value>(text) {
        Err(_) => Json::Invalid,
        Ok(value) => match value.pointer(pointer) {
            None => Json::Missing,
            Some(serde_json::Value::Null) => Json::Null,
            Some(serde_json::Value::Bool(b)) => Json::Flag(*b),
            Some(serde_json::Value::Number(n)) => Json::Number(n.as_u64()),
            Some(serde_json::Value::String(s)) => Json::Text(s.clone()),
            Some(serde_json::Value::Array(a)) => Json::Items(a.len()),
            Some(serde_json::Value::Object(_)) => Json::Fields,
        },
    }
}

/// What `serde_json` writes for an object of four fields: a number, a text that may be
/// missing, and two texts.
pub uninterp spec fn object_text(
    number: (Seq<char>, u64),
    optional: (Seq<char>, Option<Seq<char>>),
    first: (Seq<char>, Seq<char>),
    second: (Seq<char>, Seq<char>),
) -> Seq<char>;

/// Whether a JSON pointer names a field by `key` as it stands.
pub open spec fn plain_key(key: Seq<char>) -> bool {
    forall|i: int| 0 <= i < key.len() ==> #[trigger] key[i] != '/' && key[i] != '~'
}

/// The pointer to the field `key` of an object.
pub open spec fn field(key: Seq<char>) -> Seq<char> {
    seq!['/'] + key
}

/// `serde_json::Value` from an iterator of fields, and its text. The text depends on
/// the fields alone. Reading it back at a field gives the value of the field, and null
/// for a text that is missing.
#[verifier::external_body]
pub(crate) fn write_object(
    number: (&str, u64),
    optional: (&str, Option<&str>),
    first: (&str, &str),
    second: (&str, &str),
) -> (r: String)
    requires
        plain_key(number.0@) && plain_key(optional.0@) && plain_key(first.0@) && plain_key(
            second.0@,
        ),
        number.0@ != optional.0@ && number.0@ != first.0@ && number.0@ != second.0@,
        optional.0@ != first.0@ && optional.0@ != second.0@ && first.0@ != second.0@,
    ensures
        r@ == object_text(
            (number.0@, number.1),
            (optional.0@, str_text(optional.1)),
            (first.0@, first.1@),
            (second.0@, second.1@),
        ),
        json_at(r@, field(number.0@)) == JsonView::Number(Some(number.1)),
        json_at(r@, field(optional.0@)) == (match optional.1 {
            Some(s) => JsonView::Text(s@),
            None => JsonView::Null,
        }),
        json_at(r@, field(first.0@)) == JsonView::Text(first.1@),
        json_at(r@, field(second.0@)) == JsonView::Text(second.1@),
{
    let fields = [
        (number.0, serde_json::Value::from(number.1)),
        (optional.0, serde_json::Value::from(optional.1)),
        (first.0, serde_json::Value::from(first.1)),
        (second.0, serde_json::Value::from(second.1)),
    ];
    serde_json::Value::from_iter(fields).to_string()
}

} // verus!
