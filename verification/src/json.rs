//! Free-form fields of events, kept in JSON objects.

use vstd::prelude::*;
use vstd::string::*;

verus! {

/// What a free-form field holds.
pub enum Field {
    Text(Seq<char>),
    Number(u64),
}

/// A JSON object of `serde_json`.
#[verifier::external_type_specification]
#[verifier::external_body]
#[verifier::reject_recursive_types(K)]
#[verifier::reject_recursive_types(V)]
pub struct ExJsonMap<K, V>(serde_json::Map<K, V>);

/// A JSON value of `serde_json`.
#[verifier::external_type_specification]
#[verifier::external_body]
pub struct ExJsonValue(serde_json::Value);

/// The fields of a JSON object by their names.
pub uninterp spec fn json_fields(object: serde_json::Map<String, serde_json::Value>) -> Map<
    Seq<char>,
    Field,
>;

/// No fields at all.
pub open spec fn no_fields() -> Map<Seq<char>, Field> {
    Map::empty()
}

/// `serde_json::Map::new` makes an object without fields.
#[verifier::external_body]
pub(crate) fn json_object() -> (r: serde_json::Map<String, serde_json::Value>)
    ensures
        json_fields(r) == no_fields(),
{
    serde_json::Map::new()
}

/// `serde_json::Map::clone` makes an object with the same fields.
pub assume_specification[ <serde_json::Map<String, serde_json::Value> as Clone>::clone ](
    object: &serde_json::Map<String, serde_json::Value>,
) -> (r: serde_json::Map<String, serde_json::Value>)
    ensures
        json_fields(r) == json_fields(*object),
;

/// `serde_json::Map::insert` sets the field of that name, here to `serde_json::Value::from` of a
/// text, and leaves all other fields as they are.
#[verifier::external_body]
pub(crate) fn set_text(
    object: &mut serde_json::Map<String, serde_json::Value>,
    name: &str,
    text: &str,
)
    ensures
        json_fields(*final(object)) == json_fields(*old(object)).insert(name@, Field::Text(text@)),
{
    object.insert(name.to_string(), serde_json::Value::from(text));
}

/// `serde_json::Map::insert` sets the field of that name, here to `serde_json::Value::from` of a
/// number, and leaves all other fields as they are.
#[verifier::external_body]
pub(crate) fn set_number(
    object: &mut serde_json::Map<String, serde_json::Value>,
    name: &str,
    number: u64,
)
    ensures
        json_fields(*final(object)) == json_fields(*old(object)).insert(
            name@,
            Field::Number(number),
        ),
{
    object.insert(name.to_string(), serde_json::Value::from(number));
}

} // verus!
