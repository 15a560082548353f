//! JSON values: what the library reads of them and how it makes them.
//!
//! The values are those of `serde_json`. Contracts speak of a value through
//! [`json`], the tree that it holds; the functions below are the calls into
//! `serde_json`, each with what that crate's source shows of it.
use serde_json::Error as JsonError;
use serde_json::Value;
use vstd::prelude::*;
use vstd::utf8::encode_utf8;

verus! {

/// A JSON tree. A number is an unsigned integer, a negative one, or a floating
/// point number, which is given by its bits.
pub enum Json {
    Null,
    Bool(bool),
    Unsigned(u64),
    Negative(i64),
    Float(u64),
    Text(Seq<char>),
    Array(Seq<Json>),
    Object(Map<Seq<char>, Json>),
}

impl Json {
    /// The member of an object, if this is an object that has it.
    pub open spec fn get(self, key: Seq<char>) -> Option<Json> {
        match self {
            Json::Object(members) => if members.contains_key(key) {
                Some(members[key])
            } else {
                None
            },
            _ => None,
        }
    }

    /// The member of an object, null where there is none.
    pub open spec fn member(self, key: Seq<char>) -> Json {
        match self.get(key) {
            Some(member) => member,
            None => Json::Null,
        }
    }

    /// The characters of a text.
    pub open spec fn text(self) -> Option<Seq<char>> {
        match self {
            Json::Text(text) => Some(text),
            _ => None,
        }
    }

    /// The value of an unsigned integer.
    pub open spec fn unsigned(self) -> Option<u64> {
        match self {
            Json::Unsigned(number) => Some(number),
            _ => None,
        }
    }
}

/// `serde_json::Value`, a JSON value.
#[verifier::external_type_specification]
#[verifier::external_body]
pub struct ExValue(serde_json::Value);

/// `serde_json::Error`, what is wrong with a JSON text.
#[verifier::external_type_specification]
#[verifier::external_body]
pub struct ExJsonError(JsonError);

/// The tree that a `serde_json::Value` holds.
pub uninterp spec fn json(value: Value) -> Json;

/// The message that a `serde_json::Error` displays.
pub uninterp spec fn message(error: JsonError) -> Seq<char>;

/// What `serde_json::from_slice` makes of bytes: a tree, or the message of the
/// error that it reports.
pub uninterp spec fn json_of_bytes(bytes: Seq<u8>) -> Result<Json, Seq<char>>;

/// What a text stands for: what its UTF-8 bytes do.
pub open spec fn json_of_text(text: Seq<char>) -> Result<Json, Seq<char>> {
    json_of_bytes(encode_utf8(text))
}

/// The compact text in which `serde_json` displays a tree.
pub uninterp spec fn text_of_json(tree: Json) -> Seq<char>;

/// The trees of several values.
pub open spec fn jsons(values: Seq<Value>) -> Seq<Json> {
    values.map_values(|value: Value| json(value))
}

/// A parsed value by its tree, an error by its message.
pub open spec fn parsed(result: Result<Value, JsonError>) -> Result<Json, Seq<char>> {
    match result {
        Ok(value) => Ok(json(value)),
        Err(error) => Err(message(error)),
    }
}

/// Calls `serde_json::from_str`. Claims that the outcome is the one that
/// `serde_json::from_slice` has on the text's UTF-8 bytes, an error being known by
/// its message: both run one parser over the same bytes, and all that the text
/// saves is the test that strings are valid UTF-8, which they are.
#[verifier::external_body]
pub(crate) fn parse_text(text: &str) -> (r: Result<Value, JsonError>)
    ensures
        parsed(r) == json_of_text(text@),
{
    serde_json::from_str(text)
}

/// Calls `serde_json::from_slice`. Claims that the outcome depends on the bytes
/// alone, an error being known by its message.
#[verifier::external_body]
pub(crate) fn parse_bytes(bytes: &Vec<u8>) -> (r: Result<Value, JsonError>)
    ensures
        parsed(r) == json_of_bytes(bytes@),
{
    serde_json::from_slice(bytes)
}

/// Calls `to_string` on a `serde_json::Error`, which is its `Display` form. Claims
/// that this is its message.
#[verifier::external_body]
pub(crate) fn error_text(error: &JsonError) -> (text: String)
    ensures
        text@ == message(*error),
{
    error.to_string()
}

/// Calls `to_string` on a `serde_json::Value`, which is its `Display` form.
/// Claims that the text depends on the tree alone.
#[verifier::external_body]
pub(crate) fn display(value: &Value) -> (text: String)
    ensures
        text@ == text_of_json(json(*value)),
{
    value.to_string()
}

/// Calls `serde_json::Value::get` with a key. Claims that it finds the member of
/// an object and nothing elsewhere.
#[verifier::external_body]
pub(crate) fn get<'a>(value: &'a Value, key: &str) -> (r: Option<&'a Value>)
    ensures
        match r {
            Some(member) => json(*value).get(key@) == Some(json(*member)),
            None => json(*value).get(key@) is None,
        },
{
    value.get(key)
}

/// Indexes a `serde_json::Value` with a key. Claims that it finds the member of an
/// object, and null elsewhere.
#[verifier::external_body]
pub(crate) fn member<'a>(value: &'a Value, key: &str) -> (r: &'a Value)
    ensures
        json(*r) == json(*value).member(key@),
{
    &value[key]
}

/// Calls `serde_json::Value::as_str`. Claims that it gives the text of a string
/// and nothing of any other value.
#[verifier::external_body]
pub(crate) fn as_text<'a>(value: &'a Value) -> (r: Option<&'a str>)
    ensures
        match r {
            Some(text) => json(*value).text() == Some(text@),
            None => json(*value).text() is None,
        },
{
    value.as_str()
}

/// Calls `serde_json::Value::as_u64`. Claims that it gives the value of an
/// unsigned integer and nothing of any other value.
#[verifier::external_body]
pub(crate) fn as_unsigned(value: &Value) -> (r: Option<u64>)
    ensures
        r == json(*value).unsigned(),
{
    value.as_u64()
}

/// Calls `clone` on a `serde_json::Value`. Claims that the copy holds the same
/// tree.
#[verifier::external_body]
pub(crate) fn copy(value: &Value) -> (r: Value)
    ensures
        json(r) == json(*value),
{
    value.clone()
}

/// Calls `serde_json::Value::from` on a text. Claims that it is a string of the
/// same characters.
#[verifier::external_body]
pub(crate) fn from_text(text: &str) -> (value: Value)
    ensures
        json(value) == Json::Text(text@),
{
    Value::from(text)
}

/// Calls `serde_json::Value::from` on an unsigned integer. Claims that it is that
/// number.
#[verifier::external_body]
pub(crate) fn from_unsigned(number: u64) -> (value: Value)
    ensures
        json(value) == Json::Unsigned(number),
{
    Value::from(number)
}

/// Calls `serde_json::Value::Array`. Claims that it is the array of the given
/// values.
#[verifier::external_body]
pub(crate) fn from_items(items: Vec<Value>) -> (value: Value)
    ensures
        json(value) == Json::Array(jsons(items@)),
{
    Value::Array(items)
}

/// Calls `serde_json::Map::new`. Claims that it makes an object without members.
#[verifier::external_body]
pub(crate) fn empty_object() -> (value: Value)
    ensures
        json(value) == Json::Object(Map::empty()),
{
    Value::Object(serde_json::Map::new())
}

/// Assigns to a member of an object by its key, through `IndexMut` of
/// `serde_json::Value`. Claims that this member is set and the others stay. On
/// anything but an object or null the call would panic.
#[verifier::external_body]
pub(crate) fn set_member(object: &mut Value, key: &str, value: Value)
    requires
        json(*old(object)) is Object,
    ensures
        json(*final(object)) == Json::Object(
            json(*old(object))->Object_0.insert(key@, json(value)),
        ),
{
    object[key] = value;
}

} // verus!
