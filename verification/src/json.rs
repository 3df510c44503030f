//! JSON values as `serde_json` holds them.
//!
//! The library reads and writes JSON with `serde_json`. What is stated of its functions here is
//! believed, not proved.
use vstd::prelude::*;

verus! {

/// What a JSON value holds.
pub enum Json {
    Null,
    Bool(bool),
    /// A number, by the text that it is written as.
    Number(Seq<char>),
    Text(Seq<char>),
    Array(Seq<Json>),
    Object(Map<Seq<char>, Json>),
}

/// `serde_json::Value`, a tree of JSON values.
#[verifier::external_type_specification]
#[verifier::external_body]
pub struct ExValue(serde_json::Value);

/// What a `serde_json::Value` holds.
pub uninterp spec fn content(value: serde_json::Value) -> Json;

/// What the values of a list hold.
pub open spec fn contents(list: Seq<serde_json::Value>) -> Seq<Json> {
    Seq::new(list.len(), |i: int| content(list[i]))
}

/// What `serde_json::from_str` makes of a text: the value that it denotes, or the message of the
/// error.
pub uninterp spec fn parsed(text: Seq<char>) -> Result<Json, Seq<char>>;

/// The text that `serde_json` writes a value as, without white space between its tokens and
/// with the members of an object in the order of their keys.
pub uninterp spec fn compact(value: Json) -> Seq<char>;

/// `serde_json::from_str` into a `serde_json::Value`, with the error as the text that it
/// displays. Value and message are a function of the text; which, is not said.
#[verifier::external_body]
pub(crate) fn parse(text: &str) -> (read: Result<serde_json::Value, String>)
    ensures
        match read {
            Ok(value) => parsed(text@) == Ok::<Json, Seq<char>>(content(value)),
            Err(message) => parsed(text@) == Err::<Json, Seq<char>>(message@),
        },
{
    serde_json::from_str(text).map_err(|e: serde_json::Error| e.to_string())
}

/// `to_string` on a `serde_json::Value`: its compact text, which is a function of what the
/// value holds. There is no line break in it: nothing is put between the tokens, and a line
/// break within a string is escaped.
#[verifier::external_body]
pub(crate) fn write_compact(value: &serde_json::Value) -> (text: String)
    ensures
        text@ == compact(content(*value)),
        !text@.contains('\n'),
{
    value.to_string()
}

/// `serde_json::Value::get` with a string: the member of an object under a key. There is none
/// if the object lacks the key, and none in any other value.
#[verifier::external_body]
pub(crate) fn member<'a>(value: &'a serde_json::Value, key: &str) -> (found: Option<
    &'a serde_json::Value,
>)
    ensures
        match content(*value) {
            Json::Object(members) => match found {
                Some(inner) => members.contains_key(key@) && content(*inner) == members[key@],
                None => !members.contains_key(key@),
            },
            _ => found is None,
        },
{
    value.get(key)
}

/// `serde_json::Value::as_array`: the elements of an array, in order, and nothing for any other
/// value.
pub assume_specification[ serde_json::Value::as_array ](value: &serde_json::Value) -> (found:
    Option<&Vec<serde_json::Value>>)
    ensures
        match content(*value) {
            Json::Array(elements) => found matches Some(list) && contents(list@) == elements,
            _ => found is None,
        },
;

/// `serde_json::Value::as_str`: the text of a string, and nothing for any other value.
pub assume_specification[ serde_json::Value::as_str ](value: &serde_json::Value) -> (found: Option<
    &str,
>)
    ensures
        match content(*value) {
            Json::Text(text) => found matches Some(s) && s@ == text,
            _ => found is None,
        },
;

/// The elements of the array that an object holds under a key; none if it holds none there.
pub open spec fn elements_under(value: Json, key: Seq<char>) -> Seq<Json> {
    match value {
        Json::Object(members) if members.contains_key(key) => match members[key] {
            Json::Array(elements) => elements,
            _ => Seq::empty(),
        },
        _ => Seq::empty(),
    }
}

/// The text that an object holds under a key.
pub open spec fn text_under(value: Json, key: Seq<char>) -> Option<Seq<char>> {
    match value {
        Json::Object(members) if members.contains_key(key) => match members[key] {
            Json::Text(text) => Some(text),
            _ => None,
        },
        _ => None,
    }
}

/// The array that an object holds under a key.
pub(crate) fn array_member<'a>(value: &'a serde_json::Value, key: &str) -> (found: Option<
    &'a Vec<serde_json::Value>,
>)
    ensures
        match found {
            Some(list) => elements_under(content(*value), key@) == contents(list@),
            None => elements_under(content(*value), key@) == Seq::<Json>::empty(),
        },
{
    match member(value, key) {
        Some(inner) => inner.as_array(),
        None => None,
    }
}

/// The text that an object holds under a key.
pub(crate) fn text_member<'a>(value: &'a serde_json::Value, key: &str) -> (found: Option<&'a str>)
    ensures
        crate::text::optional_text(found) == text_under(content(*value), key@),
{
    match member(value, key) {
        Some(inner) => inner.as_str(),
        None => None,
    }
}

/// What an object holds under a key is found there, if it is of the kind that is looked for.
/// Nothing is found where it is of another kind, where the key is missing, and in what is no
/// object.
pub proof fn law_members_are_found(
    members: Map<Seq<char>, Json>,
    key: Seq<char>,
    elements: Seq<Json>,
    text: Seq<char>,
    value: Json,
)
    ensures
        elements_under(Json::Object(members.insert(key, Json::Array(elements))), key) == elements,
        text_under(Json::Object(members.insert(key, Json::Text(text))), key) == Some(text),
        !(value is Array) ==> elements_under(
            Json::Object(members.insert(key, value)),
            key,
        ) == Seq::<Json>::empty(),
        !(value is Text) ==> text_under(Json::Object(members.insert(key, value)), key) is None,
        elements_under(Json::Object(members.remove(key)), key) == Seq::<Json>::empty(),
        text_under(Json::Object(members.remove(key)), key) is None,
        !(value is Object) ==> elements_under(value, key) == Seq::<Json>::empty() && text_under(
            value,
            key,
        ) is None,
{
}

/// A list of values holds what each of them holds, in order.
pub proof fn law_contents_one_by_one(list: Seq<serde_json::Value>)
    ensures
        contents(list).len() == list.len(),
        forall|i: int| 0 <= i < list.len() ==> #[trigger] contents(list)[i] == content(list[i]),
{
}

} // verus!
