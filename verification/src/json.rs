//! Scenario metadata: what the rules read of a JSON document.

use vstd::prelude::*;
use crate::scalar::{real_of, Real};

verus! {

/// A JSON value of the parser.
#[verifier::external_type_specification]
#[verifier::external_body]
pub struct ExValue(serde_json::Value);

/// A parse failure of the parser.
#[verifier::external_type_specification]
#[verifier::external_body]
pub struct ExJsonError(serde_json::Error);

/// What a JSON value holds.
pub ghost enum Json {
    Null,
    Flag(bool),
    /// A number: the unsigned integer that it is, if it is one, and the bits of the binary64
    /// number that the parser reads it as. The parser does not promise the nearest one: the last
    /// bit of a fraction may differ.
    Number { unsigned: Option<u64>, bits: u64 },
    Text(Seq<char>),
    List(Seq<Json>),
    Table(Map<Seq<char>, Json>),
}

/// The contents of a parsed value.
pub uninterp spec fn json_contents(value: serde_json::Value) -> Json;

/// The value that a text of bytes stands for in JSON, if it is a complete document.
pub uninterp spec fn parsed_json(bytes: Seq<u8>) -> Option<Json>;

/// Calls `serde_json::from_slice` for a value of any shape. It claims that the outcome depends on
/// the bytes alone. What a failure carries (its place and its words) is left open.
#[verifier::external_body]
pub(crate) fn parse_json(bytes: &[u8]) -> (parsed: Result<serde_json::Value, serde_json::Error>)
    ensures
        parsed matches Ok(value) ==> parsed_json(bytes@) == Some(json_contents(value)),
        parsed is Err ==> parsed_json(bytes@) is None,
{
    serde_json::from_slice(bytes)
}

/// `serde_json::Value::as_array` hands out the items of a list, in order, and nothing otherwise.
pub assume_specification[ serde_json::Value::as_array ](value: &serde_json::Value) -> (items:
    Option<&Vec<serde_json::Value>>)
    ensures
        match json_contents(*value) {
            Json::List(contents) => {
                &&& items is Some
                &&& items->Some_0@.len() == contents.len()
                &&& forall|i: int|
                    0 <= i < contents.len() ==> json_contents(#[trigger] items->Some_0@[i])
                        == contents[i]
            },
            _ => items is None,
        },
;

/// `serde_json::Value::is_object` tells tables from everything else.
pub assume_specification[ serde_json::Value::is_object ](value: &serde_json::Value) -> (answer:
    bool)
    ensures
        answer == (json_contents(*value) is Table),
;

/// `serde_json::Value::is_null` tells null from everything else.
pub assume_specification[ serde_json::Value::is_null ](value: &serde_json::Value) -> (answer: bool)
    ensures
        answer == (json_contents(*value) is Null),
;

/// `serde_json::Value::as_bool` gives a flag, and nothing for other values.
pub assume_specification[ serde_json::Value::as_bool ](value: &serde_json::Value) -> (flag: Option<
    bool,
>)
    ensures
        flag == (match json_contents(*value) {
            Json::Flag(held) => Some(held),
            _ => None,
        }),
;

/// `serde_json::Value::as_u64` gives the integer of a number that is a non-negative integer, and
/// nothing for other values.
pub assume_specification[ serde_json::Value::as_u64 ](value: &serde_json::Value) -> (number: Option<
    u64,
>)
    ensures
        number == (match json_contents(*value) {
            Json::Number { unsigned, bits } => unsigned,
            _ => None,
        }),
;

/// `serde_json::Value::as_str` gives a text, and nothing for other values.
pub assume_specification[ serde_json::Value::as_str ](value: &serde_json::Value) -> (text: Option<
    &str,
>)
    ensures
        match json_contents(*value) {
            Json::Text(held) => text is Some && text->Some_0@ == held,
            _ => text is None,
        },
;

/// Calls `serde_json::Value::as_f64` and hands on the bits of its result: those of the
/// binary64 number that the parser read for every number, and nothing for other values.
#[verifier::external_body]
fn number_bits(value: &serde_json::Value) -> (bits: Option<u64>)
    ensures
        bits == (match json_contents(*value) {
            Json::Number { unsigned, bits } => Some(bits),
            _ => None,
        }),
{
    value.as_f64().map(|number| number.to_bits())
}

/// Calls `serde_json::Value::get` with a text: the member of a table under that key, and nothing
/// where there is none or the value is no table.
#[verifier::external_body]
pub(crate) fn json_member<'a>(value: &'a serde_json::Value, key: &str) -> (member: Option<
    &'a serde_json::Value,
>)
    ensures
        match member_of(json_contents(*value), key@) {
            Some(held) => member is Some && json_contents(*member->Some_0) == held,
            None => member is None,
        },
{
    value.get(key)
}

/// The member of a table under a key.
pub open spec fn member_of(value: Json, key: Seq<char>) -> Option<Json> {
    match value {
        Json::Table(members) => if members.contains_key(key) {
            Some(members[key])
        } else {
            None
        },
        _ => None,
    }
}

/// One field of an entry as the rules see it.
#[derive(Debug)]
pub enum Field {
    /// The entry has no such field.
    Absent,
    Null,
    Flag(bool),
    Number { unsigned: Option<u64>, value: Real },
    Text(String),
    /// A list or a table.
    Other,
}

/// What a [`Field`] says.
pub ghost enum FieldModel {
    Absent,
    Null,
    Flag(bool),
    Number { unsigned: Option<u64>, value: Real },
    Text(Seq<char>),
    Other,
}

impl View for Field {
    type V = FieldModel;

    open spec fn view(&self) -> FieldModel {
        match *self {
            Field::Absent => FieldModel::Absent,
            Field::Null => FieldModel::Null,
            Field::Flag(flag) => FieldModel::Flag(flag),
            Field::Number { unsigned, value } => FieldModel::Number { unsigned, value },
            Field::Text(text) => FieldModel::Text(text@),
            Field::Other => FieldModel::Other,
        }
    }
}

pub open spec fn field_model(value: Option<Json>) -> FieldModel {
    match value {
        None => FieldModel::Absent,
        Some(Json::Null) => FieldModel::Null,
        Some(Json::Flag(flag)) => FieldModel::Flag(flag),
        Some(Json::Number { unsigned, bits }) => FieldModel::Number {
            unsigned,
            value: real_of(bits),
        },
        Some(Json::Text(text)) => FieldModel::Text(text),
        Some(Json::List(_)) => FieldModel::Other,
        Some(Json::Table(_)) => FieldModel::Other,
    }
}

/// The field of a table under a key.
pub open spec fn field_at(value: Json, key: Seq<char>) -> FieldModel {
    field_model(member_of(value, key))
}

/// Read one field.
pub fn read_field(value: &serde_json::Value, key: &str) -> (field: Field)
    ensures
        field@ == field_at(json_contents(*value), key@),
{
    match json_member(value, key) {
        None => Field::Absent,
        Some(member) => {
            if member.is_null() {
                Field::Null
            } else if let Some(flag) = member.as_bool() {
                Field::Flag(flag)
            } else if let Some(bits) = number_bits(member) {
                Field::Number { unsigned: member.as_u64(), value: Real::from_bits(bits) }
            } else if let Some(text) = member.as_str() {
                Field::Text(text.to_owned())
            } else {
                Field::Other
            }
        },
    }
}

impl FieldModel {
    pub open spec fn number(self) -> Option<Real> {
        match self {
            FieldModel::Number { unsigned, value } => Some(value),
            _ => None,
        }
    }

    pub open spec fn whole(self) -> Option<u64> {
        match self {
            FieldModel::Number { unsigned, value } => unsigned,
            _ => None,
        }
    }

    pub open spec fn flagged(self) -> bool {
        self matches FieldModel::Flag(flag) && flag
    }

    pub open spec fn missing(self) -> bool {
        self is Absent || self is Null
    }
}

impl Field {
    pub fn as_number(&self) -> (number: Option<Real>)
        ensures
            number == self@.number(),
    {
        match self {
            Field::Number { unsigned: _, value } => Some(*value),
            _ => None,
        }
    }

    pub fn as_whole(&self) -> (number: Option<u64>)
        ensures
            number == self@.whole(),
    {
        match self {
            Field::Number { unsigned, value: _ } => *unsigned,
            _ => None,
        }
    }

    /// Whether the field is a flag that is set.
    pub fn is_flagged(&self) -> (answer: bool)
        ensures
            answer == self@.flagged(),
    {
        match self {
            Field::Flag(flag) => *flag,
            _ => false,
        }
    }

    /// Whether there is no value.
    pub fn is_missing(&self) -> (answer: bool)
        ensures
            answer == self@.missing(),
    {
        match self {
            Field::Absent => true,
            Field::Null => true,
            _ => false,
        }
    }
}

} // verus!
