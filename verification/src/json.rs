//! A plain model of JSON values: what the tool reads from Telegram's replies
//! and from its own arguments, and what it writes into request bodies.

use vstd::prelude::*;
use vstd::string::*;
use crate::text::str_eq;

verus! {

/// A JSON value. Numbers keep their textual form; an object keeps its
/// members in order, and a key is looked up at its first occurrence.
pub enum JsonValue {
    Null,
    Bool(bool),
    Number(String),
    String(String),
    Array(Vec<JsonValue>),
    Object(Vec<JsonMember>),
}

/// One `"key": value` member of a JSON object.
pub struct JsonMember {
    pub key: String,
    pub value: JsonValue,
}

/// The value under `key` among `members`: that of its first occurrence.
pub open spec fn member_lookup(members: Seq<JsonMember>, key: Seq<char>) -> Option<JsonValue>
    decreases members.len(),
{
    if members.len() == 0 {
        None
    } else if members[0].key@ == key {
        Some(members[0].value)
    } else {
        member_lookup(members.drop_first(), key)
    }
}

/// `value.get(key)`: the member of an object; nothing for any other value.
pub open spec fn get_spec(v: JsonValue, key: Seq<char>) -> Option<JsonValue> {
    match v {
        JsonValue::Object(m) => member_lookup(m@, key),
        _ => None,
    }
}

pub open spec fn as_str_spec(v: JsonValue) -> Option<Seq<char>> {
    match v {
        JsonValue::String(s) => Some(s@),
        _ => None,
    }
}

pub open spec fn as_bool_spec(v: JsonValue) -> Option<bool> {
    match v {
        JsonValue::Bool(b) => Some(b),
        _ => None,
    }
}

pub open spec fn as_array_spec(v: JsonValue) -> Option<Seq<JsonValue>> {
    match v {
        JsonValue::Array(a) => Some(a@),
        _ => None,
    }
}

/// `get(key)` then `as_str()`.
pub open spec fn str_field(v: JsonValue, key: Seq<char>) -> Option<Seq<char>> {
    match get_spec(v, key) {
        Some(x) => as_str_spec(x),
        None => None,
    }
}

/// `get(key)` then `as_bool()`.
pub open spec fn bool_field(v: JsonValue, key: Seq<char>) -> Option<bool> {
    match get_spec(v, key) {
        Some(x) => as_bool_spec(x),
        None => None,
    }
}

impl JsonValue {
    /// The member `key` of an object; `None` for a missing key or a value
    /// that is not an object.
    pub fn get(&self, key: &str) -> (r: Option<&JsonValue>)
        ensures
            r is None <==> get_spec(*self, key@) is None,
            r matches Some(x) ==> get_spec(*self, key@) == Some(*x),
    {
        match self {
            JsonValue::Object(members) => {
                let n = members.len();
                let mut i: usize = 0;
                assert(members@.skip(0) =~= members@);
                while i < n
                    invariant
                        n == members@.len(),
                        i <= n,
                        get_spec(*self, key@) == member_lookup(members@, key@),
                        member_lookup(members@, key@) == member_lookup(members@.skip(i as int), key@),
                    decreases n - i,
                {
                    assert(members@.skip(i as int).drop_first() =~= members@.skip(i + 1));
                    if str_eq(members[i].key.as_str(), key) {
                        return Some(&members[i].value);
                    }
                    i = i + 1;
                }
                None
            },
            _ => None,
        }
    }

    pub fn as_str(&self) -> (r: Option<&str>)
        ensures
            r is None <==> as_str_spec(*self) is None,
            r matches Some(s) ==> as_str_spec(*self) == Some(s@),
    {
        match self {
            JsonValue::String(s) => Some(s.as_str()),
            _ => None,
        }
    }

    pub fn as_bool(&self) -> (r: Option<bool>)
        ensures
            r == as_bool_spec(*self),
    {
        match self {
            JsonValue::Bool(b) => Some(*b),
            _ => None,
        }
    }

    pub fn as_array(&self) -> (r: Option<&Vec<JsonValue>>)
        ensures
            r is None <==> as_array_spec(*self) is None,
            r matches Some(a) ==> as_array_spec(*self) == Some(a@),
    {
        match self {
            JsonValue::Array(a) => Some(a),
            _ => None,
        }
    }

    /// `get(key)` then `as_str()`.
    pub fn str_field(&self, key: &str) -> (r: Option<&str>)
        ensures
            r is None <==> str_field(*self, key@) is None,
            r matches Some(s) ==> str_field(*self, key@) == Some(s@),
    {
        match self.get(key) {
            Some(v) => v.as_str(),
            None => None,
        }
    }

    /// A string value holding a copy of `s`.
    pub fn string(s: &str) -> (r: JsonValue)
        ensures
            as_str_spec(r) == Some(s@),
    {
        JsonValue::String(String::from_str(s))
    }
}

/// A member `key: value`.
pub fn member(key: &str, value: JsonValue) -> (m: JsonMember)
    ensures
        m.key@ == key@,
        m.value == value,
{
    JsonMember { key: String::from_str(key), value }
}

/// The outside JSON value that `serde_json` parses into.
#[verifier::external_type_specification]
#[verifier::external_body]
pub struct ExSerdeJsonValue(serde_json::Value);

/// What `serde_json::from_str::<serde_json::Value>` makes of a text, carried
/// over into this model; `None` when the text is not valid JSON.
pub uninterp spec fn json_parse(text: Seq<char>) -> Option<JsonValue>;

/// Carries a `serde_json::Value` over into this model, variant by variant:
/// numbers by their textual form, object members in the map's order. It
/// backs `parse_json` only and states nothing of its own.
#[verifier::external_body]
fn json_from_serde(v: &serde_json::Value) -> JsonValue {
    match v {
        serde_json::Value::Null => JsonValue::Null,
        serde_json::Value::Bool(b) => JsonValue::Bool(*b),
        serde_json::Value::Number(n) => JsonValue::Number(n.to_string()),
        serde_json::Value::String(t) => JsonValue::String(t.clone()),
        serde_json::Value::Array(a) => JsonValue::Array(a.iter().map(json_from_serde).collect()),
        serde_json::Value::Object(m) => JsonValue::Object(
            m.iter().map(|(k, x)| JsonMember { key: k.clone(), value: json_from_serde(x) }).collect(),
        ),
    }
}

/// Calls `serde_json::from_str` to parse `text` as a JSON value; the
/// contract names the outcome as a function of the text alone.
#[verifier::external_body]
pub fn parse_json(text: &str) -> (r: Option<JsonValue>)
    ensures
        r == json_parse(text@),
{
    serde_json::from_str::<serde_json::Value>(text).ok().map(|v| json_from_serde(&v))
}

/// `v` is an object whose members are, in order, exactly `fields`, each a
/// string value.
pub open spec fn is_string_object(v: JsonValue, fields: Seq<(Seq<char>, Seq<char>)>) -> bool {
    match v {
        JsonValue::Object(m) => {
            &&& m@.len() == fields.len()
            &&& forall|i: int|
                0 <= i < fields.len() ==> (#[trigger] m@[i]).key@ == fields[i].0 && as_str_spec(
                    m@[i].value,
                ) == Some(fields[i].1)
        },
        _ => false,
    }
}

pub open spec fn pairs_view(p: Seq<(&str, &str)>) -> Seq<(Seq<char>, Seq<char>)> {
    p.map_values(|x: (&str, &str)| (x.0@, x.1@))
}

/// An object of string members, in the order given.
pub fn string_object(fields: &[(&str, &str)]) -> (r: JsonValue)
    ensures
        is_string_object(r, pairs_view(fields@)),
{
    let mut m: Vec<JsonMember> = Vec::new();
    let n = fields.len();
    let mut i: usize = 0;
    while i < n
        invariant
            n == fields@.len(),
            i <= n,
            m@.len() == i,
            forall|j: int|
                0 <= j < i ==> (#[trigger] m@[j]).key@ == pairs_view(fields@)[j].0 && as_str_spec(
                    m@[j].value,
                ) == Some(pairs_view(fields@)[j].1),
        decreases n - i,
    {
        let (k, v) = fields[i];
        m.push(member(k, JsonValue::string(v)));
        i = i + 1;
    }
    JsonValue::Object(m)
}

} // verus!
