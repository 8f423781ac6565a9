//! JSON documents as plain values.
//!
//! Remote listings (version indexes, release descriptions) arrive as JSON
//! text; `serde_json` parses them and the result is carried as a
//! [`JsonValue`] so the extraction logic is verified over plain values.

use vstd::prelude::*;

use crate::text::str_eq;

verus! {

#[verifier::external_type_specification]
#[verifier::external_body]
pub struct ExSerdeJsonValue(serde_json::Value);

/// A JSON value.
#[derive(Debug)]
pub enum JsonValue {
    /// `null`.
    Null,
    /// `true` or `false`.
    Bool(bool),
    /// A number, as `serde_json` writes it.
    Number(String),
    /// A string.
    Str(String),
    /// An array.
    Array(Vec<JsonValue>),
    /// An object's members, in the order `serde_json` keeps them.
    Object(Vec<(String, JsonValue)>),
}

/// A JSON value as plain values.
pub ghost enum Json {
    Null,
    Bool(bool),
    Number(Seq<char>),
    Str(Seq<char>),
    Array(Seq<Json>),
    Object(Seq<(Seq<char>, Json)>),
}

/// The plain value of a JSON value.
pub open spec fn json_view(v: JsonValue) -> Json
    decreases v,
{
    match v {
        JsonValue::Null => Json::Null,
        JsonValue::Bool(b) => Json::Bool(b),
        JsonValue::Number(n) => Json::Number(n@),
        JsonValue::Str(s) => Json::Str(s@),
        JsonValue::Array(a) => Json::Array(
            Seq::new(
                a@.len(),
                |i: int|
                    if 0 <= i < a@.len() {
                        json_view(a@[i])
                    } else {
                        Json::Null
                    },
            ),
        ),
        JsonValue::Object(m) => Json::Object(
            Seq::new(
                m@.len(),
                |i: int|
                    if 0 <= i < m@.len() {
                        (m@[i].0@, json_view(m@[i].1))
                    } else {
                        (Seq::empty(), Json::Null)
                    },
            ),
        ),
    }
}

/// What `serde_json::from_str::<serde_json::Value>` makes of a text: the
/// document, or the text of the parse error.
pub uninterp spec fn json_parse(text: Seq<char>) -> core::result::Result<Json, Seq<char>>;

/// Carry a parsed `serde_json::Value` over as a [`JsonValue`], variant by
/// variant.
#[verifier::external_body]
fn json_from(v: serde_json::Value) -> JsonValue {
    match v {
        serde_json::Value::Null => JsonValue::Null,
        serde_json::Value::Bool(b) => JsonValue::Bool(b),
        serde_json::Value::Number(n) => JsonValue::Number(n.to_string()),
        serde_json::Value::String(s) => JsonValue::Str(s),
        serde_json::Value::Array(a) => JsonValue::Array(a.into_iter().map(json_from).collect()),
        serde_json::Value::Object(m) => JsonValue::Object(
            m.into_iter().map(|(k, v)| (k, json_from(v))).collect(),
        ),
    }
}

/// Parse a JSON text with `serde_json::from_str`; the contract names the
/// result.
#[verifier::external_body]
pub fn parse_json(text: &str) -> (r: core::result::Result<JsonValue, String>)
    ensures
        match r {
            Ok(v) => json_parse(text@) == Ok::<Json, Seq<char>>(json_view(v)),
            Err(e) => json_parse(text@) == Err::<Json, Seq<char>>(e@),
        },
{
    serde_json::from_str::<serde_json::Value>(text).map(json_from).map_err(|e| e.to_string())
}

/// The value of an object's member, if the value is an object that has it.
pub open spec fn member(j: Json, key: Seq<char>) -> Option<Json> {
    match j {
        Json::Object(m) => member_of(m, key),
        _ => None,
    }
}

/// The first member named `key`.
pub open spec fn member_of(m: Seq<(Seq<char>, Json)>, key: Seq<char>) -> Option<Json>
    decreases m.len(),
{
    if m.len() == 0 {
        None
    } else if m[0].0 == key {
        Some(m[0].1)
    } else {
        member_of(m.drop_first(), key)
    }
}

proof fn lemma_object_view(v: JsonValue)
    requires
        v is Object,
    ensures
        json_view(v) matches Json::Object(mv) && mv.len() == v->Object_0@.len() && forall|i: int|
            0 <= i < v->Object_0@.len() ==> #[trigger] mv[i] == (
                v->Object_0@[i].0@,
                json_view(v->Object_0@[i].1),
            ),
{
}

impl JsonValue {
    /// The value of an object's member `key`; `None` for a non-object or a
    /// missing member.
    pub fn get(&self, key: &str) -> (r: Option<&JsonValue>)
        ensures
            match r {
                Some(v) => member(json_view(*self), key@) == Some(json_view(*v)),
                None => member(json_view(*self), key@) is None,
            },
    {
        match self {
            JsonValue::Object(m) => {
                proof {
                    lemma_object_view(*self);
                }
                let ghost mv = json_view(*self)->Object_0;
                assert(mv.skip(0) =~= mv);
                assert(member(json_view(*self), key@) == member_of(mv, key@));
                let mut i: usize = 0;
                while i < m.len()
                    invariant
                        i <= m@.len(),
                        mv.len() == m@.len(),
                        forall|k: int| 0 <= k < m@.len() ==> #[trigger] mv[k] == (m@[k].0@, json_view(m@[k].1)),
                        member_of(mv, key@) == member_of(mv.skip(i as int), key@),
                        member(json_view(*self), key@) == member_of(mv, key@),
                    decreases m@.len() - i,
                {
                    assert(mv.skip(i as int)[0] == mv[i as int]);
                    if str_eq(m[i].0.as_str(), key) {
                        assert(mv[i as int] == (m@[i as int].0@, json_view(m@[i as int].1)));
                        return Some(&m[i].1);
                    }
                    assert(mv.skip(i as int).drop_first() =~= mv.skip(i + 1));
                    i = i + 1;
                }
                None
            },
            _ => None,
        }
    }

    /// The text of a string value.
    pub fn as_str(&self) -> (r: Option<&str>)
        ensures
            match json_view(*self) {
                Json::Str(s) => r matches Some(x) && x@ == s,
                _ => r is None,
            },
    {
        match self {
            JsonValue::Str(s) => Some(s.as_str()),
            _ => None,
        }
    }
}

} // verus!
