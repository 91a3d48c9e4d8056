//! JSON documents, parsed by the `json` crate and kept as trees of the
//! library's own.

use crate::keys::key_order;
use crate::keys::KeyOrder;
use json::JsonValue;
use vstd::prelude::*;

verus! {

/// `json::JsonValue`, a value as the parser hands it out.
#[verifier::external_type_specification]
#[verifier::external_body]
pub struct ExJsonValue(JsonValue);

/// `json::Error`, the error of the parser.
#[verifier::external_type_specification]
#[verifier::external_body]
pub struct ExJsonError(json::Error);

/// A JSON value. A text is `Short` or `String` as the parser stores it; a
/// number holds its value as a `u32` if it has one.
#[derive(Debug)]
pub enum Json {
    Null,
    Short(String),
    String(String),
    Number(Option<u32>),
    Boolean(bool),
    Object(Vec<JsonMember>),
    Array(Vec<Json>),
}

/// A member of a JSON object.
#[derive(Debug)]
pub struct JsonMember {
    pub name: String,
    pub value: Json,
}

/// The document that a text is, if it is JSON.
pub uninterp spec fn json_text(text: Seq<char>) -> Option<Json>;

/// What a parsed value holds.
pub uninterp spec fn json_content(v: JsonValue) -> Json;

/// `json::parse`: the value that the text denotes, or the parser's error.
#[verifier::external_body]
pub(crate) fn json_parse(text: &str) -> (r: Result<JsonValue, json::Error>)
    ensures
        match r {
            Ok(v) => json_text(text@) == Some(json_content(v)),
            Err(_) => json_text(text@) is None,
        },
{
    json::parse(text)
}

/// Copies a parsed `JsonValue`, level by level, one variant to one
/// variant. Of a number it keeps what `JsonValue::as_u32` gives; the
/// members of an object come in the order of `Object::iter`.
#[verifier::external_body]
pub(crate) fn json_tree(v: &JsonValue) -> (j: Json)
    ensures
        j == json_content(*v),
{
    match v {
        JsonValue::Null => Json::Null,
        JsonValue::Short(s) => Json::Short(s.to_string()),
        JsonValue::String(s) => Json::String(s.clone()),
        JsonValue::Number(_) => Json::Number(v.as_u32()),
        JsonValue::Boolean(b) => Json::Boolean(*b),
        JsonValue::Object(o) => Json::Object(
            o.iter().map(|(k, x)| JsonMember { name: k.to_string(), value: json_tree(x) }).collect(),
        ),
        JsonValue::Array(a) => Json::Array(a.iter().map(json_tree).collect()),
    }
}

/// `Display` of `json::Error`: the parser's description of an error.
/// Nothing is claimed of the text.
#[verifier::external_body]
pub(crate) fn json_error_text(e: &json::Error) -> (s: String) {
    e.to_string()
}

/// The first place from `i` on of a member with the given name, or -1.
pub open spec fn member_from(members: Seq<JsonMember>, key: Seq<char>, i: int) -> int
    decreases members.len() - i,
{
    if i < 0 || i >= members.len() {
        -1
    } else if members[i].name@ == key {
        i
    } else {
        member_from(members, key, i + 1)
    }
}

/// `member_from` gives a place in the sequence, of a member with the given
/// name, or -1.
pub proof fn lemma_member_from(members: Seq<JsonMember>, key: Seq<char>, i: int)
    requires
        0 <= i,
    ensures
        member_from(members, key, i) == -1 || (i <= member_from(members, key, i) < members.len()
            && members[member_from(members, key, i)].name@ == key),
    decreases members.len() - i,
{
    if i < members.len() && members[i].name@ != key {
        lemma_member_from(members, key, i + 1);
    }
}

impl Json {
    /// The members of an object; none for any other value.
    pub open spec fn members(self) -> Seq<JsonMember> {
        match self {
            Json::Object(m) => m@,
            _ => Seq::empty(),
        }
    }

    /// The items of an array; none for any other value.
    pub open spec fn items(self) -> Seq<Json> {
        match self {
            Json::Array(a) => a@,
            _ => Seq::empty(),
        }
    }

    /// Whether the value is a text.
    pub open spec fn is_text(self) -> bool {
        self is Short || self is String
    }

    /// The text of a text.
    pub open spec fn text(self) -> Seq<char> {
        match self {
            Json::Short(s) => s@,
            Json::String(s) => s@,
            _ => Seq::empty(),
        }
    }

    /// The `u32` that a number is, if the value is a number and fits.
    pub open spec fn number(self) -> Option<u32> {
        match self {
            Json::Number(n) => n,
            _ => None,
        }
    }

    /// The place of the member with the given name, or -1.
    pub open spec fn find(self, key: Seq<char>) -> int {
        member_from(self.members(), key, 0)
    }

    /// Whether an object has a member with the given name.
    pub open spec fn has(self, key: Seq<char>) -> bool {
        self.find(key) >= 0
    }

    /// The value of the member with the given name; `Null` where the
    /// value is no object or has no such member.
    pub open spec fn at(self, key: Seq<char>) -> Json {
        if 0 <= self.find(key) < self.members().len() {
            self.members()[self.find(key)].value
        } else {
            Json::Null
        }
    }

    /// The value of the member with the given name, if the value is an
    /// object and has one.
    pub fn get(&self, key: &str) -> (r: Option<&Json>)
        ensures
            match r {
                Some(v) => self.has(key@) && *v == self.at(key@),
                None => !self.has(key@),
            },
    {
        match self {
            Json::Object(members) => {
                let mut i: usize = 0;
                while i < members.len()
                    invariant
                        i <= members@.len(),
                        self.members() == members@,
                        member_from(members@, key@, 0) == member_from(members@, key@, i as int),
                    decreases members@.len() - i,
                {
                    match key_order(members[i].name.as_str(), key) {
                        KeyOrder::Same => {
                            return Some(&members[i].value);
                        },
                        _ => {},
                    }
                    i = i + 1;
                }
                None
            },
            _ => None,
        }
    }

    /// The `u32` that a number is.
    pub fn as_u32(&self) -> (r: Option<u32>)
        ensures
            r == self.number(),
    {
        match self {
            Json::Number(n) => *n,
            _ => None,
        }
    }

    /// The text of a text.
    pub fn as_str(&self) -> (r: Option<&String>)
        ensures
            match r {
                Some(s) => self.is_text() && s@ == self.text(),
                None => !self.is_text(),
            },
    {
        match self {
            Json::Short(s) => Some(s),
            Json::String(s) => Some(s),
            _ => None,
        }
    }
}

} // verus!
