//! A JSON document model and the parse of a text frame into it.

use vstd::prelude::*;

use crate::text::{first_index, lemma_first_index_unique};

verus! {

#[verifier::external_type_specification]
#[verifier::external_body]
pub struct ExJsonValue(serde_json::Value);

/// A JSON value as the parser hands it over: a number as the decimal text
/// the parser writes for it, an object as its members in the parser's
/// order (by name, one member per name, the last of a repeated name).
pub enum Json {
    Null,
    Bool(bool),
    Number(String),
    Str(String),
    Array(Vec<Json>),
    Object(Vec<(String, Json)>),
}

/// The JSON document a text denotes, or `None` when the text is not JSON.
pub uninterp spec fn parsed_json(text: Seq<char>) -> Option<Json>;

/// Calls `serde_json::from_str::<serde_json::Value>`; text that does not
/// parse gives `None`. The parsed value is converted node for node into
/// [`Json`]. The result depends on the text alone.
#[verifier::external_body]
fn parse_json(raw: &str) -> (r: Option<Json>)
    ensures
        r == parsed_json(raw@),
{
    serde_json::from_str::<serde_json::Value>(raw).ok().map(json_of_value)
}

/// Converts a `serde_json::Value` into [`Json`], one node for one node.
#[verifier::external_body]
fn json_of_value(v: serde_json::Value) -> Json {
    match v {
        serde_json::Value::Null => Json::Null,
        serde_json::Value::Bool(b) => Json::Bool(b),
        serde_json::Value::Number(n) => Json::Number(n.to_string()),
        serde_json::Value::String(s) => Json::Str(s),
        serde_json::Value::Array(a) => Json::Array(a.into_iter().map(json_of_value).collect()),
        serde_json::Value::Object(m) => Json::Object(
            m.into_iter().map(|(k, x)| (k, json_of_value(x))).collect(),
        ),
    }
}

/// The member names of an object, in order.
pub open spec fn member_keys(fields: Seq<(String, Json)>) -> Seq<Seq<char>> {
    fields.map_values(|f: (String, Json)| f.0@)
}

/// The member `key` of an object (the first one of that name); `None` for
/// a missing member or a value that is not an object.
pub open spec fn json_get(v: Json, key: Seq<char>) -> Option<Json> {
    match v {
        Json::Object(fields) => {
            let i = first_index(member_keys(fields@), key);
            if i < fields@.len() {
                Some(fields@[i].1)
            } else {
                None
            }
        },
        _ => None,
    }
}

/// The text of a string value.
pub open spec fn json_text(v: Json) -> Option<Seq<char>> {
    match v {
        Json::Str(s) => Some(s@),
        _ => None,
    }
}

/// The elements of an array value.
pub open spec fn json_items(v: Json) -> Option<Seq<Json>> {
    match v {
        Json::Array(a) => Some(a@),
        _ => None,
    }
}

/// The text of string member `key` of an object.
pub open spec fn text_member(v: Json, key: Seq<char>) -> Option<Seq<char>> {
    match json_get(v, key) {
        Some(m) => json_text(m),
        None => None,
    }
}

/// Both texts of a pair, or `None` when either is missing.
pub open spec fn both(a: Option<Seq<char>>, b: Option<Seq<char>>) -> Option<(Seq<char>, Seq<char>)> {
    match (a, b) {
        (Some(x), Some(y)) => Some((x, y)),
        _ => None,
    }
}

/// The view of a pair of texts.
pub open spec fn text_pair(r: Option<(String, String)>) -> Option<(Seq<char>, Seq<char>)> {
    match r {
        Some(p) => Some((p.0@, p.1@)),
        None => None,
    }
}

impl Json {
    /// The member `key` of an object (the first one of that name); `None`
    /// for a missing member or a value that is not an object.
    pub fn get(&self, key: &str) -> (r: Option<&Json>)
        ensures
            match r {
                Some(m) => json_get(*self, key@) == Some(*m),
                None => json_get(*self, key@) is None,
            },
    {
        match self {
            Json::Object(fields) => {
                let ghost keys = member_keys(fields@);
                let k = key.to_owned();
                let mut i: usize = 0;
                while i < fields.len()
                    invariant
                        i <= fields.len(),
                        keys == member_keys(fields@),
                        keys.len() == fields@.len(),
                        k@ == key@,
                        *self == Json::Object(*fields),
                        forall|j: int| 0 <= j < i ==> #[trigger] keys[j] != key@,
                    decreases fields.len() - i,
                {
                    if fields[i].0 == k {
                        proof {
                            assert(keys[i as int] == fields@[i as int].0@);
                            lemma_first_index_unique(keys, key@, i as int);
                            assert(first_index(member_keys(fields@), key@) == i as int);
                            assert(json_get(*self, key@) == Some(fields@[i as int].1));
                        }
                        return Some(&fields[i].1);
                    }
                    assert(keys[i as int] == fields@[i as int].0@);
                    i = i + 1;
                }
                proof {
                    lemma_first_index_unique(keys, key@, i as int);
                }
                None
            },
            _ => None,
        }
    }

    /// The text of a string value.
    pub fn as_str(&self) -> (r: Option<&String>)
        ensures
            match r {
                Some(s) => json_text(*self) == Some(s@),
                None => json_text(*self) is None,
            },
    {
        match self {
            Json::Str(s) => Some(s),
            _ => None,
        }
    }

    /// The elements of an array value.
    pub fn as_array(&self) -> (r: Option<&Vec<Json>>)
        ensures
            match r {
                Some(a) => json_items(*self) == Some(a@),
                None => json_items(*self) is None,
            },
    {
        match self {
            Json::Array(a) => Some(a),
            _ => None,
        }
    }

    pub fn is_object(&self) -> (b: bool)
        ensures
            b == (*self is Object),
    {
        match self {
            Json::Object(_) => true,
            _ => false,
        }
    }
}

/// The text of string member `key` of an object.
pub fn text_member_of(v: &Json, key: &str) -> (r: Option<String>)
    ensures
        match r {
            Some(s) => text_member(*v, key@) == Some(s@),
            None => text_member(*v, key@) is None,
        },
{
    match v.get(key) {
        Some(m) => match m.as_str() {
            Some(s) => Some(s.clone()),
            None => None,
        },
        None => None,
    }
}

/// Parses a text frame as JSON.
pub fn read_json(raw: &str) -> (r: Option<Json>)
    ensures
        r == parsed_json(raw@),
{
    parse_json(raw)
}

} // verus!
