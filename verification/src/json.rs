//! JSON documents as plain data. Parsing and string quoting are done by
//! `serde_json`; everything that reads a document works on [`JsonValue`].

use vstd::prelude::*;

verus! {

/// One member of a JSON object.
#[derive(Debug, PartialEq, Eq)]
pub struct JsonMember {
    pub key: String,
    pub value: JsonValue,
}

/// A JSON document. Numbers are kept as the text that `serde_json` prints
/// for them; the members of an object come in the order in which
/// `serde_json` walks its map.
#[derive(Debug, PartialEq, Eq)]
pub enum JsonValue {
    Null,
    Bool(bool),
    Number(String),
    Text(String),
    Array(Vec<JsonValue>),
    Object(Vec<JsonMember>),
}

/// `serde_json::Value`, the parser's own representation of a document. It
/// is only ever handed from the parser to [`from_serde`].
#[verifier::external_type_specification]
#[verifier::external_body]
pub struct ExSerdeValue(serde_json::Value);

/// The document that `serde_json` reads from `text`, or `None` where it
/// rejects the text. A function of the text alone; the grammar is not
/// restated here.
pub uninterp spec fn json_document(text: Seq<char>) -> Option<JsonValue>;

/// The JSON string literal that `serde_json` prints for `text`: the text
/// between double quotes, with the escapes that JSON requires.
pub uninterp spec fn json_quoted(text: Seq<char>) -> Seq<char>;

/// Moves a `serde_json::Value` into a [`JsonValue`], variant by variant.
#[verifier::external_body]
fn from_serde(value: serde_json::Value) -> JsonValue {
    match value {
        serde_json::Value::Null => JsonValue::Null,
        serde_json::Value::Bool(b) => JsonValue::Bool(b),
        serde_json::Value::Number(n) => JsonValue::Number(n.to_string()),
        serde_json::Value::String(s) => JsonValue::Text(s),
        serde_json::Value::Array(items) => JsonValue::Array(
            items.into_iter().map(from_serde).collect(),
        ),
        serde_json::Value::Object(map) => JsonValue::Object(
            map.into_iter().map(|(key, v)| JsonMember { key, value: from_serde(v) }).collect(),
        ),
    }
}

/// `serde_json::from_str` at the type `serde_json::Value`: parses `text` as
/// one JSON document. The result is the document named by
/// [`json_document`], `None` standing for every parse error.
#[verifier::external_body]
pub(crate) fn parse_json(text: &str) -> (doc: Option<JsonValue>)
    ensures
        doc == json_document(text@),
{
    serde_json::from_str::<serde_json::Value>(text).ok().map(from_serde)
}

/// The `Display` form of `serde_json::Value::String`: `text` as a JSON
/// string literal, named by [`json_quoted`].
#[verifier::external_body]
pub(crate) fn quote_json(text: &str) -> (quoted: String)
    ensures
        quoted@ == json_quoted(text@),
{
    serde_json::Value::String(text.to_owned()).to_string()
}

impl JsonValue {
    /// The member of an object that is filed under `key`: the first such
    /// member, or `None` where there is none or `self` is no object.
    pub open spec fn spec_member(self, key: Seq<char>) -> Option<JsonValue> {
        match self {
            JsonValue::Object(members) => first_with_key(members@, key),
            _ => None,
        }
    }

    /// The element of an array at `index`, or `None` where the array is
    /// shorter or `self` is no array.
    pub open spec fn spec_element(self, index: int) -> Option<JsonValue> {
        match self {
            JsonValue::Array(items) => if 0 <= index < items@.len() {
                Some(items@[index])
            } else {
                None
            },
            _ => None,
        }
    }

    /// The characters of a JSON string, or `None` where `self` is no string.
    pub open spec fn spec_text(self) -> Option<Seq<char>> {
        match self {
            JsonValue::Text(s) => Some(s@),
            _ => None,
        }
    }

    /// Looks up the member filed under `key`.
    pub fn member(&self, key: &str) -> (r: Option<&JsonValue>)
        ensures
            match r {
                Some(v) => self.spec_member(key@) == Some(*v),
                None => self.spec_member(key@) is None,
            },
    {
        match self {
            JsonValue::Object(members) => find_member(members, key),
            _ => None,
        }
    }

    /// Looks up the element at `index`.
    pub fn element(&self, index: usize) -> (r: Option<&JsonValue>)
        ensures
            match r {
                Some(v) => self.spec_element(index as int) == Some(*v),
                None => self.spec_element(index as int) is None,
            },
    {
        match self {
            JsonValue::Array(items) => if index < items.len() {
                Some(&items[index])
            } else {
                None
            },
            _ => None,
        }
    }

    /// The text of a JSON string.
    pub fn as_text(&self) -> (r: Option<&String>)
        ensures
            match r {
                Some(s) => self.spec_text() == Some(s@),
                None => self.spec_text() is None,
            },
    {
        match self {
            JsonValue::Text(s) => Some(s),
            _ => None,
        }
    }
}

/// The value of the first member of `members` whose key is `key`.
pub open spec fn first_with_key(members: Seq<JsonMember>, key: Seq<char>) -> Option<JsonValue>
    decreases members.len(),
{
    if members.len() == 0 {
        None
    } else if members[0].key@ == key {
        Some(members[0].value)
    } else {
        first_with_key(members.drop_first(), key)
    }
}

/// The value of the first member of `members` filed under `key`.
pub fn find_member<'a>(members: &'a Vec<JsonMember>, key: &str) -> (r: Option<&'a JsonValue>)
    ensures
        match r {
            Some(v) => first_with_key(members@, key@) == Some(*v),
            None => first_with_key(members@, key@) is None,
        },
{
    let wanted = key.to_owned();
    let mut i: usize = 0;
    assert(members@.skip(0) == members@);
    while i < members.len()
        invariant
            i <= members@.len(),
            wanted@ == key@,
            first_with_key(members@, key@) == first_with_key(members@.skip(i as int), key@),
        decreases members@.len() - i,
    {
        proof {
            let rest = members@.skip(i as int);
            assert(rest[0] == members@[i as int]);
            assert(rest.drop_first() == members@.skip(i + 1));
        }
        if members[i].key == wanted {
            return Some(&members[i].value);
        }
        i = i + 1;
    }
    None
}

} // verus!
