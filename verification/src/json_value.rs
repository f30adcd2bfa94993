//! JSON documents, as the `serde_json` crate reads them.

use vstd::prelude::*;

verus! {

/// What a JSON value holds, as far as this library looks at it.
pub enum JsonTree {
    Null,
    /// A number without a fraction or an exponent that fits into 64 bits.
    Integer(int),
    /// A string.
    Text(Seq<char>),
    /// An object.
    Object(Map<Seq<char>, JsonTree>),
    /// A boolean, another number or an array.
    Other,
}

impl JsonTree {
    /// The value under `key`, when this is an object that has one.
    pub open spec fn entry(self, key: Seq<char>) -> Option<JsonTree> {
        match self {
            JsonTree::Object(entries) => if entries.contains_key(key) {
                Some(entries[key])
            } else {
                None
            },
            _ => None,
        }
    }

    /// The string under `key`, when this is an object that has one.
    pub open spec fn text_entry(self, key: Seq<char>) -> Option<Seq<char>> {
        match self.entry(key) {
            Some(JsonTree::Text(s)) => Some(s),
            _ => None,
        }
    }

    /// The signed 64-bit integer under `key`, when this is an object that has one.
    pub open spec fn integer_entry(self, key: Seq<char>) -> Option<int> {
        match self.entry(key) {
            Some(JsonTree::Integer(n)) => if i64::MIN <= n <= i64::MAX {
                Some(n)
            } else {
                None
            },
            _ => None,
        }
    }
}

/// A value of the `serde_json` crate.
#[verifier::external_type_specification]
#[verifier::external_body]
pub struct ExJsonValue(serde_json::Value);

/// What a value of the `serde_json` crate holds.
pub uninterp spec fn json_tree(v: serde_json::Value) -> JsonTree;

/// What `serde_json::from_str` makes of a document, if it is JSON.
pub uninterp spec fn json_document(text: Seq<char>) -> Option<JsonTree>;

/// `serde_json::from_str` into a `serde_json::Value`: reads a whole document. Whether the
/// document is JSON, and which value it describes, depends on its text alone and is named,
/// not spelled out.
#[verifier::external_body]
pub(crate) fn parse_json(text: &str) -> (r: Option<serde_json::Value>)
    ensures
        match (r, json_document(text@)) {
            (Some(v), Some(tree)) => json_tree(v) == tree,
            (None, None) => true,
            _ => false,
        },
{
    serde_json::from_str::<serde_json::Value>(text).ok()
}

/// `serde_json::Value::get` with a string: the value under that key of an object, and
/// nothing when the value is no object or has no such key.
#[verifier::external_body]
pub(crate) fn json_get<'a>(v: &'a serde_json::Value, key: &str) -> (r: Option<
    &'a serde_json::Value,
>)
    ensures
        match (r, json_tree(*v).entry(key@)) {
            (Some(found), Some(tree)) => json_tree(*found) == tree,
            (None, None) => true,
            _ => false,
        },
{
    v.get(key)
}

/// `serde_json::Value::as_str`: the text of a string, and nothing for another value.
#[verifier::external_body]
pub(crate) fn json_as_str(v: &serde_json::Value) -> (r: Option<&str>)
    ensures
        match (r, json_tree(*v)) {
            (Some(s), JsonTree::Text(text)) => s@ == text,
            (None, JsonTree::Text(_)) => false,
            (None, _) => true,
            _ => false,
        },
{
    v.as_str()
}

/// `serde_json::Value::as_i64`: an integer that fits into a signed 64-bit one, and nothing
/// for another value.
#[verifier::external_body]
pub(crate) fn json_as_i64(v: &serde_json::Value) -> (r: Option<i64>)
    ensures
        match (r, json_tree(*v)) {
            (Some(i), JsonTree::Integer(n)) => i == n,
            (None, JsonTree::Integer(n)) => !(i64::MIN <= n <= i64::MAX),
            (None, _) => true,
            _ => false,
        },
{
    v.as_i64()
}

/// `serde_json::Value::clone`: a value that holds the same.
#[verifier::external_body]
pub(crate) fn json_clone(v: &serde_json::Value) -> (r: serde_json::Value)
    ensures
        json_tree(r) == json_tree(*v),
{
    v.clone()
}

/// `serde_json::Value::default`: null.
#[verifier::external_body]
pub(crate) fn json_null() -> (r: serde_json::Value)
    ensures
        json_tree(r) == JsonTree::Null,
{
    serde_json::Value::default()
}

// ---------------------------------------------------------------- laws

/// What stands under a key of an object is found there, a string as its text and an integer
/// of 64 bits as its value; nothing is found in what is no object.
pub proof fn law_entries(entries: Map<Seq<char>, JsonTree>, key: Seq<char>)
    ensures
        JsonTree::Object(entries).entry(key) is Some <==> entries.contains_key(key),
        entries.contains_key(key) ==> JsonTree::Object(entries).entry(key) == Some(entries[key]),
        JsonTree::Null.entry(key) is None,
        JsonTree::Other.entry(key) is None,
        entries.contains_key(key) ==> match entries[key] {
            JsonTree::Text(s) => JsonTree::Object(entries).text_entry(key) == Some(s),
            _ => JsonTree::Object(entries).text_entry(key) is None,
        },
        entries.contains_key(key) ==> match entries[key] {
            JsonTree::Integer(n) => -0x8000_0000_0000_0000 <= n <= 0x7fff_ffff_ffff_ffff
                ==> JsonTree::Object(entries).integer_entry(key) == Some(n),
            _ => JsonTree::Object(entries).integer_entry(key) is None,
        },
{
}

} // verus!
