//! TOML documents, as the `toml` crate reads them.

use crate::text;
use vstd::prelude::*;

verus! {

/// What a TOML value holds, as far as this library looks at it.
pub enum TomlTree {
    /// A string.
    Text(Seq<char>),
    /// An array.
    List(Seq<TomlTree>),
    /// A table.
    Table(Map<Seq<char>, TomlTree>),
    /// An integer, a float, a boolean or a date.
    Other,
}

impl TomlTree {
    /// The value under `key`, when this is a table that has one.
    pub open spec fn entry(self, key: Seq<char>) -> Option<TomlTree> {
        match self {
            TomlTree::Table(entries) => if entries.contains_key(key) {
                Some(entries[key])
            } else {
                None
            },
            _ => None,
        }
    }

    /// The string under `key`, when this is a table that has one.
    pub open spec fn text_entry(self, key: Seq<char>) -> Option<Seq<char>> {
        match self.entry(key) {
            Some(TomlTree::Text(s)) => Some(s),
            _ => None,
        }
    }
}

/// A key that TOML takes without quotes.
pub open spec fn is_bare_key(name: Seq<char>) -> bool {
    name.len() > 0 && forall|i: int|
        0 <= i < name.len() ==> {
            let c = #[trigger] name[i];
            'a' <= c <= 'z' || 'A' <= c <= 'Z' || '0' <= c <= '9' || c == '-' || c == '_'
        }
}

/// The fields as TOML, a line for each, with its text as a basic string.
pub open spec fn field_lines(fields: Seq<(Seq<char>, Seq<char>)>) -> Seq<char>
    decreases fields.len(),
{
    if fields.len() == 0 {
        seq![]
    } else {
        field_lines(fields.drop_last()) + fields.last().0 + " = "@ + text::quoted(fields.last().1)
            + "\n"@
    }
}

/// The fields as a table.
pub open spec fn field_table(fields: Seq<(Seq<char>, Seq<char>)>) -> Map<Seq<char>, TomlTree>
    decreases fields.len(),
{
    if fields.len() == 0 {
        Map::empty()
    } else {
        field_table(fields.drop_last()).insert(fields.last().0, TomlTree::Text(fields.last().1))
    }
}

/// Fields that a table can hold: each under a bare key of its own, each a text of printable
/// ASCII.
pub open spec fn are_fields(fields: Seq<(Seq<char>, Seq<char>)>) -> bool {
    &&& forall|i: int|
        0 <= i < fields.len() ==> is_bare_key((#[trigger] fields[i]).0) && text::is_plain(
            fields[i].1,
        )
    &&& forall|i: int, j: int|
        0 <= i < j < fields.len() ==> (#[trigger] fields[i]).0 != (#[trigger] fields[j]).0
}

/// A document that holds one element of the array of tables `table.list`.
pub open spec fn stanza(
    table: Seq<char>,
    list: Seq<char>,
    fields: Seq<(Seq<char>, Seq<char>)>,
) -> Seq<char> {
    "[["@ + table + "."@ + list + "]]\n"@ + field_lines(fields)
}

/// What such a document says.
pub open spec fn stanza_tree(
    table: Seq<char>,
    list: Seq<char>,
    fields: Seq<(Seq<char>, Seq<char>)>,
) -> TomlTree {
    let element = TomlTree::Table(field_table(fields));
    let inner = Map::<Seq<char>, TomlTree>::empty().insert(list, TomlTree::List(seq![element]));
    TomlTree::Table(Map::<Seq<char>, TomlTree>::empty().insert(table, TomlTree::Table(inner)))
}

/// A value of the `toml` crate.
#[verifier::external_type_specification]
#[verifier::external_body]
pub struct ExTomlValue(toml::Value);

/// What a value of the `toml` crate holds.
pub uninterp spec fn toml_tree(v: toml::Value) -> TomlTree;

/// What `toml::from_str` makes of a document: the table it describes, or the reason why it
/// is no TOML.
pub uninterp spec fn toml_document(text: Seq<char>) -> Result<TomlTree, Seq<char>>;

/// `toml::from_str` into a `toml::Value`: reads a whole document. The value, or the text
/// of the error, depends on the document alone; which documents are TOML is the crate's
/// business and is named, not spelled out. One kind of document is: an array of tables with
/// a single element, whose fields are basic strings of printable ASCII, reads as just that.
#[verifier::external_body]
pub(crate) fn parse_toml(text: &str) -> (r: Result<toml::Value, String>)
    ensures
        match (r, toml_document(text@)) {
            (Ok(v), Ok(tree)) => toml_tree(v) == tree,
            (Err(e), Err(reason)) => e@ == reason,
            _ => false,
        },
        forall|table: Seq<char>, list: Seq<char>, fields: Seq<(Seq<char>, Seq<char>)>|
            is_bare_key(table) && is_bare_key(list) && are_fields(fields) && text@ == #[trigger]
            stanza(table, list, fields) ==> r is Ok && toml_tree(r->Ok_0) == stanza_tree(
                table,
                list,
                fields,
            ),
{
    toml::from_str::<toml::Value>(text).map_err(|e| e.to_string())
}

/// `toml::Value::get` with a string: the value under that key of a table, and nothing when
/// the value is no table or has no such key.
#[verifier::external_body]
pub(crate) fn toml_get<'a>(v: &'a toml::Value, key: &str) -> (r: Option<&'a toml::Value>)
    ensures
        match (r, toml_tree(*v).entry(key@)) {
            (Some(found), Some(tree)) => toml_tree(*found) == tree,
            (None, None) => true,
            _ => false,
        },
{
    v.get(key)
}

/// `toml::Value::as_array`: the elements of an array, and nothing for another value.
#[verifier::external_body]
pub(crate) fn toml_as_array(v: &toml::Value) -> (r: Option<&Vec<toml::Value>>)
    ensures
        match (r, toml_tree(*v)) {
            (Some(items), TomlTree::List(trees)) => items@.len() == trees.len() && forall|i: int|
                0 <= i < trees.len() ==> toml_tree(#[trigger] items@[i]) == trees[i],
            (None, TomlTree::List(_)) => false,
            (None, _) => true,
            _ => false,
        },
{
    v.as_array()
}

/// `toml::Value::as_str`: the text of a string, and nothing for another value.
#[verifier::external_body]
pub(crate) fn toml_as_str(v: &toml::Value) -> (r: Option<&str>)
    ensures
        match (r, toml_tree(*v)) {
            (Some(s), TomlTree::Text(text)) => s@ == text,
            (None, TomlTree::Text(_)) => false,
            (None, _) => true,
            _ => false,
        },
{
    v.as_str()
}

// ---------------------------------------------------------------- laws

/// What stands under a key of a table is found there, a string as its text; nothing is found
/// in what is no table.
pub proof fn law_entries(entries: Map<Seq<char>, TomlTree>, key: Seq<char>, list: Seq<TomlTree>)
    ensures
        TomlTree::Table(entries).entry(key) is Some <==> entries.contains_key(key),
        entries.contains_key(key) ==> TomlTree::Table(entries).entry(key) == Some(entries[key]),
        TomlTree::List(list).entry(key) is None,
        TomlTree::Other.entry(key) is None,
        entries.contains_key(key) ==> match entries[key] {
            TomlTree::Text(s) => TomlTree::Table(entries).text_entry(key) == Some(s),
            _ => TomlTree::Table(entries).text_entry(key) is None,
        },
{
}

} // verus!
