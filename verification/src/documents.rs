//! TOML and JSON documents, as the `toml` and `serde_json` crates read them.

use vstd::prelude::*;

use crate::text::texts;
use crate::tree::{member, Node, Tree};

verus! {

/// A value of the `toml` crate.
#[verifier::external_type_specification]
#[verifier::external_body]
pub struct TomlValue(toml::Value);

/// A value of the `serde_json` crate.
#[verifier::external_type_specification]
#[verifier::external_body]
pub struct JsonValue(serde_json::Value);

/// What a TOML value holds.
pub uninterp spec fn toml_contents(value: toml::Value) -> Node;

/// What a JSON value holds.
pub uninterp spec fn json_contents(value: serde_json::Value) -> Node;

/// What the `toml` crate reads in a text: a document, or the text of its error.
pub uninterp spec fn toml_document(text: Seq<char>) -> Result<Node, Seq<char>>;

/// What the `serde_json` crate reads in bytes: a document, or the text of its error.
pub uninterp spec fn json_document(bytes: Seq<u8>) -> Result<Node, Seq<char>>;

/// The text of a list of strings as the `toml` crate writes it.
pub uninterp spec fn toml_list(items: Seq<Seq<char>>) -> Seq<char>;

/// The text of a JSON value as the `serde_json` crate writes it.
pub uninterp spec fn json_text(value: Node) -> Seq<char>;

/// `str::parse` for `toml::Value`: reads a document. What it reads, and the text of its error, are
/// functions of the text.
#[verifier::external_body]
fn toml_value(text: &str) -> (result: Result<toml::Value, String>)
    ensures
        match result {
            Ok(value) => toml_document(text@) == Ok::<Node, Seq<char>>(toml_contents(value)),
            Err(fault) => toml_document(text@) == Err::<Node, Seq<char>>(fault@),
        },
{
    match text.parse::<toml::Value>() {
        Ok(value) => Ok(value),
        Err(error) => Err(error.to_string()),
    }
}

/// The variants of `toml::Value`: hands out what a value holds. Its tables walk their entries in the
/// order of their names; of numbers, dates and truth values nothing is kept.
#[verifier::external_body]
fn toml_tree(value: toml::Value) -> (tree: Tree)
    ensures
        tree@ == toml_contents(value),
{
    match value {
        toml::Value::String(text) => Tree::Text(text),
        toml::Value::Array(items) => Tree::List(items.into_iter().map(toml_tree).collect()),
        toml::Value::Table(table) => {
            Tree::Table(table.into_iter().map(|(name, value)| (name, toml_tree(value))).collect())
        },
        toml::Value::Integer(_) => Tree::Other,
        toml::Value::Float(_) => Tree::Other,
        toml::Value::Boolean(_) => Tree::Other,
        toml::Value::Datetime(_) => Tree::Other,
    }
}

/// `serde_json::from_slice`: reads a document. What it reads, and the text of its error, are
/// functions of the bytes.
#[verifier::external_body]
pub(crate) fn json_value(bytes: &[u8]) -> (result: Result<serde_json::Value, String>)
    ensures
        match result {
            Ok(value) => json_document(bytes@) == Ok::<Node, Seq<char>>(json_contents(value)),
            Err(fault) => json_document(bytes@) == Err::<Node, Seq<char>>(fault@),
        },
{
    match serde_json::from_slice::<serde_json::Value>(bytes) {
        Ok(value) => Ok(value),
        Err(error) => Err(error.to_string()),
    }
}

/// The variants of `serde_json::Value`: hands out what a value holds, of a number what
/// `Number::as_u64` gives and its `Display`.
#[verifier::external_body]
pub(crate) fn json_tree(value: &serde_json::Value) -> (tree: Tree)
    ensures
        tree@ == json_contents(*value),
{
    match value {
        serde_json::Value::Null => Tree::Null,
        serde_json::Value::Bool(flag) => Tree::Flag(*flag),
        serde_json::Value::Number(number) => Tree::Number(number.as_u64(), number.to_string()),
        serde_json::Value::String(text) => Tree::Text(text.clone()),
        serde_json::Value::Array(items) => Tree::List(items.iter().map(json_tree).collect()),
        serde_json::Value::Object(entries) => {
            Tree::Table(entries.iter().map(|(n, v)| (n.clone(), json_tree(v))).collect())
        },
    }
}

/// `serde_json::Value::get` with a name: the member of that name, where the value is an object that
/// has it.
#[verifier::external_body]
pub(crate) fn json_member<'a>(value: &'a serde_json::Value, key: &str) -> (found: Option<
    &'a serde_json::Value,
>)
    ensures
        match found {
            Some(found) => member(json_contents(*value), key@) == Some(json_contents(*found)),
            None => member(json_contents(*value), key@) is None,
        },
{
    value.get(key)
}

/// The `Display` of `serde_json::Value`: a function of what the value holds.
#[verifier::external_body]
pub(crate) fn write_json(value: &serde_json::Value) -> (text: String)
    ensures
        text@ == json_text(json_contents(*value)),
{
    value.to_string()
}

/// The `Display` of `toml::Value` for an array of strings: a function of the strings.
#[verifier::external_body]
pub(crate) fn toml_list_text(items: Vec<String>) -> (text: String)
    ensures
        text@ == toml_list(texts(items@)),
{
    toml::Value::Array(items.into_iter().map(toml::Value::String).collect()).to_string()
}

/// A result of reading as the names of this module give it.
pub open spec fn document(result: Result<Tree, String>) -> Result<Node, Seq<char>> {
    match result {
        Ok(tree) => Ok(tree@),
        Err(fault) => Err(fault@),
    }
}

/// Reads a TOML document.
pub fn parse_toml(text: &str) -> (result: Result<Tree, String>)
    ensures
        document(result) == toml_document(text@),
{
    match toml_value(text) {
        Ok(value) => Ok(toml_tree(value)),
        Err(fault) => Err(fault),
    }
}

/// Reads a JSON document.
pub fn parse_json(bytes: &[u8]) -> (result: Result<Tree, String>)
    ensures
        document(result) == json_document(bytes@),
{
    match json_value(bytes) {
        Ok(value) => Ok(json_tree(&value)),
        Err(fault) => Err(fault),
    }
}

} // verus!
