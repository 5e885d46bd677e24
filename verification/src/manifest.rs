//! Manifest documents, as the `toml` crate holds them.
//!
//! A document and every value in it is a `toml::Value`, which is opaque
//! here. What a value holds, what a text denotes and how a document is
//! written are named by functions without a body, and the items below say
//! of each call into the crate how its result reads in those names. None of
//! them is proved: they restate the crate's source.

use vstd::prelude::*;
use crate::error::DepError;
use crate::text::string_views;

verus! {

/// A value of a TOML document.
#[verifier::external_type_specification]
#[verifier::external_body]
pub struct ExTomlValue(toml::Value);

/// The text of a value that is a string; `None` for any other value.
pub uninterp spec fn toml_text(v: toml::Value) -> Option<Seq<char>>;

/// The items of a value that is an array; `None` for any other value.
pub uninterp spec fn toml_items(v: toml::Value) -> Option<Seq<toml::Value>>;

/// The value under `key` in a value that is a table; `None` where the key
/// is missing or the value is no table.
pub uninterp spec fn toml_member(v: toml::Value, key: Seq<char>) -> Option<toml::Value>;

/// The keys of a value that is a table, in the order in which the table is
/// walked; `None` for any other value.
pub uninterp spec fn toml_names(v: toml::Value) -> Option<Seq<Seq<char>>>;

/// The document that a text denotes; `None` where it is not valid TOML.
pub uninterp spec fn toml_document(text: Seq<char>) -> Option<toml::Value>;

/// The text that a document is written as; `None` where it cannot be
/// written.
pub uninterp spec fn toml_rendering(doc: toml::Value) -> Option<Seq<char>>;

/// `toml::Value::as_str` hands out the text of a string value and `None`
/// for every other variant.
pub assume_specification<'a>[ toml::Value::as_str ](v: &'a toml::Value) -> (r: Option<&'a str>)
    ensures
        match r {
            Some(s) => toml_text(*v) == Some(s@),
            None => toml_text(*v) is None,
        },
;

/// `toml::Value::as_array` hands out the items of an array value and `None`
/// for every other variant.
pub assume_specification<'a>[ toml::Value::as_array ](v: &'a toml::Value) -> (r: Option<
    &'a Vec<toml::Value>,
>)
    ensures
        match r {
            Some(items) => toml_items(*v) == Some(items@),
            None => toml_items(*v) is None,
        },
;

/// `toml::Value::is_table` tells whether the value is a table.
pub assume_specification[ toml::Value::is_table ](v: &toml::Value) -> (r: bool)
    ensures
        r == toml_names(*v) is Some,
;

/// `toml::Value::get` with a text key: the value under that key of a table,
/// `None` where the key is missing or the value is no table.
#[verifier::external_body]
pub(crate) fn member<'a>(v: &'a toml::Value, key: &str) -> (r: Option<&'a toml::Value>)
    ensures
        match r {
            Some(m) => toml_member(*v, key@) == Some(*m) && toml_names(*v) is Some,
            None => toml_member(*v, key@) is None,
        },
{
    v.get(key)
}

/// `toml::map::Map::keys` on the table of a value: its keys in the order in
/// which the table is walked, each once, and each with a value under it.
#[verifier::external_body]
pub(crate) fn names(v: &toml::Value) -> (r: Option<Vec<String>>)
    ensures
        match r {
            Some(keys) => toml_names(*v) == Some(string_views(keys@)) && string_views(
                keys@,
            ).no_duplicates() && forall|key: Seq<char>|
                string_views(keys@).contains(key) <==> toml_member(*v, key) is Some,
            None => toml_names(*v) is None,
        },
{
    match v.as_table() {
        Some(table) => Some(table.keys().cloned().collect()),
        None => None,
    }
}

/// `toml::Value::String`: a value that is the given text and nothing else.
#[verifier::external_body]
pub(crate) fn text_value(text: String) -> (r: toml::Value)
    ensures
        toml_text(r) == Some(text@),
        toml_items(r) is None,
        toml_names(r) is None,
        forall|key: Seq<char>| toml_member(r, key) is None,
{
    toml::Value::String(text)
}

/// `toml::Value::Array`: a value that is the given items and nothing else.
#[verifier::external_body]
pub(crate) fn array_value(items: Vec<toml::Value>) -> (r: toml::Value)
    ensures
        toml_items(r) == Some(items@),
        toml_text(r) is None,
        toml_names(r) is None,
        forall|key: Seq<char>| toml_member(r, key) is None,
{
    toml::Value::Array(items)
}

/// `toml::Value::Table` of `toml::map::Map::new`: a table without keys.
#[verifier::external_body]
pub(crate) fn empty_table() -> (r: toml::Value)
    ensures
        toml_names(r) == Some(Seq::<Seq<char>>::empty()),
        toml_text(r) is None,
        toml_items(r) is None,
        forall|key: Seq<char>| toml_member(r, key) is None,
{
    toml::Value::Table(toml::Table::new())
}

/// `toml::map::Map::insert` on the table of a value: afterwards the key
/// holds the new value, and every other key holds what it held. A value
/// that is no table is left as it is.
#[verifier::external_body]
pub(crate) fn set_member(table: &mut toml::Value, key: String, value: toml::Value)
    ensures
        toml_names(*old(table)) is None ==> *final(table) == *old(table),
        toml_names(*old(table)) is Some ==> {
            &&& toml_member(*final(table), key@) == Some(value)
            &&& forall|other: Seq<char>|
                other != key@ ==> toml_member(*final(table), other) == toml_member(
                    *old(table),
                    other,
                )
            &&& toml_names(*final(table)) is Some
            &&& toml_text(*final(table)) is None
            &&& toml_items(*final(table)) is None
        },
{
    if let Some(entries) = table.as_table_mut() {
        entries.insert(key, value);
    }
}

/// `toml::map::Map::remove` on the table of a value: it hands out what the
/// key held; afterwards the key holds nothing, and every other key holds
/// what it held. A value that is no table is left as it is.
#[verifier::external_body]
pub(crate) fn take_member(table: &mut toml::Value, key: &str) -> (r: Option<toml::Value>)
    ensures
        r == toml_member(*old(table), key@),
        toml_names(*old(table)) is None ==> *final(table) == *old(table),
        toml_names(*old(table)) is Some ==> {
            &&& toml_member(*final(table), key@) is None
            &&& forall|other: Seq<char>|
                other != key@ ==> toml_member(*final(table), other) == toml_member(
                    *old(table),
                    other,
                )
            &&& toml_names(*final(table)) is Some
            &&& toml_text(*final(table)) is None
            &&& toml_items(*final(table)) is None
        },
{
    match table.as_table_mut() {
        Some(entries) => entries.remove(key),
        None => None,
    }
}

/// `str::parse` to a `toml::Table`: the document that the text denotes, as
/// a table value, or the crate's message where the text is not valid TOML.
#[verifier::external_body]
pub(crate) fn read_document(text: &str) -> (r: Result<toml::Value, String>)
    ensures
        match r {
            Ok(doc) => toml_document(text@) == Some(doc) && toml_names(doc) is Some,
            Err(_) => toml_document(text@) is None,
        },
{
    match text.parse::<toml::Table>() {
        Ok(table) => Ok(toml::Value::Table(table)),
        Err(e) => Err(e.to_string()),
    }
}

/// `toml::to_string`: the text that the document is written as, or the
/// crate's message where it cannot be written.
#[verifier::external_body]
pub(crate) fn write_document(doc: &toml::Value) -> (r: Result<String, String>)
    ensures
        match r {
            Ok(text) => toml_rendering(*doc) == Some(text@),
            Err(_) => toml_rendering(*doc) is None,
        },
{
    match toml::to_string(doc) {
        Ok(text) => Ok(text),
        Err(e) => Err(e.to_string()),
    }
}

/// Reads a manifest from its text. The document that comes back is a
/// table.
pub fn read_manifest(text: &str) -> (r: Result<toml::Value, DepError>)
    ensures
        match r {
            Ok(doc) => toml_document(text@) == Some(doc) && toml_names(doc) is Some,
            Err(e) => toml_document(text@) is None && e@ is Storage,
        },
{
    match read_document(text) {
        Ok(doc) => Ok(doc),
        Err(cause) => Err(DepError::Storage(cause)),
    }
}

/// Writes a manifest as text.
pub fn write_manifest(doc: &toml::Value) -> (r: Result<String, DepError>)
    ensures
        match r {
            Ok(text) => toml_rendering(*doc) == Some(text@),
            Err(e) => toml_rendering(*doc) is None && e@ is Storage,
        },
{
    match write_document(doc) {
        Ok(text) => Ok(text),
        Err(cause) => Err(DepError::Storage(cause)),
    }
}

} // verus!
