//! The answer of the registry, as the `serde_json` crate holds it.
//!
//! A JSON value is a `serde_json::Value`, which is opaque here. What a
//! value holds and what a text denotes are named by functions without a
//! body, and the items below say of each call into the crate how its result
//! reads in those names. None of them is proved: they restate the crate's
//! source.

use vstd::prelude::*;
use vstd::string::StringExecFns;
use crate::api::{record, CratesDep};
use crate::error::DepError;
use crate::text::string_views;

verus! {

/// A JSON value.
#[verifier::external_type_specification]
#[verifier::external_body]
pub struct ExJsonValue(serde_json::Value);

/// The text of a value that is a string; `None` for any other value.
pub uninterp spec fn json_text(v: serde_json::Value) -> Option<Seq<char>>;

/// The items of a value that is an array; `None` for any other value.
pub uninterp spec fn json_items(v: serde_json::Value) -> Option<Seq<serde_json::Value>>;

/// The value under `key` in a value that is an object; `None` where the
/// key is missing or the value is no object.
pub uninterp spec fn json_member(v: serde_json::Value, key: Seq<char>) -> Option<
    serde_json::Value,
>;

/// The keys of a value that is an object, in the order in which the object
/// is walked; `None` for any other value.
pub uninterp spec fn json_names(v: serde_json::Value) -> Option<Seq<Seq<char>>>;

/// The value that a text denotes; `None` where it is not valid JSON.
pub uninterp spec fn json_document(text: Seq<char>) -> Option<serde_json::Value>;

/// `serde_json::Value::as_str` hands out the text of a string value and
/// `None` for every other variant.
pub assume_specification<'a>[ serde_json::Value::as_str ](v: &'a serde_json::Value) -> (r: Option<
    &'a str,
>)
    ensures
        match r {
            Some(s) => json_text(*v) == Some(s@),
            None => json_text(*v) is None,
        },
;

/// `serde_json::Value::as_array` hands out the items of an array value and
/// `None` for every other variant.
pub assume_specification<'a>[ serde_json::Value::as_array ](v: &'a serde_json::Value) -> (r:
    Option<&'a Vec<serde_json::Value>>)
    ensures
        match r {
            Some(items) => json_items(*v) == Some(items@),
            None => json_items(*v) is None,
        },
;

/// `serde_json::Value::get` with a text key: the value under that key of an
/// object, `None` where the key is missing or the value is no object.
#[verifier::external_body]
pub(crate) fn json_get<'a>(v: &'a serde_json::Value, key: &str) -> (r: Option<
    &'a serde_json::Value,
>)
    ensures
        match r {
            Some(m) => json_member(*v, key@) == Some(*m) && json_names(*v) is Some,
            None => json_member(*v, key@) is None,
        },
{
    v.get(key)
}

/// `serde_json::Map::keys` on the object of a value: its keys in the order
/// in which the object is walked, each once, and each with a value under
/// it.
#[verifier::external_body]
pub(crate) fn json_keys(v: &serde_json::Value) -> (r: Option<Vec<String>>)
    ensures
        match r {
            Some(keys) => json_names(*v) == Some(string_views(keys@)) && string_views(
                keys@,
            ).no_duplicates() && forall|key: Seq<char>|
                string_views(keys@).contains(key) <==> json_member(*v, key) is Some,
            None => json_names(*v) is None,
        },
{
    match v.as_object() {
        Some(object) => Some(object.keys().cloned().collect()),
        None => None,
    }
}

/// `serde_json::from_str` to a `serde_json::Value`: the value that the text
/// denotes, or the crate's message where the text is not valid JSON.
#[verifier::external_body]
pub(crate) fn read_json(text: &str) -> (r: Result<serde_json::Value, String>)
    ensures
        match r {
            Ok(v) => json_document(text@) == Some(v),
            Err(_) => json_document(text@) is None,
        },
{
    match serde_json::from_str::<serde_json::Value>(text) {
        Ok(v) => Ok(v),
        Err(e) => Err(e.to_string()),
    }
}

/// The version objects of an answer: the items of the array under
/// `versions`; none where there is no such array.
pub open spec fn payload_items(payload: serde_json::Value) -> Seq<serde_json::Value> {
    match json_member(payload, "versions"@) {
        Some(list) => match json_items(list) {
            Some(items) => items,
            None => Seq::empty(),
        },
        None => Seq::empty(),
    }
}

/// The version that a version object records: the text under `num` with
/// the keys of the object under `features`. An object that lacks either
/// records nothing.
pub open spec fn version_entry(item: serde_json::Value) -> Option<(Seq<char>, Seq<Seq<char>>)> {
    match json_member(item, "num"@) {
        Some(num) => match json_text(num) {
            Some(text) => match json_member(item, "features"@) {
                Some(features) => match json_names(features) {
                    Some(names) => Some((text, names)),
                    None => None,
                },
                None => None,
            },
            None => None,
        },
        None => None,
    }
}

/// The versions that a run of version objects records. A version that is
/// recorded again takes the place of the earlier record.
pub open spec fn recorded(items: Seq<serde_json::Value>) -> Seq<(Seq<char>, Seq<Seq<char>>)>
    decreases items.len(),
{
    if items.len() == 0 {
        Seq::empty()
    } else {
        let before = recorded(items.drop_last());
        match version_entry(items.last()) {
            Some((num, features)) => record(before, num, features),
            None => before,
        }
    }
}

/// The snapshot of the package `name` that an answer of the registry
/// holds. Version objects without a version text or without a feature
/// object are passed over.
pub fn snapshot_of(name: &str, payload: &serde_json::Value) -> (r: CratesDep)
    ensures
        r.name@ == name@,
        r.entries() == recorded(payload_items(*payload)),
        r.wf(),
{
    let mut out = CratesDep::new(name.to_owned());
    proof {
        assert(out.entries() =~= Seq::<(Seq<char>, Seq<Seq<char>>)>::empty());
    }
    let items = match json_get(payload, "versions") {
        Some(list) => match list.as_array() {
            Some(items) => items,
            None => {
                return out;
            },
        },
        None => {
            return out;
        },
    };
    let mut i: usize = 0;
    while i < items.len()
        invariant
            i <= items.len(),
            out.name@ == name@,
            out.wf(),
            out.entries() == recorded(items@.take(i as int)),
        decreases items.len() - i,
    {
        proof {
            assert(items@.take(i + 1).drop_last() =~= items@.take(i as int));
            assert(items@.take(i + 1).last() == items@[i as int]);
        }
        let item = &items[i];
        let num = match json_get(item, "num") {
            Some(num) => match num.as_str() {
                Some(text) => Some(text.to_owned()),
                None => None,
            },
            None => None,
        };
        match num {
            Some(num) => match json_get(item, "features") {
                Some(features) => match json_keys(features) {
                    Some(names) => {
                        out.insert(num, names);
                    },
                    None => {},
                },
                None => {},
            },
            None => {},
        }
        i += 1;
    }
    proof {
        assert(items@.take(items.len() as int) =~= items@);
    }
    out
}

/// The address at which the registry answers for the package `name`.
pub fn registry_url(name: &str) -> (r: String)
    ensures
        r@ == "https://crates.io/api/v1/crates/"@ + name@,
{
    let mut out = String::from_str("https://crates.io/api/v1/crates/");
    out.append(name);
    out
}

/// The snapshot that the text of an answer holds.
pub open spec fn snapshot_text_spec(body: Seq<char>) -> Option<Seq<(Seq<char>, Seq<Seq<char>>)>> {
    match json_document(body) {
        Some(payload) => Some(recorded(payload_items(payload))),
        None => None,
    }
}

/// Reads the snapshot of the package `name` from the text of the
/// registry's answer. A text that is not JSON is refused; JSON of another
/// shape gives a snapshot without versions.
pub fn read_snapshot(name: &str, body: &str) -> (r: Result<CratesDep, DepError>)
    ensures
        match r {
            Ok(snapshot) => snapshot_text_spec(body@) == Some(snapshot.entries()) && snapshot.name@
                == name@ && snapshot.wf(),
            Err(e) => snapshot_text_spec(body@) is None && e@ is Registry,
        },
{
    match read_json(body) {
        Ok(payload) => Ok(snapshot_of(name, &payload)),
        Err(cause) => Err(DepError::Registry(cause)),
    }
}

} // verus!
