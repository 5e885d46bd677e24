//! Writing resolved dependencies into the tables of a manifest document.

use vstd::prelude::*;
use vstd::string::StringExecFns;
use crate::cargo::{buckets_of, deps_of};
use crate::dep::{field_of, is_entry_of, DType, Dep, Kind, Resolved};
use crate::manifest::{
    empty_table, set_member, take_member, text_value, toml_member, toml_names, toml_text,
};

verus! {

/// The last of `deps` that is named `name`, if there is one.
pub open spec fn last_named(deps: Seq<Resolved>, name: Seq<char>) -> Option<Resolved>
    decreases deps.len(),
{
    if deps.len() == 0 {
        None
    } else if deps.last().name == name {
        Some(deps.last())
    } else {
        last_named(deps.drop_last(), name)
    }
}

/// What `base` holds under `key`; nothing where there is no base.
pub open spec fn base_member(base: Option<toml::Value>, key: Seq<char>) -> Option<toml::Value> {
    match base {
        Some(table) => toml_member(table, key),
        None => None,
    }
}

/// Whether `table` is `base` with the entries of `deps` written over it:
/// under the name of each dependency stands the entry of the last
/// dependency of that name, and every other key holds what it held in
/// `base`.
pub open spec fn holds_deps(table: toml::Value, base: Option<toml::Value>, deps: Seq<Resolved>) -> bool {
    &&& toml_names(table) is Some
    &&& forall|key: Seq<char>| #[trigger]
        last_named(deps, key) is None ==> toml_member(table, key) == base_member(base, key)
    &&& forall|key: Seq<char>| #[trigger]
        last_named(deps, key) is Some ==> (toml_member(table, key) matches Some(v) && is_entry_of(
            v,
            last_named(deps, key).unwrap(),
        ))
}

/// Writes the entry of each dependency into a table, over the entry that
/// was there under its name. A value that is no table is left as it is.
pub fn insert_deps(table: &mut toml::Value, deps: &Vec<Dep>)
    ensures
        toml_names(*old(table)) is Some ==> holds_deps(
            *final(table),
            Some(*old(table)),
            deps_of(deps@),
        ),
        toml_names(*old(table)) is None ==> *final(table) == *old(table),
{
    if !table.is_table() {
        return ;
    }
    let ghost all = deps_of(deps@);
    let mut i: usize = 0;
    while i < deps.len()
        invariant
            i <= deps.len(),
            all == deps_of(deps@),
            holds_deps(*table, Some(*old(table)), all.take(i as int)),
        decreases deps.len() - i,
    {
        let ghost before = *table;
        let ghost done = all.take(i as int);
        let (name, attrs) = deps[i].to_toml();
        set_member(table, name, attrs);
        proof {
            let now = all.take(i + 1);
            assert(now.drop_last() =~= done);
            assert(now.last() == deps@[i as int]@);
            assert forall|key: Seq<char>| #[trigger]
                last_named(now, key) is None implies toml_member(*table, key) == base_member(
                Some(*old(table)),
                key,
            ) by {
                assert(last_named(done, key) is None);
            }
            assert forall|key: Seq<char>| #[trigger]
                last_named(now, key) is Some implies (toml_member(*table, key) matches Some(v)
                && is_entry_of(v, last_named(now, key).unwrap())) by {
                if key != deps@[i as int]@.name {
                    assert(last_named(done, key) is Some);
                }
            }
        }
        i += 1;
    }
    proof {
        assert(all.take(deps.len() as int) =~= all);
    }
}

/// Whether `after` is the document `before` with the bucket of `kind`
/// merged in.
///
/// Where the document has a table for the kind, the dependencies are written
/// over it; where it has nothing there, a new table holds them; a value
/// that is no table is left alone. Every other part of the document stays.
pub open spec fn bucket_merged(
    before: toml::Value,
    after: toml::Value,
    kind: Kind,
    deps: Seq<Resolved>,
) -> bool {
    let field = field_of(kind);
    &&& toml_names(after) is Some
    &&& forall|other: Seq<char>|
        other != field ==> #[trigger] toml_member(after, other) == toml_member(before, other)
    &&& match toml_member(before, field) {
        None => toml_member(after, field) matches Some(t) && holds_deps(t, None, deps),
        Some(section) => if toml_names(section) is Some {
            toml_member(after, field) matches Some(t) && holds_deps(t, Some(section), deps)
        } else {
            toml_member(after, field) == Some(section)
        },
    }
}

/// Merges the dependencies of one kind into the table of that kind. A
/// document that is no table is left as it is.
pub fn merge_bucket(doc: &mut toml::Value, kind: &DType, deps: &Vec<Dep>)
    ensures
        toml_names(*old(doc)) is Some ==> bucket_merged(
            *old(doc),
            *final(doc),
            kind@,
            deps_of(deps@),
        ),
        toml_names(*old(doc)) is None ==> *final(doc) == *old(doc),
{
    if !doc.is_table() {
        return ;
    }
    let field = kind.to_cargo_field();
    match take_member(doc, field.as_str()) {
        Some(section) => {
            let mut section = section;
            if section.is_table() {
                insert_deps(&mut section, deps);
            }
            set_member(doc, field, section);
        },
        None => {
            let mut section = empty_table();
            let ghost fresh = section;
            insert_deps(&mut section, deps);
            proof {
                assert forall|key: Seq<char>| #[trigger]
                    last_named(deps_of(deps@), key) is None implies toml_member(section, key)
                    == base_member(None, key) by {
                    assert(toml_member(fresh, key) is None);
                }
            }
            set_member(doc, field, section);
        },
    }
}

/// Whether `docs` leads from the document `before` to the document `after`
/// by merging the buckets one after the other.
pub open spec fn merges_in_turn(
    docs: Seq<toml::Value>,
    before: toml::Value,
    after: toml::Value,
    buckets: Seq<(Kind, Seq<Resolved>)>,
) -> bool {
    &&& docs.len() == buckets.len() + 1
    &&& docs[0] == before
    &&& docs.last() == after
    &&& forall|i: int|
        0 <= i < buckets.len() ==> bucket_merged(
            #[trigger] docs[i],
            docs[i + 1],
            buckets[i].0,
            buckets[i].1,
        )
}

/// Merges every bucket into the document, one after the other. What a
/// dependency of the same name held before is written over. A document
/// that is no table is left as it is.
pub fn merge_buckets(doc: &mut toml::Value, buckets: &Vec<(DType, Vec<Dep>)>)
    ensures
        toml_names(*old(doc)) is Some ==> toml_names(*final(doc)) is Some && exists|
            docs: Seq<toml::Value>,
        |
            merges_in_turn(docs, *old(doc), *final(doc), buckets_of(buckets@)),
        toml_names(*old(doc)) is None ==> *final(doc) == *old(doc),
{
    if !doc.is_table() {
        return ;
    }
    let ghost all = buckets_of(buckets@);
    let ghost mut docs: Seq<toml::Value> = seq![*doc];
    let mut i: usize = 0;
    while i < buckets.len()
        invariant
            i <= buckets.len(),
            all == buckets_of(buckets@),
            toml_names(*doc) is Some,
            merges_in_turn(docs, *old(doc), *doc, all.take(i as int)),
        decreases buckets.len() - i,
    {
        let ghost before = docs;
        merge_bucket(doc, &buckets[i].0, &buckets[i].1);
        proof {
            docs = before.push(*doc);
            let now = all.take(i + 1);
            assert forall|k: int| 0 <= k < now.len() implies bucket_merged(
                #[trigger] docs[k],
                docs[k + 1],
                now[k].0,
                now[k].1,
            ) by {
                if k < i {
                    assert(docs[k] == before[k]);
                    assert(docs[k + 1] == before[k + 1]);
                    assert(all.take(i as int)[k] == now[k]);
                    assert(bucket_merged(
                        before[k],
                        before[k + 1],
                        all.take(i as int)[k].0,
                        all.take(i as int)[k].1,
                    ));
                } else {
                    assert(docs[k] == before.last());
                }
            }
        }
        i += 1;
    }
    proof {
        assert(all.take(buckets.len() as int) =~= all);
    }
}

/// Puts a fresh table with exactly these dependencies in the place of the
/// table of `kind`. A document that is no table is left as it is.
pub fn replace_section(doc: &mut toml::Value, kind: &DType, deps: &Vec<Dep>)
    ensures
        toml_names(*old(doc)) is Some ==> section_replaced(
            *old(doc),
            *final(doc),
            kind@,
            deps_of(deps@),
        ),
        toml_names(*old(doc)) is None ==> *final(doc) == *old(doc),
{
    if !doc.is_table() {
        return ;
    }
    let field = kind.to_cargo_field();
    let mut section = empty_table();
    let ghost fresh = section;
    insert_deps(&mut section, deps);
    proof {
        assert forall|key: Seq<char>| #[trigger]
            last_named(deps_of(deps@), key) is None implies toml_member(section, key)
            == base_member(None, key) by {
            assert(toml_member(fresh, key) is None);
        }
    }
    set_member(doc, field, section);
}

/// Whether `after` is the document `before` with the table of `kind` put
/// anew from `deps`, and every other part as it was.
pub open spec fn section_replaced(
    before: toml::Value,
    after: toml::Value,
    kind: Kind,
    deps: Seq<Resolved>,
) -> bool {
    let field = field_of(kind);
    &&& toml_names(after) is Some
    &&& forall|other: Seq<char>|
        other != field ==> #[trigger] toml_member(after, other) == toml_member(before, other)
    &&& toml_member(after, field) matches Some(t) && holds_deps(t, None, deps)
}

/// Whether `doc` is a manifest that holds nothing but the description of
/// the package `name`: its name, the version `0.1.0` and the edition
/// `2024`.
pub open spec fn is_new_manifest(doc: toml::Value, name: Seq<char>) -> bool {
    &&& toml_names(doc) is Some
    &&& forall|other: Seq<char>| other != "package"@ ==> #[trigger] toml_member(doc, other) is None
    &&& toml_member(doc, "package"@) matches Some(p) && {
        &&& toml_names(p) is Some
        &&& toml_member(p, "name"@) matches Some(v) && toml_text(v) == Some(name)
        &&& toml_member(p, "version"@) matches Some(v) && toml_text(v) == Some("0.1.0"@)
        &&& toml_member(p, "edition"@) matches Some(v) && toml_text(v) == Some("2024"@)
        &&& forall|other: Seq<char>|
            other != "name"@ && other != "version"@ && other != "edition"@
                ==> #[trigger] toml_member(p, other) is None
    }
}

/// The manifest of a new project named `name`, without dependencies.
pub fn new_manifest(name: &str) -> (doc: toml::Value)
    ensures
        is_new_manifest(doc, name@),
{
    proof {
        reveal_strlit("name");
        reveal_strlit("version");
        reveal_strlit("edition");
        assert("name"@.len() == 4 && "version"@.len() == 7 && "edition"@.len() == 7);
        assert("version"@[0] == 'v' && "edition"@[0] == 'e');
    }
    let mut package = empty_table();
    set_member(&mut package, String::from_str("name"), text_value(name.to_owned()));
    set_member(&mut package, String::from_str("version"), text_value(String::from_str("0.1.0")));
    set_member(&mut package, String::from_str("edition"), text_value(String::from_str("2024")));
    let mut doc = empty_table();
    set_member(&mut doc, String::from_str("package"), package);
    doc
}

} // verus!
