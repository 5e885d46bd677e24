//! Reading the dependencies of one kind, and taking dependencies out of a
//! manifest by name.

use vstd::prelude::*;
use crate::cargo::{deps_of, read_entries, table_deps, Cargo};
use crate::dep::{contains_text, field_of, DType, Dep, Kind, Resolved};
use crate::error::{DepError, Failure};
use crate::manifest::{member, names, set_member, take_member, toml_member, toml_names};
use crate::text::{
    chars_of, split_chars, split_on, string_of, string_views, texts, trim_chars, trimmed,
};

verus! {

/// The names in a list of names separated by `,`, surrounding whitespace
/// of the whole list left out.
pub fn parse_names(list: &str) -> (out: Vec<String>)
    ensures
        string_views(out@) == split_on(trimmed(list@), ','),
{
    let pieces = split_chars(&trim_chars(&chars_of(list)), ',');
    let mut out: Vec<String> = Vec::new();
    let mut i: usize = 0;
    while i < pieces.len()
        invariant
            i <= pieces.len(),
            string_views(out@) == texts(pieces@).take(i as int),
        decreases pieces.len() - i,
    {
        let ghost before = string_views(out@);
        let item = string_of(&pieces[i]);
        out.push(item);
        proof {
            assert(string_views(out@) =~= before.push(item@));
            assert(texts(pieces@).take(i + 1) =~= texts(pieces@).take(i as int).push(item@));
        }
        i += 1;
    }
    proof {
        assert(texts(pieces@).take(pieces.len() as int) =~= texts(pieces@));
    }
    out
}

/// The dependencies of the kind `kind` in a manifest. A manifest without a
/// table for the kind has none.
pub open spec fn kind_deps_spec(doc: toml::Value, kind: Kind) -> Result<Seq<Resolved>, Failure> {
    match toml_member(doc, field_of(kind)) {
        Some(section) => table_deps(section),
        None => Ok(Seq::empty()),
    }
}

/// Reads the dependencies of one kind from a manifest.
pub fn kind_deps(doc: &toml::Value, kind: &DType) -> (r: Result<Vec<Dep>, DepError>)
    ensures
        match r {
            Ok(deps) => kind_deps_spec(*doc, kind@) == Ok::<Seq<Resolved>, Failure>(deps_of(deps@)),
            Err(e) => kind_deps_spec(*doc, kind@) == Err::<Seq<Resolved>, Failure>(e@),
        },
{
    let field = kind.to_cargo_field();
    match member(doc, field.as_str()) {
        Some(section) => match Cargo::update_dep_type(section) {
            Ok((deps, _)) => Ok(deps),
            Err(e) => Err(e),
        },
        None => {
            let deps: Vec<Dep> = Vec::new();
            proof {
                assert(deps_of(deps@) =~= Seq::<Resolved>::empty());
            }
            Ok(deps)
        },
    }
}

/// The keys among `keys` that are in `wanted`, in order.
pub open spec fn picked(keys: Seq<Seq<char>>, wanted: Seq<Seq<char>>) -> Seq<Seq<char>>
    decreases keys.len(),
{
    if keys.len() == 0 {
        Seq::empty()
    } else {
        let before = picked(keys.drop_last(), wanted);
        if wanted.contains(keys.last()) {
            before.push(keys.last())
        } else {
            before
        }
    }
}

/// The dependencies of a table whose names are in `wanted`, in the order in
/// which the table is walked. A value that is no table has none.
pub open spec fn table_picked(table: toml::Value, wanted: Seq<Seq<char>>) -> Result<
    Seq<Resolved>,
    Failure,
> {
    match toml_names(table) {
        Some(keys) => read_entries(table, picked(keys, wanted)),
        None => Ok(Seq::empty()),
    }
}

/// Once an entry has failed, reading the wanted entries fails with it.
pub proof fn lemma_picked_failure_stays(
    table: toml::Value,
    keys: Seq<Seq<char>>,
    wanted: Seq<Seq<char>>,
    n: int,
)
    requires
        0 <= n <= keys.len(),
        read_entries(table, picked(keys.take(n), wanted)) is Err,
    ensures
        read_entries(table, picked(keys, wanted)) == read_entries(
            table,
            picked(keys.take(n), wanted),
        ),
    decreases keys.len() - n,
{
    if n < keys.len() {
        assert(keys.take(n + 1).drop_last() =~= keys.take(n));
        let now = picked(keys.take(n + 1), wanted);
        if wanted.contains(keys[n]) {
            assert(now.drop_last() =~= picked(keys.take(n), wanted));
        }
        lemma_picked_failure_stays(table, keys, wanted, n + 1);
    } else {
        assert(keys.take(n) =~= keys);
    }
}

/// Reads the dependencies of a table whose names are in `wanted`.
pub fn named_deps(table: &toml::Value, wanted: &Vec<String>) -> (r: Result<Vec<Dep>, DepError>)
    ensures
        match r {
            Ok(deps) => table_picked(*table, string_views(wanted@)) == Ok::<Seq<Resolved>, Failure>(
                deps_of(deps@),
            ),
            Err(e) => table_picked(*table, string_views(wanted@)) == Err::<Seq<Resolved>, Failure>(
                e@,
            ),
        },
{
    let mut out: Vec<Dep> = Vec::new();
    proof {
        assert(deps_of(out@) =~= Seq::<Resolved>::empty());
    }
    let keys = match names(table) {
        Some(keys) => keys,
        None => {
            return Ok(out);
        },
    };
    let ghost all = string_views(keys@);
    let ghost want = string_views(wanted@);
    let mut i: usize = 0;
    while i < keys.len()
        invariant
            i <= keys.len(),
            all == string_views(keys@),
            want == string_views(wanted@),
            toml_names(*table) == Some(all),
            read_entries(*table, picked(all.take(i as int), want)) == Ok::<Seq<Resolved>, Failure>(
                deps_of(out@),
            ),
        decreases keys.len() - i,
    {
        proof {
            assert(all.take(i + 1).drop_last() =~= all.take(i as int));
            assert(all.take(i + 1).last() == keys@[i as int]@);
        }
        let ghost before = deps_of(out@);
        let ghost chosen = picked(all.take(i as int), want);
        if contains_text(wanted, &keys[i]) {
            proof {
                assert(picked(all.take(i + 1), want).drop_last() =~= chosen);
            }
            match member(table, keys[i].as_str()) {
                None => {},
                Some(attrs) => match Dep::from_toml(keys[i].as_str(), attrs) {
                    Ok(d) => {
                        out.push(d);
                        proof {
                            assert(deps_of(out@) =~= before.push(d@));
                        }
                    },
                    Err(e) => {
                        proof {
                            lemma_picked_failure_stays(*table, all, want, i + 1);
                        }
                        return Err(e);
                    },
                },
            }
        }
        i += 1;
    }
    proof {
        assert(all.take(keys.len() as int) =~= all);
    }
    Ok(out)
}

/// Whether `after` is the table `before` without the keys in `wanted`.
pub open spec fn without(before: toml::Value, after: toml::Value, wanted: Seq<Seq<char>>) -> bool {
    &&& toml_names(after) is Some
    &&& forall|key: Seq<char>|
        #[trigger] toml_member(after, key) == if wanted.contains(key) {
            None
        } else {
            toml_member(before, key)
        }
}

/// Whether `after` is the document `before` with the dependencies named in
/// `wanted` taken out of the table of `kind`: the table stays without them,
/// or leaves the document where nothing is left in it. Every other part of
/// the document stays.
pub open spec fn section_pruned(
    before: toml::Value,
    after: toml::Value,
    kind: Kind,
    wanted: Seq<Seq<char>>,
) -> bool {
    let field = field_of(kind);
    &&& forall|other: Seq<char>|
        other != field ==> #[trigger] toml_member(after, other) == toml_member(before, other)
    &&& toml_member(before, field) matches Some(section) && match toml_member(after, field) {
        Some(rest) => without(section, rest, wanted) && exists|key: Seq<char>|
            toml_member(rest, key) is Some,
        None => forall|key: Seq<char>|
            #[trigger] toml_member(section, key) is Some ==> wanted.contains(key),
    }
}

/// Takes the keys in `wanted` out of a table. A value that is no table is
/// left as it is.
pub fn prune(table: &mut toml::Value, wanted: &Vec<String>)
    ensures
        toml_names(*old(table)) is Some ==> without(
            *old(table),
            *final(table),
            string_views(wanted@),
        ),
        toml_names(*old(table)) is None ==> *final(table) == *old(table),
{
    if !table.is_table() {
        return ;
    }
    let mut i: usize = 0;
    let ghost want = string_views(wanted@);
    while i < wanted.len()
        invariant
            i <= wanted.len(),
            want == string_views(wanted@),
            toml_names(*table) is Some,
            forall|key: Seq<char>|
                #[trigger] toml_member(*table, key) == if want.take(i as int).contains(key) {
                    None
                } else {
                    toml_member(*old(table), key)
                },
        decreases wanted.len() - i,
    {
        let ghost before = *table;
        let ghost done = want.take(i as int);
        let _ = take_member(table, wanted[i].as_str());
        proof {
            let now = want.take(i + 1);
            let this = wanted@[i as int]@;
            assert(now =~= done.push(this));
            assert forall|key: Seq<char>| #[trigger]
                toml_member(*table, key) == if now.contains(key) {
                    None
                } else {
                    toml_member(*old(table), key)
                } by {
                if key == this {
                    assert(now[i as int] == key);
                } else {
                    assert(toml_member(*table, key) == toml_member(before, key));
                    if done.contains(key) {
                        let j = choose|j: int| 0 <= j < done.len() && done[j] == key;
                        assert(now[j] == key);
                    }
                    if now.contains(key) {
                        let j = choose|j: int| 0 <= j < now.len() && now[j] == key;
                        assert(done[j] == key);
                    }
                }
            }
        }
        i += 1;
    }
    proof {
        assert(want.take(wanted.len() as int) =~= want);
    }
}

/// Takes the dependencies named in `wanted` out of the table of `kind`, and
/// hands them out as they stood.
///
/// Where none of them is in the table, or the manifest has no table for the
/// kind, the document stays as it is. A table in which nothing is left
/// leaves the document. Where an entry to be taken out cannot be read,
/// nothing is changed.
pub fn remove_from_kind(doc: &mut toml::Value, kind: &DType, wanted: &Vec<String>) -> (r: Result<
    Vec<Dep>,
    DepError,
>)
    ensures
        toml_names(*final(doc)) is Some == toml_names(*old(doc)) is Some,
        match r {
            Ok(removed) => {
                &&& removed_spec(*old(doc), kind@, string_views(wanted@)) == Ok::<
                    Seq<Resolved>,
                    Failure,
                >(deps_of(removed@))
                &&& removed@.len() == 0 ==> *final(doc) == *old(doc)
                &&& removed@.len() > 0 ==> section_pruned(
                    *old(doc),
                    *final(doc),
                    kind@,
                    string_views(wanted@),
                )
            },
            Err(e) => removed_spec(*old(doc), kind@, string_views(wanted@)) == Err::<
                Seq<Resolved>,
                Failure,
            >(e@) && *final(doc) == *old(doc),
        },
{
    let field = kind.to_cargo_field();
    let removed = match member(doc, field.as_str()) {
        Some(section) => match named_deps(section, wanted) {
            Ok(removed) => removed,
            Err(e) => {
                return Err(e);
            },
        },
        None => {
            let none: Vec<Dep> = Vec::new();
            proof {
                assert(deps_of(none@) =~= Seq::<Resolved>::empty());
            }
            return Ok(none);
        },
    };
    if removed.len() == 0 {
        return Ok(removed);
    }
    let ghost before = *doc;
    let taken = take_member(doc, field.as_str());
    let mut section = taken.unwrap();
    let ghost whole = section;
    proof {
        assert(toml_member(before, field@) == Some(whole));
        assert(removed_spec(before, kind@, string_views(wanted@)) == Ok::<Seq<Resolved>, Failure>(
            deps_of(removed@),
        ));
        assert(toml_names(whole) is Some) by {
            if toml_names(whole) is None {
                assert(table_picked(whole, string_views(wanted@)) == Ok::<Seq<Resolved>, Failure>(
                    Seq::empty(),
                ));
                assert(deps_of(removed@).len() == 0);
            }
        }
    }
    prune(&mut section, wanted);
    let rest = names(&section);
    let left = match rest {
        Some(keys) => keys.len() > 0,
        None => false,
    };
    if left {
        proof {
            let keys = string_views(rest.unwrap()@);
            assert(keys.contains(keys[0]));
            assert(toml_member(section, keys[0]) is Some);
        }
        set_member(doc, field, section);
    } else {
        proof {
            let keys = string_views(rest.unwrap()@);
            assert forall|key: Seq<char>| #[trigger]
                toml_member(whole, key) is Some implies string_views(wanted@).contains(key) by {
                if !string_views(wanted@).contains(key) {
                    assert(toml_member(section, key) == toml_member(whole, key));
                    assert(keys.contains(key));
                }
            }
        }
    }
    Ok(removed)
}

/// The dependencies that are taken out of the table of `kind`: those of its
/// entries whose names are in `wanted`.
pub open spec fn removed_spec(doc: toml::Value, kind: Kind, wanted: Seq<Seq<char>>) -> Result<
    Seq<Resolved>,
    Failure,
> {
    match toml_member(doc, field_of(kind)) {
        Some(section) => table_picked(section, wanted),
        None => Ok(Seq::empty()),
    }
}

} // verus!
