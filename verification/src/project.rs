//! The commands on a manifest, from text to text. Reading the file, asking
//! the registry and writing the file back are left to the caller.

use vstd::prelude::*;
use crate::api::CratesDep;
use crate::cargo::{buckets_of, deps_of, resolve_set, resolve_set_spec, versions_of, Cargo};
use crate::dep::{DType, Dep, Kind, Resolved};
use crate::error::{DepError, Failure};
use crate::manifest::{
    member, read_manifest, toml_document, toml_names, toml_rendering, write_manifest,
};
use crate::merge::{is_new_manifest, merge_buckets, merges_in_turn, new_manifest};
use crate::parse::{requests_of, PDep};
use crate::remove::{
    kind_deps, kind_deps_spec, parse_names, remove_from_kind, removed_spec, section_pruned,
};
use crate::text::{chars_of, split_on, string_views, trimmed};
use crate::update::{apply_updates, kinds_changed, replaces_in_turn, KindUpdate};

verus! {

/// Whether `out` is what the document `before` is written as once the
/// buckets are merged in, one after the other: its text, or `None` where
/// the merged document cannot be written.
pub open spec fn merged_text(
    before: toml::Value,
    buckets: Seq<(Kind, Seq<Resolved>)>,
    out: Option<Seq<char>>,
) -> bool {
    exists|after: toml::Value, docs: Seq<toml::Value>|
        merges_in_turn(docs, before, after, buckets) && toml_rendering(after) == out
}

/// Whether `out` is what the manifest of a new project `name` is written
/// as once the buckets are merged in: its text, or `None` where it cannot
/// be written.
pub open spec fn new_project_text(
    name: Seq<char>,
    buckets: Seq<(Kind, Seq<Resolved>)>,
    out: Option<Seq<char>>,
) -> bool {
    exists|before: toml::Value| is_new_manifest(before, name) && merged_text(before, buckets, out)
}

/// The kind at place `i` of the three kinds that every manifest can hold:
/// normal, dev and build.
pub open spec fn plain_kind(i: int) -> Kind {
    if i == 0 {
        Kind::Normal
    } else if i == 1 {
        Kind::Dev
    } else {
        Kind::Build
    }
}

/// Whether `docs` leads on from the document `before` by taking the wanted
/// dependencies out of the first `n` of the normal, the dev and the build
/// table in turn, and `removed` holds what each step took out. A kind from
/// which nothing is taken leaves the document as it is.
pub open spec fn prunes_in_turn(
    docs: Seq<toml::Value>,
    before: toml::Value,
    wanted: Seq<Seq<char>>,
    removed: Seq<Seq<Resolved>>,
    n: int,
) -> bool {
    &&& 0 <= n <= 3
    &&& docs.len() == n + 1
    &&& removed.len() == n
    &&& docs[0] == before
    &&& forall|i: int|
        0 <= i < n ==> {
            &&& removed_spec(#[trigger] docs[i], plain_kind(i), wanted) == Ok::<
                Seq<Resolved>,
                Failure,
            >(removed[i])
            &&& removed[i].len() == 0 ==> docs[i + 1] == docs[i]
            &&& removed[i].len() > 0 ==> section_pruned(docs[i], docs[i + 1], plain_kind(i), wanted)
        }
}

/// Whether `out` is what the document `before` is written as once the
/// tables of the updated kinds are put anew, one after the other: its
/// text, or `None` where the updated document cannot be written.
pub open spec fn updated_text(
    before: toml::Value,
    updates: Seq<KindUpdate>,
    out: Option<Seq<char>>,
) -> bool {
    exists|after: toml::Value, docs: Seq<toml::Value>| #[trigger]
        replaces_in_turn(docs, before, after, updates) && toml_rendering(after) == out
}

/// The views of the lists of dependencies taken out of each kind.
pub open spec fn taken_of(removed: Seq<Vec<Dep>>) -> Seq<Seq<Resolved>> {
    removed.map_values(|v: Vec<Dep>| deps_of(v@))
}

/// Whether `out` is what the document `before` is written as once the
/// wanted dependencies are taken out of the normal, the dev and the build
/// table, and `removed` holds what was taken out of each: its text, or
/// `None` where the document that is left cannot be written.
pub open spec fn pruned_text(
    before: toml::Value,
    wanted: Seq<Seq<char>>,
    removed: Seq<Seq<Resolved>>,
    out: Option<Seq<char>>,
) -> bool {
    exists|docs: Seq<toml::Value>| #[trigger]
        prunes_in_turn(docs, before, wanted, removed, 3) && toml_rendering(docs[3]) == out
}

/// Whether the document `before` cannot be written once the wanted
/// dependencies are taken out of its three tables.
pub open spec fn pruned_unwritable(before: toml::Value, wanted: Seq<Seq<char>>) -> bool {
    exists|removed: Seq<Seq<Resolved>>| #[trigger] pruned_text(before, wanted, removed, None)
}

/// Whether taking the wanted dependencies out of the document `before`
/// fails with `failure`: after some of the three kinds were dealt with, an
/// entry that is to be taken out of the next kind cannot be read.
pub open spec fn removal_fails(before: toml::Value, wanted: Seq<Seq<char>>, failure: Failure) -> bool {
    exists|docs: Seq<toml::Value>, removed: Seq<Seq<Resolved>>, n: int| #[trigger]
        prunes_in_turn(docs, before, wanted, removed, n) && n < 3 && removed_spec(
            docs[n],
            plain_kind(n),
            wanted,
        ) == Err::<Seq<Resolved>, Failure>(failure)
}

/// The kind at place `i` of the three kinds that every manifest can hold.
pub fn plain(i: usize) -> (r: DType)
    ensures
        r@ == plain_kind(i as int),
{
    if i == 0 {
        DType::Normal
    } else if i == 1 {
        DType::Dev
    } else {
        DType::Build
    }
}

impl Cargo {
    /// The manifest of a new project named `name` with the requested
    /// dependencies, resolved against the snapshots of their packages. It
    /// fails where a request does not resolve, and else only where the
    /// manifest cannot be written as text.
    pub fn init_project(name: &str, pdeps: &Vec<PDep>, snapshots: &Vec<CratesDep>) -> (r: Result<
        String,
        DepError,
    >)
        ensures
            match r {
                Ok(out) => resolve_set_spec(requests_of(pdeps@), snapshots@) matches Ok(buckets)
                    && new_project_text(name@, buckets, Some(out@)),
                Err(e) => match resolve_set_spec(requests_of(pdeps@), snapshots@) {
                    Err(failure) => e@ == failure,
                    Ok(buckets) => e@ is Storage && new_project_text(name@, buckets, None),
                },
            },
    {
        let buckets = match resolve_set(pdeps, snapshots) {
            Ok(buckets) => buckets,
            Err(e) => {
                return Err(e);
            },
        };
        let mut doc = new_manifest(name);
        let ghost before = doc;
        merge_buckets(&mut doc, &buckets);
        let written = write_manifest(&doc);
        proof {
            assert(merged_text(before, buckets_of(buckets@), toml_rendering(doc)));
        }
        written
    }

    /// The manifest `text` with the requested dependencies added, resolved
    /// against the snapshots of their packages. A dependency that the
    /// manifest already names in the same table is written over. It fails
    /// where the text is no manifest, where a request does not resolve, and
    /// else only where the merged manifest cannot be written as text.
    pub fn append_deps(text: &str, pdeps: &Vec<PDep>, snapshots: &Vec<CratesDep>) -> (r: Result<
        String,
        DepError,
    >)
        ensures
            match r {
                Ok(out) => toml_document(text@) matches Some(before) && resolve_set_spec(
                    requests_of(pdeps@),
                    snapshots@,
                ) matches Ok(buckets) && merged_text(before, buckets, Some(out@)),
                Err(e) => match toml_document(text@) {
                    None => e@ is Storage,
                    Some(before) => match resolve_set_spec(requests_of(pdeps@), snapshots@) {
                        Err(failure) => e@ == failure,
                        Ok(buckets) => e@ is Storage && merged_text(before, buckets, None),
                    },
                },
            },
    {
        let mut doc = match read_manifest(text) {
            Ok(doc) => doc,
            Err(e) => {
                return Err(e);
            },
        };
        let buckets = match resolve_set(pdeps, snapshots) {
            Ok(buckets) => buckets,
            Err(e) => {
                return Err(e);
            },
        };
        let ghost before = doc;
        merge_buckets(&mut doc, &buckets);
        let written = write_manifest(&doc);
        proof {
            assert(merged_text(before, buckets_of(buckets@), toml_rendering(doc)));
        }
        written
    }

    /// The dependencies of the manifest `text` that are to be brought up to
    /// date: for each of the normal, dev and build kinds that holds any, in
    /// that order, its dependencies and their versions as they stand.
    pub fn existing(text: &str) -> (r: Result<Vec<KindUpdate>, DepError>)
        ensures
            match r {
                Ok(found) => {
                    &&& toml_document(text@) matches Some(doc) && listing(doc, 3) == Ok::<
                        Seq<(Kind, Seq<Resolved>)>,
                        Failure,
                    >(kinds_found(found@))
                    &&& forall|i: int|
                        0 <= i < found@.len() ==> string_views(
                            (#[trigger] found@[i]).old_versions@,
                        ) == versions_of(deps_of(found@[i].deps@))
                },
                Err(e) => match toml_document(text@) {
                    None => e@ is Storage,
                    Some(doc) => listing(doc, 3) == Err::<Seq<(Kind, Seq<Resolved>)>, Failure>(e@),
                },
            },
    {
        let doc = match read_manifest(text) {
            Ok(doc) => doc,
            Err(e) => {
                return Err(e);
            },
        };
        let mut found: Vec<KindUpdate> = Vec::new();
        let mut i: usize = 0;
        proof {
            assert(kinds_found(found@) =~= Seq::<(Kind, Seq<Resolved>)>::empty());
        }
        while i < 3
            invariant
                i <= 3,
                toml_document(text@) == Some(doc),
                listing(doc, i as int) == Ok::<Seq<(Kind, Seq<Resolved>)>, Failure>(
                    kinds_found(found@),
                ),
                forall|k: int|
                    0 <= k < found@.len() ==> string_views((#[trigger] found@[k]).old_versions@)
                        == versions_of(deps_of(found@[k].deps@)),
            decreases 3 - i,
        {
            let kind = plain(i);
            let field = kind.to_cargo_field();
            let ghost before = kinds_found(found@);
            let read = match member(&doc, field.as_str()) {
                Some(section) => Cargo::update_dep_type(section),
                None => {
                    let deps: Vec<Dep> = Vec::new();
                    let old_versions: Vec<String> = Vec::new();
                    proof {
                        assert(deps_of(deps@) =~= Seq::<Resolved>::empty());
                        assert(string_views(old_versions@) =~= versions_of(deps_of(deps@)));
                    }
                    Ok((deps, old_versions))
                },
            };
            match read {
                Ok((deps, old_versions)) => {
                    if deps.len() > 0 {
                        found.push(KindUpdate { kind, deps, old_versions });
                        proof {
                            assert(kinds_found(found@) =~= before.push((kind@, deps_of(deps@))));
                        }
                    }
                },
                Err(e) => {
                    proof {
                        lemma_listing_failure_stays(doc, i + 1);
                    }
                    return Err(e);
                },
            }
            i += 1;
        }
        Ok(found)
    }

    /// The manifest `text` with the tables of the updated kinds put anew;
    /// `None` where no dependency of any kind got a later version, in which
    /// case there is nothing to write. It fails where the text is no
    /// manifest, and else only where some version got later and the updated
    /// manifest cannot be written as text.
    pub fn update_deps(text: &str, updates: &Vec<KindUpdate>) -> (r: Result<Option<String>, DepError>)
        ensures
            match r {
                Ok(None) => toml_document(text@) is Some && kinds_changed(
                    updates@,
                    updates@.len() as int,
                ) == 0,
                Ok(Some(out)) => {
                    &&& kinds_changed(updates@, updates@.len() as int) > 0
                    &&& toml_document(text@) matches Some(before)
                    &&& updated_text(before, updates@, Some(out@))
                },
                Err(e) => e@ is Storage && match toml_document(text@) {
                    None => true,
                    Some(before) => kinds_changed(updates@, updates@.len() as int) > 0
                        && updated_text(before, updates@, None),
                },
            },
    {
        let mut doc = match read_manifest(text) {
            Ok(doc) => doc,
            Err(e) => {
                return Err(e);
            },
        };
        let ghost before = doc;
        let changed = apply_updates(&mut doc, updates);
        if changed == 0 {
            return Ok(None);
        }
        proof {
            let docs = choose|docs: Seq<toml::Value>| replaces_in_turn(docs, before, doc, updates@);
            assert(replaces_in_turn(docs, before, doc, updates@));
            assert(updated_text(before, updates@, toml_rendering(doc)));
        }
        match write_manifest(&doc) {
            Ok(out) => Ok(Some(out)),
            Err(e) => Err(e),
        }
    }

    /// The manifest `text` without the dependencies named in `list`, a list
    /// of names separated by `,`, and what was taken out of the normal, the
    /// dev and the build table, in that order. It fails where the text is
    /// no manifest, where an entry to be taken out cannot be read, and else
    /// only where the manifest that is left cannot be written as text.
    pub fn remove_deps(text: &str, list: &str) -> (r: Result<(String, Vec<Vec<Dep>>), DepError>)
        ensures
            match r {
                Ok((out, removed)) => toml_document(text@) matches Some(before) && pruned_text(
                    before,
                    split_on(trimmed(list@), ','),
                    taken_of(removed@),
                    Some(out@),
                ),
                Err(e) => match toml_document(text@) {
                    None => e@ is Storage,
                    Some(before) => removal_fails(before, split_on(trimmed(list@), ','), e@) || (
                    e@ is Storage && pruned_unwritable(before, split_on(trimmed(list@), ','))),
                },
            },
    {
        let mut doc = match read_manifest(text) {
            Ok(doc) => doc,
            Err(e) => {
                return Err(e);
            },
        };
        let wanted = parse_names(list);
        let ghost want = string_views(wanted@);
        let ghost before = doc;
        let ghost mut docs: Seq<toml::Value> = seq![doc];
        let ghost mut taken: Seq<Seq<Resolved>> = Seq::empty();
        let mut removed: Vec<Vec<Dep>> = Vec::new();
        let mut i: usize = 0;
        while i < 3
            invariant
                i <= 3,
                want == string_views(wanted@),
                toml_document(text@) == Some(before),
                want == split_on(trimmed(list@), ','),
                toml_names(doc) is Some,
                docs[i as int] == doc,
                taken == taken_of(removed@),
                prunes_in_turn(docs, before, want, taken, i as int),
            decreases 3 - i,
        {
            let kind = plain(i);
            let ghost here = docs;
            let ghost got = taken;
            match remove_from_kind(&mut doc, &kind, &wanted) {
                Ok(out) => {
                    proof {
                        docs = here.push(doc);
                        taken = got.push(deps_of(out@));
                    }
                    removed.push(out);
                    proof {
                        assert(taken_of(removed@) =~= taken);
                        assert forall|k: int| 0 <= k < i + 1 implies {
                            &&& removed_spec(#[trigger] docs[k], plain_kind(k), want) == Ok::<
                                Seq<Resolved>,
                                Failure,
                            >(taken[k])
                            &&& taken[k].len() == 0 ==> docs[k + 1] == docs[k]
                            &&& taken[k].len() > 0 ==> section_pruned(
                                docs[k],
                                docs[k + 1],
                                plain_kind(k),
                                want,
                            )
                        } by {
                            if k < i {
                                assert(docs[k] == here[k]);
                                assert(docs[k + 1] == here[k + 1]);
                                assert(taken[k] == got[k]);
                                assert(removed_spec(here[k], plain_kind(k), want) == Ok::<
                                    Seq<Resolved>,
                                    Failure,
                                >(got[k]));
                            }
                        }
                        assert(prunes_in_turn(docs, before, want, taken, i + 1));
                    }
                },
                Err(e) => {
                    proof {
                        assert(prunes_in_turn(here, before, want, got, i as int));
                        assert(removal_fails(before, want, e@));
                    }
                    return Err(e);
                },
            }
            i += 1;
        }
        proof {
            assert(prunes_in_turn(docs, before, want, taken_of(removed@), 3));
            assert(pruned_text(before, want, taken_of(removed@), toml_rendering(doc)));
        }
        match write_manifest(&doc) {
            Ok(out) => Ok((out, removed)),
            Err(e) => Err(e),
        }
    }
}

/// The dependencies of the first `n` of the normal, dev and build kinds,
/// one bucket for each kind that holds any, or the failure of the first
/// kind that cannot be read.
pub open spec fn listing(doc: toml::Value, n: int) -> Result<Seq<(Kind, Seq<Resolved>)>, Failure>
    decreases n,
{
    if n <= 0 {
        Ok(Seq::empty())
    } else {
        match listing(doc, n - 1) {
            Err(e) => Err(e),
            Ok(before) => match kind_deps_spec(doc, plain_kind(n - 1)) {
                Err(e) => Err(e),
                Ok(deps) => if deps.len() > 0 {
                    Ok(before.push((plain_kind(n - 1), deps)))
                } else {
                    Ok(before)
                },
            },
        }
    }
}

/// Once a kind cannot be read, the listing fails with that failure.
pub proof fn lemma_listing_failure_stays(doc: toml::Value, n: int)
    requires
        0 <= n <= 3,
        listing(doc, n) is Err,
    ensures
        listing(doc, 3) == listing(doc, n),
    decreases 3 - n,
{
    if n < 3 {
        lemma_listing_failure_stays(doc, n + 1);
    }
}

/// The kinds that were found, each with its dependencies.
pub open spec fn kinds_found(found: Seq<KindUpdate>) -> Seq<(Kind, Seq<Resolved>)> {
    found.map_values(|u: KindUpdate| (u.kind@, deps_of(u.deps@)))
}

/// Whether `needle` occurs in `hay`.
pub open spec fn occurs(hay: Seq<char>, needle: Seq<char>) -> bool {
    exists|i: int|
        0 <= i && i + needle.len() <= hay.len() && #[trigger] hay.subrange(i, i + needle.len())
            == needle
}

/// Whether `needle` occurs in `hay`.
pub fn contains_chars(hay: &Vec<char>, needle: &Vec<char>) -> (r: bool)
    ensures
        r == occurs(hay@, needle@),
{
    let n = needle.len();
    if n > hay.len() {
        return false;
    }
    let last = hay.len() - n;
    let mut i: usize = 0;
    while i <= last
        invariant
            i <= last + 1,
            n == needle.len(),
            last == hay.len() - n,
            forall|k: int| 0 <= k < i ==> #[trigger] hay@.subrange(k, k + n) != needle@,
        decreases last + 1 - i,
    {
        let mut j: usize = 0;
        while j < n && hay[i + j] == needle[j]
            invariant
                j <= n,
                i <= last,
                n == needle.len(),
                last == hay.len() - n,
                hay@.subrange(i as int, i + j) == needle@.take(j as int),
            decreases n - j,
        {
            proof {
                assert(hay@.subrange(i as int, i + j + 1) =~= hay@.subrange(i as int, i + j).push(
                    hay@[i + j],
                ));
                assert(needle@.take(j + 1) =~= needle@.take(j as int).push(needle@[j as int]));
            }
            j += 1;
        }
        if j == n {
            proof {
                assert(needle@.take(n as int) =~= needle@);
            }
            return true;
        }
        proof {
            assert(hay@.subrange(i as int, i + n)[j as int] != needle@[j as int]);
        }
        i += 1;
    }
    false
}

/// The greatest number of characters in the name of a dependency, and in
/// the version of one.
pub open spec fn widths(deps: Seq<Dep>) -> (nat, nat)
    decreases deps.len(),
{
    if deps.len() == 0 {
        (0, 0)
    } else {
        let before = widths(deps.drop_last());
        let name = deps.last().name@.len();
        let version = deps.last().version@.len();
        (
            if before.0 < name {
                name
            } else {
                before.0
            },
            if before.1 < version {
                version
            } else {
                before.1
            },
        )
    }
}

/// The greater of a width and the least width asked for.
pub open spec fn at_least(width: nat, least: nat) -> nat {
    if width < least {
        least
    } else {
        width
    }
}

/// The widths of the name column and of the version column that a list of
/// dependencies needs, at least as wide as `least`.
pub fn column_widths(deps: &Vec<Dep>, least: (usize, usize)) -> (r: (usize, usize))
    ensures
        r.0 == at_least(widths(deps@).0, least.0 as nat),
        r.1 == at_least(widths(deps@).1, least.1 as nat),
{
    let mut names: usize = 0;
    let mut versions: usize = 0;
    let mut i: usize = 0;
    while i < deps.len()
        invariant
            i <= deps.len(),
            (names as nat, versions as nat) == widths(deps@.take(i as int)),
        decreases deps.len() - i,
    {
        proof {
            assert(deps@.take(i + 1).drop_last() =~= deps@.take(i as int));
            assert(deps@.take(i + 1).last() == deps@[i as int]);
        }
        let n = deps[i].name.as_str().unicode_len();
        let v = deps[i].version.as_str().unicode_len();
        if names < n {
            names = n;
        }
        if versions < v {
            versions = v;
        }
        i += 1;
    }
    proof {
        assert(deps@.take(deps.len() as int) =~= deps@);
    }
    (
        if names < least.0 {
            least.0
        } else {
            names
        },
        if versions < least.1 {
            least.1
        } else {
            versions
        },
    )
}

impl Cargo {
    /// The dependencies of the manifest `text`: one bucket for each of the
    /// normal, dev and build kinds that holds any, in that order.
    pub fn list(text: &str) -> (r: Result<Vec<(DType, Vec<Dep>)>, DepError>)
        ensures
            match r {
                Ok(found) => toml_document(text@) matches Some(doc) && listing(doc, 3) == Ok::<
                    Seq<(Kind, Seq<Resolved>)>,
                    Failure,
                >(buckets_of(found@)),
                Err(e) => match toml_document(text@) {
                    None => e@ is Storage,
                    Some(doc) => listing(doc, 3) == Err::<Seq<(Kind, Seq<Resolved>)>, Failure>(e@),
                },
            },
    {
        let doc = match read_manifest(text) {
            Ok(doc) => doc,
            Err(e) => {
                return Err(e);
            },
        };
        let mut found: Vec<(DType, Vec<Dep>)> = Vec::new();
        let mut i: usize = 0;
        proof {
            assert(buckets_of(found@) =~= Seq::<(Kind, Seq<Resolved>)>::empty());
        }
        while i < 3
            invariant
                i <= 3,
                toml_document(text@) == Some(doc),
                listing(doc, i as int) == Ok::<Seq<(Kind, Seq<Resolved>)>, Failure>(
                    buckets_of(found@),
                ),
            decreases 3 - i,
        {
            let kind = plain(i);
            let ghost before = buckets_of(found@);
            match kind_deps(&doc, &kind) {
                Ok(deps) => {
                    if deps.len() > 0 {
                        found.push((kind, deps));
                        proof {
                            assert(buckets_of(found@) =~= before.push((kind@, deps_of(deps@))));
                        }
                    }
                },
                Err(e) => {
                    proof {
                        lemma_listing_failure_stays(doc, i + 1);
                    }
                    return Err(e);
                },
            }
            i += 1;
        }
        Ok(found)
    }

    /// The manifest among the entries of a directory: the first entry whose
    /// path holds `Cargo.toml`.
    pub fn find_in(paths: &Vec<String>) -> (r: Option<Cargo>)
        ensures
            match r {
                Some(found) => exists|i: int|
                    0 <= i < paths@.len() && found.0 == #[trigger] paths@[i] && occurs(
                        paths@[i]@,
                        "Cargo.toml"@,
                    ) && forall|k: int| 0 <= k < i ==> !occurs(#[trigger] paths@[k]@, "Cargo.toml"@),
                None => forall|k: int|
                    0 <= k < paths@.len() ==> !occurs(#[trigger] paths@[k]@, "Cargo.toml"@),
            },
    {
        let needle = chars_of("Cargo.toml");
        let mut i: usize = 0;
        while i < paths.len()
            invariant
                i <= paths.len(),
                needle@ == "Cargo.toml"@,
                forall|k: int| 0 <= k < i ==> !occurs(#[trigger] paths@[k]@, "Cargo.toml"@),
            decreases paths.len() - i,
        {
            if contains_chars(&chars_of(paths[i].as_str()), &needle) {
                return Some(Cargo(paths[i].clone()));
            }
            i += 1;
        }
        None
    }
}

} // verus!
