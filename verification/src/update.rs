//! Bringing the dependencies of a manifest to their latest versions, and
//! taking dependencies out of it.

use vstd::prelude::*;
use crate::api::CratesDep;
use crate::cargo::deps_of;
use crate::dep::{DType, Dep, Resolved};
use crate::error::{DepError, Failure};
use crate::manifest::toml_names;
use crate::merge::{replace_section, section_replaced};
use crate::text::string_views;
use crate::ver::{lemma_text_reads_back, version_of, OrdVersion};

verus! {

/// Whether the text `new` denotes a later version than the text `old`, in
/// the order of versions. A text that denotes no version is neither later
/// nor earlier than another: no change is counted for it.
pub open spec fn later(new: Seq<char>, old: Seq<char>) -> bool {
    match (version_of(old), version_of(new)) {
        (Some(before), Some(after)) => before.precedes(after),
        _ => false,
    }
}

/// Between the texts of two versions, the later text is the one of the
/// later version.
pub proof fn lemma_later_of_texts(old: OrdVersion, new: OrdVersion)
    ensures
        later(new.text(), old.text()) == old.precedes(new),
{
    lemma_text_reads_back(old);
    lemma_text_reads_back(new);
}

/// Whether `new` denotes a later version than `old`.
pub fn is_later(new: &str, old: &str) -> (r: bool)
    ensures
        r == later(new@, old@),
{
    match (OrdVersion::parse(old), OrdVersion::parse(new)) {
        (Ok(before), Ok(after)) => before.is_before(&after),
        _ => false,
    }
}

/// How many of the first `n` dependencies have a version that is later
/// than the old version at the same place.
pub open spec fn changed_among(news: Seq<Resolved>, olds: Seq<Seq<char>>, n: int) -> nat
    decreases n,
{
    if n <= 0 {
        0
    } else {
        changed_among(news, olds, n - 1) + if later(news[n - 1].version, olds[n - 1]) {
            1nat
        } else {
            0nat
        }
    }
}

/// How many dependencies have a version that is later than their old one.
/// Dependencies and old versions are paired by place.
pub open spec fn changed(news: Seq<Resolved>, olds: Seq<Seq<char>>) -> nat {
    changed_among(news, olds, if news.len() <= olds.len() {
        news.len() as int
    } else {
        olds.len() as int
    })
}

/// Where every version is the old one, nothing has changed.
pub proof fn lemma_same_versions_change_nothing(news: Seq<Resolved>, olds: Seq<Seq<char>>, n: int)
    requires
        0 <= n <= news.len(),
        n <= olds.len(),
        forall|i: int| 0 <= i < n ==> (#[trigger] news[i]).version == olds[i],
    ensures
        changed_among(news, olds, n) == 0,
    decreases n,
{
    if n > 0 {
        lemma_same_versions_change_nothing(news, olds, n - 1);
    }
}

/// Counts the dependencies whose version is later than their old version.
pub fn count_changed(news: &Vec<Dep>, olds: &Vec<String>) -> (r: usize)
    ensures
        r == changed(deps_of(news@), string_views(olds@)),
{
    let n = if news.len() <= olds.len() {
        news.len()
    } else {
        olds.len()
    };
    let mut count: usize = 0;
    let mut i: usize = 0;
    while i < n
        invariant
            i <= n,
            n <= news.len(),
            n <= olds.len(),
            count <= i,
            count == changed_among(deps_of(news@), string_views(olds@), i as int),
        decreases n - i,
    {
        if is_later(news[i].version.as_str(), olds[i].as_str()) {
            count += 1;
        }
        i += 1;
    }
    count
}

/// The dependencies at their latest versions: the `i`-th one with the
/// latest version of the `i`-th snapshot. A dependency whose snapshot is
/// missing or holds no readable version is left out.
pub open spec fn updated(olds: Seq<Resolved>, fetched: Seq<Option<CratesDep>>, n: int) -> Seq<
    Resolved,
>
    decreases n,
{
    if n <= 0 {
        Seq::empty()
    } else {
        let before = updated(olds, fetched, n - 1);
        if n - 1 < fetched.len() && fetched[n - 1] is Some && fetched[n - 1].unwrap().latest_text() is Some {
            before.push(
                Resolved { version: fetched[n - 1].unwrap().latest_text().unwrap(), ..olds[n - 1] },
            )
        } else {
            before
        }
    }
}

/// At most one dependency comes out for each one that goes in.
pub proof fn lemma_updated_len(olds: Seq<Resolved>, fetched: Seq<Option<CratesDep>>, n: int)
    requires
        0 <= n,
    ensures
        updated(olds, fetched, n).len() <= n,
    decreases n,
{
    if n > 0 {
        lemma_updated_len(olds, fetched, n - 1);
    }
}

/// Sets each dependency to the latest version of its snapshot. Snapshots
/// and dependencies are paired by place. Where any dependency cannot be
/// brought up to date, the whole kind fails, with the count of those that
/// could.
pub fn update_all(olds: &Vec<Dep>, fetched: &Vec<Option<CratesDep>>) -> (r: Result<
    Vec<Dep>,
    DepError,
>)
    ensures
        match r {
            Ok(news) => deps_of(news@) == updated(deps_of(olds@), fetched@, olds@.len() as int)
                && news@.len() == olds@.len(),
            Err(e) => updated(deps_of(olds@), fetched@, olds@.len() as int).len() != olds@.len()
                && e@ == (Failure::BatchFetchMismatch {
                expected: olds@.len(),
                received: updated(deps_of(olds@), fetched@, olds@.len() as int).len(),
            }),
        },
{
    let mut news: Vec<Dep> = Vec::new();
    let mut i: usize = 0;
    proof {
        assert(deps_of(news@) =~= updated(deps_of(olds@), fetched@, 0));
    }
    while i < olds.len()
        invariant
            i <= olds.len(),
            deps_of(news@) == updated(deps_of(olds@), fetched@, i as int),
            news@.len() <= i,
        decreases olds.len() - i,
    {
        let ghost before = deps_of(news@);
        if i < fetched.len() {
            match &fetched[i] {
                Some(snapshot) => match snapshot.get_last_version() {
                    Ok(version) => {
                        let fresh = Dep {
                            name: olds[i].name.clone(),
                            version,
                            features: copy_features(&olds[i].features),
                        };
                        news.push(fresh);
                        proof {
                            assert(deps_of(news@) =~= before.push(fresh@));
                        }
                    },
                    Err(_) => {},
                },
                None => {},
            }
        }
        i += 1;
    }
    if news.len() == olds.len() {
        Ok(news)
    } else {
        Err(DepError::BatchFetchMismatch { expected: olds.len(), received: news.len() })
    }
}

/// A copy of a feature selection.
pub fn copy_features(features: &Option<Vec<String>>) -> (out: Option<Vec<String>>)
    ensures
        match (features, out) {
            (Some(a), Some(b)) => string_views(a@) == string_views(b@),
            (None, None) => true,
            _ => false,
        },
{
    match features {
        None => None,
        Some(fs) => {
            let mut out: Vec<String> = Vec::new();
            let mut i: usize = 0;
            while i < fs.len()
                invariant
                    i <= fs.len(),
                    string_views(out@) == string_views(fs@).take(i as int),
                decreases fs.len() - i,
            {
                let ghost before = string_views(out@);
                let item = fs[i].clone();
                out.push(item);
                proof {
                    assert(string_views(out@) =~= before.push(item@));
                }
                i += 1;
            }
            proof {
                assert(string_views(fs@).take(fs.len() as int) =~= string_views(fs@));
            }
            Some(out)
        },
    }
}

/// The outcome of bringing the dependencies of one kind up to date: the
/// dependencies at their new versions, and the versions that they had.
#[derive(Debug, Clone)]
pub struct KindUpdate {
    pub kind: DType,
    pub deps: Vec<Dep>,
    pub old_versions: Vec<String>,
}

impl KindUpdate {
    /// How many dependencies of the kind got a later version.
    pub open spec fn changes(self) -> nat {
        changed(deps_of(self.deps@), string_views(self.old_versions@))
    }
}

/// How many of the first `n` kinds have at least one dependency with a
/// later version.
pub open spec fn kinds_changed(updates: Seq<KindUpdate>, n: int) -> nat
    decreases n,
{
    if n <= 0 {
        0
    } else {
        kinds_changed(updates, n - 1) + if updates[n - 1].changes() > 0 {
            1nat
        } else {
            0nat
        }
    }
}

/// Whether `docs` leads from the document `before` to the document `after`
/// by putting the table of each kind anew, one after the other.
pub open spec fn replaces_in_turn(
    docs: Seq<toml::Value>,
    before: toml::Value,
    after: toml::Value,
    updates: Seq<KindUpdate>,
) -> bool {
    &&& docs.len() == updates.len() + 1
    &&& docs[0] == before
    &&& docs.last() == after
    &&& forall|i: int|
        0 <= i < updates.len() ==> section_replaced(
            #[trigger] docs[i],
            docs[i + 1],
            updates[i].kind@,
            deps_of(updates[i].deps@),
        )
}

/// Puts the updated dependencies of every kind into the document and
/// counts the kinds in which some version became later. The document is
/// worth writing back only where that count is above zero; with a count of
/// zero there was nothing to update. A document that is no table is left
/// as it is.
pub fn apply_updates(doc: &mut toml::Value, updates: &Vec<KindUpdate>) -> (r: usize)
    ensures
        r == kinds_changed(updates@, updates@.len() as int),
        toml_names(*old(doc)) is Some ==> exists|docs: Seq<toml::Value>|
            replaces_in_turn(docs, *old(doc), *final(doc), updates@),
        toml_names(*old(doc)) is None ==> *final(doc) == *old(doc),
{
    let ghost mut docs: Seq<toml::Value> = seq![*doc];
    let mut count: usize = 0;
    let mut i: usize = 0;
    while i < updates.len()
        invariant
            i <= updates.len(),
            count <= i,
            count == kinds_changed(updates@, i as int),
            toml_names(*old(doc)) is Some ==> toml_names(*doc) is Some && replaces_in_turn(
                docs,
                *old(doc),
                *doc,
                updates@.take(i as int),
            ),
            toml_names(*old(doc)) is None ==> *doc == *old(doc),
        decreases updates.len() - i,
    {
        let ghost before = docs;
        replace_section(doc, &updates[i].kind, &updates[i].deps);
        proof {
            docs = before.push(*doc);
            let now = updates@.take(i + 1);
            assert forall|k: int|
                toml_names(*old(doc)) is Some && 0 <= k < now.len() implies section_replaced(
                #[trigger] docs[k],
                docs[k + 1],
                now[k].kind@,
                deps_of(now[k].deps@),
            ) by {
                if k < i {
                    assert(docs[k] == before[k]);
                    assert(docs[k + 1] == before[k + 1]);
                    assert(updates@.take(i as int)[k] == now[k]);
                    assert(section_replaced(
                        before[k],
                        before[k + 1],
                        updates@.take(i as int)[k].kind@,
                        deps_of(updates@.take(i as int)[k].deps@),
                    ));
                } else {
                    assert(docs[k] == before.last());
                }
            }
        }
        if count_changed(&updates[i].deps, &updates[i].old_versions) > 0 {
            count += 1;
        }
        i += 1;
    }
    proof {
        assert(updates@.take(updates.len() as int) =~= updates@);
    }
    count
}

/// Where no dependency of any kind got a later version, no kind counts as
/// changed, and nothing is to be written.
pub proof fn lemma_nothing_changed(updates: Seq<KindUpdate>, n: int)
    requires
        0 <= n <= updates.len(),
        forall|i: int| 0 <= i < n ==> (#[trigger] updates[i]).changes() == 0,
    ensures
        kinds_changed(updates, n) == 0,
    decreases n,
{
    if n > 0 {
        lemma_nothing_changed(updates, n - 1);
    }
}

} // verus!
