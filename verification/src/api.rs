//! What the registry knows of one package.

use vstd::prelude::*;
use crate::error::{DepError, Failure};
use crate::table::{
    absent, distinct, find_key, first_at, keys_of, lemma_position_absent, lemma_position_found,
    lemma_position_is_first, position,
};
use crate::text::string_views;
use crate::ver::{version_of, OrdVersion};

verus! {

/// The published versions of one package, each with the names of its
/// features. A version is found at its first entry in `versions`.
#[derive(Debug, Clone)]
pub struct CratesDep {
    pub name: String,
    pub versions: Vec<(String, Vec<String>)>,
}

/// The greatest version among the texts in `keys` that denote one. Texts
/// that denote none are passed over.
pub open spec fn latest(keys: Seq<Seq<char>>) -> Option<OrdVersion>
    decreases keys.len(),
{
    if keys.len() == 0 {
        None
    } else {
        let before = latest(keys.drop_last());
        match version_of(keys.last()) {
            None => before,
            Some(v) => match before {
                None => Some(v),
                Some(m) => if m.precedes(v) {
                    Some(v)
                } else {
                    Some(m)
                },
            },
        }
    }
}

/// `latest` is a version that some text denotes and that no other text's
/// version exceeds; it is missing exactly when no text denotes a version.
pub proof fn lemma_latest_is_greatest(keys: Seq<Seq<char>>)
    ensures
        match latest(keys) {
            Some(m) => {
                &&& exists|i: int| 0 <= i < keys.len() && #[trigger] version_of(keys[i]) == Some(m)
                &&& forall|j: int|
                    0 <= j < keys.len() && version_of(keys[j]) is Some ==> (#[trigger] version_of(
                        keys[j],
                    )).unwrap().at_most(m)
            },
            None => forall|j: int| 0 <= j < keys.len() ==> #[trigger] version_of(keys[j]) is None,
        },
    decreases keys.len(),
{
    if keys.len() > 0 {
        let front = keys.drop_last();
        let last = keys.len() - 1;
        lemma_latest_is_greatest(front);
        assert forall|j: int| 0 <= j < front.len() implies front[j] == keys[j] by {}
        match latest(keys) {
            Some(m) => {
                if version_of(keys.last()) == Some(m) {
                    assert(version_of(keys[last]) == Some(m));
                } else {
                    let i = choose|i: int|
                        0 <= i < front.len() && #[trigger] version_of(front[i]) == Some(m);
                    assert(version_of(keys[i]) == Some(m));
                }
                assert forall|j: int|
                    0 <= j < keys.len() && version_of(keys[j]) is Some implies (
                #[trigger] version_of(keys[j])).unwrap().at_most(m) by {
                    if j < last {
                        assert(version_of(front[j]) is Some);
                    }
                }
            },
            None => {
                assert forall|j: int| 0 <= j < keys.len() implies #[trigger] version_of(
                    keys[j],
                ) is None by {
                    if j < last {
                        assert(version_of(front[j]) is None);
                    }
                }
            },
        }
    }
}

/// The keys of a list of recorded versions, in order.
pub open spec fn recorded_keys(entries: Seq<(Seq<char>, Seq<Seq<char>>)>) -> Seq<Seq<char>> {
    entries.map_values(|e: (Seq<char>, Seq<Seq<char>>)| e.0)
}

/// The recorded versions with `features` recorded for `num`: in the place
/// of what was recorded for it, or at the end where nothing was.
pub open spec fn record(
    entries: Seq<(Seq<char>, Seq<Seq<char>>)>,
    num: Seq<char>,
    features: Seq<Seq<char>>,
) -> Seq<(Seq<char>, Seq<Seq<char>>)> {
    match position(recorded_keys(entries), num) {
        Some(i) => entries.update(i, (num, features)),
        None => entries.push((num, features)),
    }
}

impl CratesDep {
    /// The recorded versions with their features, in order.
    pub open spec fn entries(&self) -> Seq<(Seq<char>, Seq<Seq<char>>)> {
        self.versions@.map_values(|e: (String, Vec<String>)| (e.0@, string_views(e.1@)))
    }

    /// The version texts, in order.
    pub open spec fn keys(&self) -> Seq<Seq<char>> {
        keys_of(self.versions@)
    }

    /// Whether each version is recorded once.
    pub open spec fn wf(&self) -> bool {
        distinct(self.keys())
    }

    /// The features recorded for the version `key`, if it is recorded.
    pub open spec fn features_of(&self, key: Seq<char>) -> Option<Seq<Seq<char>>> {
        match position(self.keys(), key) {
            Some(i) => Some(string_views(self.versions@[i].1@)),
            None => None,
        }
    }

    /// The text of the greatest version, if any version can be read.
    pub open spec fn latest_text(&self) -> Option<Seq<char>> {
        match latest(self.keys()) {
            Some(m) => Some(m.text()),
            None => None,
        }
    }

    /// A snapshot of the package `name` without versions.
    pub fn new(name: String) -> (r: CratesDep)
        ensures
            r.name == name,
            r.versions@.len() == 0,
            r.wf(),
    {
        CratesDep { name, versions: Vec::new() }
    }

    /// Records `features` for the version `num`, in place of what was
    /// recorded for it before.
    pub fn insert(&mut self, num: String, features: Vec<String>)
        ensures
            final(self).name == old(self).name,
            match position(old(self).keys(), num@) {
                Some(i) => final(self).versions@ == old(self).versions@.update(i, (num, features)),
                None => final(self).versions@ == old(self).versions@.push((num, features)),
            },
            final(self).entries() == record(old(self).entries(), num@, string_views(features@)),
            final(self).features_of(num@) == Some(string_views(features@)),
            forall|key: Seq<char>|
                key != num@ ==> final(self).features_of(key) == old(self).features_of(key),
            old(self).wf() ==> final(self).wf(),
    {
        let ghost before = self.versions@;
        let ghost keys = keys_of(before);
        let ghost listed = self.entries();
        proof {
            lemma_position_is_first(keys, num@);
            assert(recorded_keys(listed) =~= keys);
        }
        match find_key(&self.versions, &num) {
            Some(i) => {
                self.versions.set(i, (num, features));
                proof {
                    let now = keys_of(self.versions@);
                    assert(now =~= keys);
                    assert(self.entries() =~= listed.update(
                        i as int,
                        (num@, string_views(features@)),
                    ));
                }
            },
            None => {
                self.versions.push((num, features));
                proof {
                    let now = keys_of(self.versions@);
                    let n = keys.len() as int;
                    assert(now =~= keys.push(num@));
                    assert(self.entries() =~= listed.push((num@, string_views(features@))));
                    assert(first_at(now, num@, n));
                    lemma_position_found(now, num@, n);
                    assert forall|key: Seq<char>| key != num@ implies self.features_of(key) == (
                    match position(keys, key) {
                        Some(i) => Some(string_views(before[i].1@)),
                        None => None,
                    }) by {
                        lemma_position_is_first(keys, key);
                        match position(keys, key) {
                            Some(i) => {
                                assert(first_at(now, key, i));
                                lemma_position_found(now, key, i);
                            },
                            None => {
                                assert(absent(now, key));
                                lemma_position_absent(now, key);
                            },
                        }
                    }
                }
            },
        }
    }

    /// Whether the version `vs` is recorded, by its exact text.
    pub fn has_version(&self, vs: &str) -> (r: bool)
        ensures
            r == self.features_of(vs@) is Some,
    {
        let key = vs.to_owned();
        find_key(&self.versions, &key).is_some()
    }

    /// The features recorded for the version `vs`.
    pub fn get_features(&self, vs: &str) -> (r: Option<&Vec<String>>)
        ensures
            match r {
                Some(fs) => self.features_of(vs@) == Some(string_views(fs@)),
                None => self.features_of(vs@) is None,
            },
    {
        let key = vs.to_owned();
        match find_key(&self.versions, &key) {
            Some(i) => Some(&self.versions[i].1),
            None => None,
        }
    }

    /// The greatest recorded version, written as `major.minor.patch`.
    ///
    /// Version texts that cannot be read are passed over. Where none can be
    /// read there is no latest version.
    pub fn get_last_version(&self) -> (r: Result<String, DepError>)
        ensures
            match r {
                Ok(text) => self.latest_text() == Some(text@),
                Err(e) => self.latest_text() is None && e@ == Failure::EmptyRegistryResult,
            },
    {
        let mut best: Option<OrdVersion> = None;
        let mut i: usize = 0;
        while i < self.versions.len()
            invariant
                i <= self.versions.len(),
                best == latest(self.keys().take(i as int)),
            decreases self.versions.len() - i,
        {
            proof {
                assert(self.keys().take(i + 1).drop_last() =~= self.keys().take(i as int));
                assert(self.keys().take(i + 1).last() == self.versions@[i as int].0@);
            }
            match OrdVersion::parse(self.versions[i].0.as_str()) {
                Ok(v) => {
                    best = match best {
                        None => Some(v),
                        Some(m) => if m.is_before(&v) {
                            Some(v)
                        } else {
                            Some(m)
                        },
                    };
                },
                Err(_) => {},
            }
            i += 1;
        }
        proof {
            assert(self.keys().take(self.versions.len() as int) =~= self.keys());
        }
        match best {
            Some(m) => Ok(m.to_string()),
            None => Err(DepError::EmptyRegistryResult),
        }
    }
}

} // verus!
