//! The aliases that a user has defined: names that stand for one or more
//! dependency tokens.

use vstd::prelude::*;
use vstd::string::StringExecFns;
use crate::error::{DepError, Failure};
use crate::parse::alias_of;
use crate::table::{
    absent, distinct, find_key, first_at, keys_of, lemma_position_absent, lemma_position_found,
    lemma_position_is_first, position,
};
use crate::text::string_views;
use crate::wire::{
    json_document, json_get, json_keys, json_member, json_names, json_text, read_json,
};

verus! {

/// The aliases, and the path of the file that keeps them. An alias is found
/// at its first entry in `aliases`.
#[derive(Debug, Clone)]
pub struct AliasStorage {
    pub path: String,
    pub aliases: Vec<(String, String)>,
}

/// The views of a list of aliases.
pub open spec fn pairs_of(aliases: Seq<(String, String)>) -> Seq<(Seq<char>, Seq<char>)> {
    aliases.map_values(|e: (String, String)| (e.0@, e.1@))
}

/// Why stored text holds no aliases.
pub enum Corruption {
    /// The text is not JSON.
    NotJson,
    /// The value under this key is no text.
    NotText(Seq<char>),
}

/// The aliases that an object holds under `keys`, in that order, or the
/// first key whose value is no text.
pub open spec fn aliases_under(v: serde_json::Value, keys: Seq<Seq<char>>) -> Result<
    Seq<(Seq<char>, Seq<char>)>,
    Corruption,
>
    decreases keys.len(),
{
    if keys.len() == 0 {
        Ok(Seq::empty())
    } else {
        match aliases_under(v, keys.drop_last()) {
            Err(c) => Err(c),
            Ok(before) => match json_member(v, keys.last()) {
                Some(m) => match json_text(m) {
                    Some(text) => Ok(before.push((keys.last(), text))),
                    None => Err(Corruption::NotText(keys.last())),
                },
                None => Err(Corruption::NotText(keys.last())),
            },
        }
    }
}

/// The aliases that stored text holds. Empty text holds none, and neither
/// does JSON that is no object.
pub open spec fn stored_aliases(content: Seq<char>) -> Result<
    Seq<(Seq<char>, Seq<char>)>,
    Corruption,
> {
    if content.len() == 0 {
        Ok(Seq::empty())
    } else {
        match json_document(content) {
            None => Err(Corruption::NotJson),
            Some(v) => match json_names(v) {
                None => Ok(Seq::empty()),
                Some(keys) => aliases_under(v, keys),
            },
        }
    }
}

/// Once a value is no text, the whole object is refused for it.
pub proof fn lemma_corruption_stays(v: serde_json::Value, keys: Seq<Seq<char>>, n: int)
    requires
        0 <= n <= keys.len(),
        aliases_under(v, keys.take(n)) is Err,
    ensures
        aliases_under(v, keys) == aliases_under(v, keys.take(n)),
    decreases keys.len() - n,
{
    if n < keys.len() {
        assert(keys.take(n + 1).drop_last() =~= keys.take(n));
        lemma_corruption_stays(v, keys, n + 1);
    } else {
        assert(keys.take(n) =~= keys);
    }
}

impl AliasStorage {
    /// Whether each alias is defined once.
    pub open spec fn wf(&self) -> bool {
        distinct(keys_of(self.aliases@))
    }

    /// What the alias `key` stands for, if it is defined.
    pub open spec fn value_of(&self, key: Seq<char>) -> Option<Seq<char>> {
        alias_of(self.aliases@, key)
    }

    /// Reads the aliases from the text that the file at `path` holds. Text
    /// that is not JSON is refused with the cause, and a value that is no
    /// text with its key.
    pub fn parse(path: String, content: &str) -> (r: Result<AliasStorage, DepError>)
        ensures
            match r {
                Ok(storage) => stored_aliases(content@) == Ok::<
                    Seq<(Seq<char>, Seq<char>)>,
                    Corruption,
                >(pairs_of(storage.aliases@)) && storage.path == path && storage.wf(),
                Err(e) => match stored_aliases(content@) {
                    Err(Corruption::NotText(key)) => e@ == Failure::Storage(
                        "The alias storage is corrupted. Value is not String: "@ + key,
                    ),
                    Err(Corruption::NotJson) => e@ is Storage,
                    Ok(_) => false,
                },
            },
    {
        let mut aliases: Vec<(String, String)> = Vec::new();
        proof {
            assert(pairs_of(aliases@) =~= Seq::<(Seq<char>, Seq<char>)>::empty());
        }
        if content.unicode_len() == 0 {
            return Ok(AliasStorage { path, aliases });
        }
        let v = match read_json(content) {
            Ok(v) => v,
            Err(cause) => {
                return Err(DepError::Storage(cause));
            },
        };
        let keys = match json_keys(&v) {
            Some(keys) => keys,
            None => {
                return Ok(AliasStorage { path, aliases });
            },
        };
        let ghost all = string_views(keys@);
        let mut i: usize = 0;
        while i < keys.len()
            invariant
                i <= keys.len(),
                all == string_views(keys@),
                all.no_duplicates(),
                content@.len() != 0,
                json_document(content@) == Some(v),
                json_names(v) == Some(all),
                aliases_under(v, all.take(i as int)) == Ok::<
                    Seq<(Seq<char>, Seq<char>)>,
                    Corruption,
                >(pairs_of(aliases@)),
                keys_of(aliases@) == all.take(i as int),
            decreases keys.len() - i,
        {
            proof {
                assert(all.take(i + 1).drop_last() =~= all.take(i as int));
                assert(all.take(i + 1).last() == keys@[i as int]@);
            }
            let ghost before = pairs_of(aliases@);
            let ghost before_keys = keys_of(aliases@);
            let text = match json_get(&v, keys[i].as_str()) {
                Some(m) => match m.as_str() {
                    Some(text) => Some(text.to_owned()),
                    None => None,
                },
                None => None,
            };
            match text {
                Some(text) => {
                    let key = keys[i].clone();
                    aliases.push((key, text));
                    proof {
                        assert(pairs_of(aliases@) =~= before.push((key@, text@)));
                        assert(keys_of(aliases@) =~= before_keys.push(key@));
                        assert(all.take(i + 1) =~= all.take(i as int).push(key@));
                    }
                },
                None => {
                    proof {
                        assert(aliases_under(v, all.take(i + 1)) == Err::<
                            Seq<(Seq<char>, Seq<char>)>,
                            Corruption,
                        >(Corruption::NotText(keys@[i as int]@)));
                        lemma_corruption_stays(v, all, i + 1);
                    }
                    let mut cause = String::from_str(
                        "The alias storage is corrupted. Value is not String: ",
                    );
                    cause.append(keys[i].as_str());
                    return Err(DepError::Storage(cause));
                },
            }
            i += 1;
        }
        proof {
            assert(all.take(keys.len() as int) =~= all);
            assert forall|a: int, b: int| 0 <= a < b < keys_of(aliases@).len() implies keys_of(
                aliases@,
            )[a] != keys_of(aliases@)[b] by {
                assert(all[a] != all[b]);
            }
        }
        Ok(AliasStorage { path, aliases })
    }

    /// What the alias `k` stands for.
    pub fn get(&self, k: &str) -> (r: Option<&String>)
        ensures
            match r {
                Some(v) => self.value_of(k@) == Some(v@),
                None => self.value_of(k@) is None,
            },
    {
        let key = k.to_owned();
        match find_key(&self.aliases, &key) {
            Some(i) => Some(&self.aliases[i].1),
            None => None,
        }
    }

    /// Defines the alias `k` as `v`, and hands out what it stood for
    /// before.
    pub fn add(&mut self, k: &str, v: &str) -> (r: Option<String>)
        ensures
            final(self).path == old(self).path,
            match r {
                Some(before) => old(self).value_of(k@) == Some(before@),
                None => old(self).value_of(k@) is None,
            },
            final(self).value_of(k@) == Some(v@),
            forall|other: Seq<char>|
                other != k@ ==> final(self).value_of(other) == old(self).value_of(other),
            old(self).wf() ==> final(self).wf(),
    {
        let key = k.to_owned();
        let value = v.to_owned();
        let ghost keys = keys_of(self.aliases@);
        let ghost listed = self.aliases@;
        proof {
            lemma_position_is_first(keys, k@);
        }
        match find_key(&self.aliases, &key) {
            Some(i) => {
                let (_, before) = self.aliases.remove(i);
                self.aliases.insert(i, (key, value));
                proof {
                    let now = keys_of(self.aliases@);
                    assert(now =~= keys);
                    assert(self.aliases@[i as int].1@ == v@);
                    assert forall|other: Seq<char>| other != k@ implies self.value_of(other) == (
                    match position(keys, other) {
                        Some(j) => Some(listed[j].1@),
                        None => None,
                    }) by {
                        lemma_position_is_first(keys, other);
                        match position(keys, other) {
                            Some(j) => {
                                assert(self.aliases@[j] == listed[j]);
                            },
                            None => {},
                        }
                    }
                }
                Some(before)
            },
            None => {
                self.aliases.push((key, value));
                proof {
                    let now = keys_of(self.aliases@);
                    let n = keys.len() as int;
                    assert(now =~= keys.push(k@));
                    assert(first_at(now, k@, n));
                    lemma_position_found(now, k@, n);
                    assert forall|other: Seq<char>| other != k@ implies self.value_of(other) == (
                    match position(keys, other) {
                        Some(j) => Some(listed[j].1@),
                        None => None,
                    }) by {
                        lemma_position_is_first(keys, other);
                        match position(keys, other) {
                            Some(j) => {
                                assert(first_at(now, other, j));
                                lemma_position_found(now, other, j);
                            },
                            None => {
                                assert(absent(now, other));
                                lemma_position_absent(now, other);
                            },
                        }
                    }
                }
                None
            },
        }
    }

    /// Takes the alias `k` away, and hands out what it stood for.
    pub fn rem(&mut self, k: &str) -> (r: Option<String>)
        ensures
            final(self).path == old(self).path,
            match r {
                Some(before) => old(self).value_of(k@) == Some(before@),
                None => old(self).value_of(k@) is None && final(self).aliases@ == old(
                    self,
                ).aliases@,
            },
            old(self).wf() ==> final(self).wf() && final(self).value_of(k@) is None && forall|
                other: Seq<char>,
            |
                other != k@ ==> final(self).value_of(other) == old(self).value_of(other),
    {
        let key = k.to_owned();
        let ghost keys = keys_of(self.aliases@);
        let ghost listed = self.aliases@;
        proof {
            lemma_position_is_first(keys, k@);
        }
        match find_key(&self.aliases, &key) {
            Some(i) => {
                let (_, before) = self.aliases.remove(i);
                proof {
                    let now = keys_of(self.aliases@);
                    assert(now =~= keys.remove(i as int));
                    if old(self).wf() {
                        assert forall|a: int, b: int| 0 <= a < b < now.len() implies now[a]
                            != now[b] by {
                            let x = if a < i { a } else { a + 1 };
                            let y = if b < i { b } else { b + 1 };
                            assert(keys[x] != keys[y]);
                        }
                        assert(absent(now, k@)) by {
                            assert forall|j: int| 0 <= j < now.len() implies now[j] != k@ by {
                                let x = if j < i { j } else { j + 1 };
                                assert(keys[x] != keys[i as int]);
                            }
                        }
                        lemma_position_absent(now, k@);
                        assert forall|other: Seq<char>| other != k@ implies self.value_of(other)
                            == (match position(keys, other) {
                            Some(j) => Some(listed[j].1@),
                            None => None,
                        }) by {
                            lemma_position_is_first(keys, other);
                            match position(keys, other) {
                                Some(j) => {
                                    let x = if j < i { j } else { j - 1 };
                                    assert(now[x] == other);
                                    assert forall|m: int| 0 <= m < x implies now[m] != other by {
                                        let y = if m < i { m } else { m + 1 };
                                        assert(keys[y] != other);
                                    }
                                    assert(first_at(now, other, x));
                                    lemma_position_found(now, other, x);
                                    assert(self.aliases@[x] == listed[j]);
                                },
                                None => {
                                    assert forall|m: int| 0 <= m < now.len() implies now[m]
                                        != other by {
                                        let y = if m < i { m } else { m + 1 };
                                        assert(keys[y] != other);
                                    }
                                    lemma_position_absent(now, other);
                                },
                            }
                        }
                    }
                }
                Some(before)
            },
            None => None,
        }
    }

    /// All the aliases.
    pub fn list(&self) -> (r: &Vec<(String, String)>)
        ensures
            r@ == self.aliases@,
    {
        &self.aliases
    }
}

} // verus!
