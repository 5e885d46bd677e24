//! Dependencies as they stand in a manifest, and the rules that resolve a
//! request against the registry.

use vstd::prelude::*;
use vstd::string::StringExecFns;
use crate::api::CratesDep;
use crate::error::{outcome, DepError, Failure};
use crate::manifest::{
    array_value, empty_table, member, set_member, text_value, toml_items, toml_member, toml_names,
    toml_text,
};
use crate::parse::{PDep, Request};
use crate::text::{lowercase, 
    chars_of, split_chars, split_on, string_of, string_views, texts, trimmed, trim_chars, same_text,
};

verus! {

/// The table of a manifest that a dependency belongs to.
#[derive(Hash, Debug, Clone, PartialEq, Eq, PartialOrd, Ord)]
pub enum DType {
    Normal,
    Dev,
    Build,
    /// A table for one platform; holds the condition as it was written.
    OS(String),
}

/// The mathematical content of a [`DType`].
pub enum Kind {
    Normal,
    Dev,
    Build,
    OS(Seq<char>),
}

impl View for DType {
    type V = Kind;

    open spec fn view(&self) -> Kind {
        match *self {
            DType::Normal => Kind::Normal,
            DType::Dev => Kind::Dev,
            DType::Build => Kind::Build,
            DType::OS(os) => Kind::OS(os@),
        }
    }
}

/// The kind that a target tag in lower case names: `dev` and `build` name
/// their tables, `normal` and a blank tag the normal table, and any other
/// tag a platform.
pub open spec fn kind_of_lowered(low: Seq<char>) -> Kind {
    if low == "dev"@ {
        Kind::Dev
    } else if low == "build"@ {
        Kind::Build
    } else if low == "normal"@ {
        Kind::Normal
    } else if trimmed(low).len() == 0 {
        Kind::Normal
    } else {
        Kind::OS(low)
    }
}

/// The kind that a target tag names. The tag is read without regard to
/// case: an empty tag names the normal table, and any other tag what its
/// lower-case form names.
pub open spec fn kind_of(tag: Seq<char>) -> Kind {
    if tag.len() == 0 {
        Kind::Normal
    } else {
        kind_of_lowered(lowercase(tag))
    }
}

/// The name of the manifest table of a kind.
pub open spec fn field_of(kind: Kind) -> Seq<char> {
    match kind {
        Kind::Normal => "dependencies"@,
        Kind::Dev => "dev-dependencies"@,
        Kind::Build => "build-dependencies"@,
        Kind::OS(os) => "target.'cfg("@ + os + ")'.dependencies"@,
    }
}

/// The tag that names a kind.
pub open spec fn tag_of(kind: Kind) -> Seq<char> {
    match kind {
        Kind::Normal => "normal"@,
        Kind::Dev => "dev"@,
        Kind::Build => "build"@,
        Kind::OS(os) => os,
    }
}

/// Kinds that differ have tables of different names.
pub proof fn lemma_fields_differ(a: Kind, b: Kind)
    requires
        a != b,
    ensures
        field_of(a) != field_of(b),
{
    reveal_strlit("dependencies");
    reveal_strlit("dev-dependencies");
    reveal_strlit("build-dependencies");
    reveal_strlit("target.'cfg(");
    reveal_strlit(")'.dependencies");
    let head = "target.'cfg("@;
    let tail = ")'.dependencies"@;
    assert("dependencies"@.len() == 12);
    assert("dev-dependencies"@.len() == 16);
    assert("build-dependencies"@.len() == 18);
    assert(head.len() == 12);
    assert(tail.len() == 15);
    assert("dependencies"@[0] == 'd');
    assert("dev-dependencies"@[0] == 'd');
    assert("build-dependencies"@[0] == 'b');
    assert(head[0] == 't');
    match (a, b) {
        (Kind::OS(x), Kind::OS(y)) => {
            let fa = head + x + tail;
            let fb = head + y + tail;
            if fa == fb {
                assert(fa.len() == fb.len());
                assert(x.len() == y.len());
                assert forall|i: int| 0 <= i < x.len() implies x[i] == y[i] by {
                    assert(fa[12 + i] == x[i]);
                    assert(fb[12 + i] == y[i]);
                }
                assert(x =~= y);
            }
        },
        (Kind::OS(x), _) => {
            assert((head + x + tail)[0] == 't');
        },
        (_, Kind::OS(y)) => {
            assert((head + y + tail)[0] == 't');
        },
        _ => {},
    }
}

impl DType {
    /// The kind that the target tag `low`, which is in lower case, names.
    pub fn from_lowered(low: &str) -> (r: DType)
        ensures
            r@ == kind_of_lowered(low@),
    {
        if same_text(low, "dev") {
            DType::Dev
        } else if same_text(low, "build") {
            DType::Build
        } else if same_text(low, "normal") {
            DType::Normal
        } else {
            let blank = trim_chars(&chars_of(low)).len() == 0;
            if blank {
                DType::Normal
            } else {
                DType::OS(low.to_owned())
            }
        }
    }

    /// The kind that the target tag `s` names.
    pub fn from(s: &str) -> (r: DType)
        ensures
            r@ == kind_of(s@),
    {
        if s.unicode_len() == 0 {
            return DType::Normal;
        }
        let low = s.to_lowercase();
        DType::from_lowered(low.as_str())
    }

    /// The name of the manifest table that holds dependencies of this kind.
    pub fn to_cargo_field(&self) -> (r: String)
        ensures
            r@ == field_of(self@),
    {
        match self {
            DType::Normal => String::from_str("dependencies"),
            DType::Dev => String::from_str("dev-dependencies"),
            DType::Build => String::from_str("build-dependencies"),
            DType::OS(os) => {
                let mut out = String::from_str("target.'cfg(");
                out.append(os.as_str());
                out.append(")'.dependencies");
                out
            },
        }
    }

    /// The tag that names this kind.
    pub fn to_string(&self) -> (r: String)
        ensures
            r@ == tag_of(self@),
    {
        match self {
            DType::Normal => String::from_str("normal"),
            DType::Dev => String::from_str("dev"),
            DType::Build => String::from_str("build"),
            DType::OS(os) => os.clone(),
        }
    }

    /// Whether two kinds are the same.
    pub fn same(&self, other: &DType) -> (r: bool)
        ensures
            r == (self@ == other@),
    {
        match (self, other) {
            (DType::Normal, DType::Normal) => true,
            (DType::Dev, DType::Dev) => true,
            (DType::Build, DType::Build) => true,
            (DType::OS(a), DType::OS(b)) => *a == *b,
            _ => false,
        }
    }
}

/// A dependency with its version settled. `features` is `None` where no
/// selection was asked for, which differs from an empty selection.
#[derive(Debug, Clone)]
pub struct Dep {
    pub name: String,
    pub version: String,
    pub features: Option<Vec<String>>,
}

/// The mathematical content of a [`Dep`].
pub struct Resolved {
    pub name: Seq<char>,
    pub version: Seq<char>,
    pub features: Option<Seq<Seq<char>>>,
}

impl View for Dep {
    type V = Resolved;

    open spec fn view(&self) -> Resolved {
        Resolved {
            name: self.name@,
            version: self.version@,
            features: match self.features {
                Some(fs) => Some(string_views(fs@)),
                None => None,
            },
        }
    }
}

/// The first of `wanted` that is not among `offered`, if there is one.
pub open spec fn first_unoffered(wanted: Seq<Seq<char>>, offered: Seq<Seq<char>>) -> Option<
    Seq<char>,
>
    decreases wanted.len(),
{
    if wanted.len() == 0 {
        None
    } else if !offered.contains(wanted[0]) {
        Some(wanted[0])
    } else {
        first_unoffered(wanted.drop_first(), offered)
    }
}

/// The version that a request settles on: the latest where none is asked
/// for, else the one asked for, which must be recorded under that very text.
pub open spec fn chosen_version(req: Request, snapshot: CratesDep) -> Result<Seq<char>, Failure> {
    if req.version.len() == 0 {
        match snapshot.latest_text() {
            Some(text) => Ok(text),
            None => Err(Failure::EmptyRegistryResult),
        }
    } else if snapshot.features_of(req.version) is Some {
        Ok(req.version)
    } else {
        Err(Failure::InvalidVersion(req.version))
    }
}

/// The features that a request settles on for the version `version`: none
/// where none are asked for, else the ones asked for, in the order asked,
/// each of which the version must offer.
pub open spec fn chosen_features(req: Request, snapshot: CratesDep, version: Seq<char>) -> Result<
    Option<Seq<Seq<char>>>,
    Failure,
> {
    if req.features.len() == 0 {
        Ok(None)
    } else {
        match snapshot.features_of(version) {
            None => Err(Failure::InconsistentRegistryData),
            Some(offered) => {
                let wanted = split_on(req.features, ',');
                match first_unoffered(wanted, offered) {
                    Some(f) => Err(Failure::InvalidFeature(f)),
                    None => Ok(Some(wanted)),
                }
            },
        }
    }
}

/// What a request resolves to against a snapshot.
pub open spec fn resolve_spec(req: Request, snapshot: CratesDep) -> Result<Resolved, Failure> {
    match chosen_version(req, snapshot) {
        Err(e) => Err(e),
        Ok(version) => match chosen_features(req, snapshot, version) {
            Err(e) => Err(e),
            Ok(features) => Ok(Resolved { name: snapshot.name@, version, features }),
        },
    }
}

/// Whether `item` is one of `list`.
pub fn contains_text(list: &Vec<String>, item: &String) -> (r: bool)
    ensures
        r == string_views(list@).contains(item@),
{
    let mut i: usize = 0;
    while i < list.len()
        invariant
            i <= list.len(),
            forall|j: int| 0 <= j < i ==> string_views(list@)[j] != item@,
        decreases list.len() - i,
    {
        if list[i] == *item {
            assert(string_views(list@)[i as int] == item@);
            return true;
        }
        assert(string_views(list@)[i as int] != item@);
        i += 1;
    }
    false
}

/// Checks the requested features against the offered ones, in the order
/// requested.
pub fn select_features(wanted: &Vec<Vec<char>>, offered: &Vec<String>) -> (r: Result<
    Vec<String>,
    DepError,
>)
    ensures
        match r {
            Ok(fs) => first_unoffered(texts(wanted@), string_views(offered@)) is None
                && string_views(fs@) == texts(wanted@),
            Err(e) => first_unoffered(texts(wanted@), string_views(offered@)) matches Some(f)
                && e@ == Failure::InvalidFeature(f),
        },
{
    let mut out: Vec<String> = Vec::new();
    let mut i: usize = 0;
    proof {
        assert(texts(wanted@).skip(0) =~= texts(wanted@));
        assert(texts(wanted@).take(0) =~= string_views(out@));
    }
    while i < wanted.len()
        invariant
            i <= wanted.len(),
            first_unoffered(texts(wanted@), string_views(offered@)) == first_unoffered(
                texts(wanted@).skip(i as int),
                string_views(offered@),
            ),
            string_views(out@) == texts(wanted@).take(i as int),
        decreases wanted.len() - i,
    {
        let item = string_of(&wanted[i]);
        proof {
            let rest = texts(wanted@).skip(i as int);
            assert(rest[0] == item@);
            assert(rest.drop_first() =~= texts(wanted@).skip(i + 1));
        }
        if !contains_text(offered, &item) {
            return Err(DepError::InvalidFeature(item));
        }
        let ghost before = string_views(out@);
        out.push(item);
        proof {
            assert(string_views(out@) =~= before.push(item@));
            assert(texts(wanted@).take(i + 1) =~= texts(wanted@).take(i as int).push(item@));
        }
        i += 1;
    }
    proof {
        assert(texts(wanted@).take(wanted.len() as int) =~= texts(wanted@));
    }
    Ok(out)
}

/// Resolves one request against the snapshot of its package.
///
/// The version is the latest one where the request names none, and must
/// otherwise be recorded under the text that the request gives. Requested
/// features must all be offered by that version; they are kept in the order
/// requested.
pub fn normalize(pdep: &PDep, fdep: &CratesDep) -> (r: Result<Dep, DepError>)
    ensures
        outcome(r) == resolve_spec(pdep@, *fdep),
{
    let version = if pdep.version.as_str().unicode_len() == 0 {
        match fdep.get_last_version() {
            Ok(text) => text,
            Err(e) => {
                return Err(e);
            },
        }
    } else if fdep.has_version(pdep.version.as_str()) {
        pdep.version.clone()
    } else {
        return Err(DepError::InvalidVersion(pdep.version.clone()));
    };
    let features = if pdep.features.as_str().unicode_len() == 0 {
        None
    } else {
        match fdep.get_features(version.as_str()) {
            None => {
                return Err(DepError::InconsistentRegistryData);
            },
            Some(offered) => {
                let wanted = split_chars(&chars_of(pdep.features.as_str()), ',');
                match select_features(&wanted, offered) {
                    Ok(fs) => Some(fs),
                    Err(e) => {
                        return Err(e);
                    },
                }
            },
        }
    };
    Ok(Dep { name: fdep.name.clone(), version, features })
}

/// A request for a feature that the chosen version does not offer fails
/// with that feature's name: the first one, in the order requested, that is
/// not offered.
pub proof fn lemma_unoffered_feature_is_named(
    req: Request,
    snapshot: CratesDep,
    version: Seq<char>,
    offered: Seq<Seq<char>>,
    k: int,
)
    requires
        chosen_version(req, snapshot) == Ok::<Seq<char>, Failure>(version),
        req.features.len() > 0,
        snapshot.features_of(version) == Some(offered),
        0 <= k < split_on(req.features, ',').len(),
        !offered.contains(split_on(req.features, ',')[k]),
    ensures
        resolve_spec(req, snapshot) matches Err(Failure::InvalidFeature(f)) && exists|i: int|
            0 <= i <= k && split_on(req.features, ',')[i] == f && !offered.contains(f),
{
    lemma_first_unoffered(split_on(req.features, ','), offered, k);
}

/// Where the `k`-th of `wanted` is not offered, the first one not offered
/// stands at or before `k`.
pub proof fn lemma_first_unoffered(wanted: Seq<Seq<char>>, offered: Seq<Seq<char>>, k: int)
    requires
        0 <= k < wanted.len(),
        !offered.contains(wanted[k]),
    ensures
        first_unoffered(wanted, offered) matches Some(f) && exists|i: int|
            0 <= i <= k && wanted[i] == f && !offered.contains(f),
    decreases k,
{
    if !offered.contains(wanted[0]) {
        assert(wanted[0] == first_unoffered(wanted, offered).unwrap());
    } else {
        let rest = wanted.drop_first();
        assert(rest[k - 1] == wanted[k]);
        lemma_first_unoffered(rest, offered, k - 1);
        let f = first_unoffered(rest, offered).unwrap();
        let i = choose|i: int| 0 <= i <= k - 1 && rest[i] == f && !offered.contains(f);
        assert(wanted[i + 1] == f);
    }
}

/// The texts among `items`, in order; items that are no text are passed
/// over.
pub open spec fn texts_among(items: Seq<toml::Value>) -> Seq<Seq<char>>
    decreases items.len(),
{
    if items.len() == 0 {
        Seq::empty()
    } else {
        let before = texts_among(items.drop_last());
        match toml_text(items.last()) {
            Some(text) => before.push(text),
            None => before,
        }
    }
}

/// The dependency that a manifest entry denotes.
///
/// A text is the version, with no feature selection. A table must hold a
/// text under `version` and an array under `features`, whose texts are the
/// selected features. Anything else is no entry.
pub open spec fn entry_spec(name: Seq<char>, attrs: toml::Value) -> Result<Resolved, Failure> {
    if toml_text(attrs) is Some {
        Ok(Resolved { name, version: toml_text(attrs).unwrap(), features: None })
    } else if toml_names(attrs) is Some {
        match toml_member(attrs, "version"@) {
            Some(v) if toml_text(v) is Some => match toml_member(attrs, "features"@) {
                Some(f) if toml_items(f) is Some => Ok(
                    Resolved {
                        name,
                        version: toml_text(v).unwrap(),
                        features: Some(texts_among(toml_items(f).unwrap())),
                    },
                ),
                _ => Err(Failure::EntryFeatures),
            },
            _ => Err(Failure::EntryVersion),
        }
    } else {
        Err(Failure::EntryType)
    }
}

/// Whether the items are exactly the given texts, one item for each.
pub open spec fn items_are(items: Seq<toml::Value>, texts: Seq<Seq<char>>) -> bool {
    items.len() == texts.len() && forall|i: int|
        0 <= i < items.len() ==> toml_text(#[trigger] items[i]) == Some(texts[i])
}

/// Whether `attrs` is the manifest entry of the dependency `dep`: the bare
/// version where `dep` selects no features, else a table that holds the
/// version under `version`, the array of selected features under
/// `features`, and nothing else.
pub open spec fn is_entry_of(attrs: toml::Value, dep: Resolved) -> bool {
    match dep.features {
        None => toml_text(attrs) == Some(dep.version),
        Some(fs) => {
            &&& toml_text(attrs) is None
            &&& toml_names(attrs) is Some
            &&& toml_member(attrs, "version"@) matches Some(v) && toml_text(v) == Some(dep.version)
            &&& toml_member(attrs, "features"@) matches Some(f) && toml_items(f) matches Some(items)
                && items_are(items, fs)
            &&& forall|key: Seq<char>|
                key != "version"@ && key != "features"@ ==> #[trigger] toml_member(attrs, key) is None
        },
    }
}

/// Items that are exactly some texts hold those texts.
pub proof fn lemma_texts_among_items(items: Seq<toml::Value>, texts: Seq<Seq<char>>)
    requires
        items_are(items, texts),
    ensures
        texts_among(items) == texts,
    decreases items.len(),
{
    if items.len() == 0 {
        assert(texts =~= Seq::<Seq<char>>::empty());
    } else {
        let shorter = items.drop_last();
        assert forall|i: int| 0 <= i < shorter.len() implies toml_text(#[trigger] shorter[i])
            == Some(texts.drop_last()[i]) by {
            assert(shorter[i] == items[i]);
        }
        lemma_texts_among_items(shorter, texts.drop_last());
        assert(toml_text(items[items.len() - 1]) == Some(texts[items.len() - 1]));
        assert(texts.drop_last().push(texts.last()) =~= texts);
    }
}

/// Reading back the entry that a dependency was written as gives the same
/// dependency: name, version and features, the features in their order. A
/// dependency without a feature selection comes back without one, and an
/// empty selection comes back empty.
pub proof fn lemma_entry_round_trip(dep: Resolved, attrs: toml::Value)
    requires
        is_entry_of(attrs, dep),
    ensures
        entry_spec(dep.name, attrs) == Ok::<Resolved, Failure>(dep),
{
    match dep.features {
        None => {},
        Some(fs) => {
            let f = toml_member(attrs, "features"@).unwrap();
            lemma_texts_among_items(toml_items(f).unwrap(), fs);
        },
    }
}

impl Dep {
    /// Reads the dependency `name` from its manifest entry.
    pub fn from_toml(name: &str, attrs: &toml::Value) -> (r: Result<Dep, DepError>)
        ensures
            outcome(r) == entry_spec(name@, *attrs),
    {
        match attrs.as_str() {
            Some(version) => {
                return Ok(Dep { name: name.to_owned(), version: version.to_owned(), features: None });
            },
            None => {},
        }
        if !attrs.is_table() {
            return Err(DepError::EntryType);
        }
        let version = match member(attrs, "version") {
            Some(v) => match v.as_str() {
                Some(text) => text.to_owned(),
                None => {
                    return Err(DepError::EntryVersion);
                },
            },
            None => {
                return Err(DepError::EntryVersion);
            },
        };
        let items = match member(attrs, "features") {
            Some(f) => match f.as_array() {
                Some(items) => items,
                None => {
                    return Err(DepError::EntryFeatures);
                },
            },
            None => {
                return Err(DepError::EntryFeatures);
            },
        };
        let mut fs: Vec<String> = Vec::new();
        let mut i: usize = 0;
        proof {
            assert(string_views(fs@) =~= texts_among(items@.take(0)));
        }
        while i < items.len()
            invariant
                i <= items.len(),
                string_views(fs@) == texts_among(items@.take(i as int)),
            decreases items.len() - i,
        {
            proof {
                assert(items@.take(i + 1).drop_last() =~= items@.take(i as int));
                assert(items@.take(i + 1).last() == items@[i as int]);
            }
            let ghost before = string_views(fs@);
            match items[i].as_str() {
                Some(text) => {
                    let owned = text.to_owned();
                    fs.push(owned);
                    proof {
                        assert(string_views(fs@) =~= before.push(text@));
                    }
                },
                None => {},
            }
            i += 1;
        }
        proof {
            assert(items@.take(items.len() as int) =~= items@);
        }
        Ok(Dep { name: name.to_owned(), version, features: Some(fs) })
    }

    /// The name of the dependency and its manifest entry.
    pub fn to_toml(&self) -> (r: (String, toml::Value))
        ensures
            r.0@ == self.name@,
            is_entry_of(r.1, self@),
    {
        match &self.features {
            None => (self.name.clone(), text_value(self.version.clone())),
            Some(fs) => {
                let mut items: Vec<toml::Value> = Vec::new();
                let mut i: usize = 0;
                while i < fs.len()
                    invariant
                        i <= fs.len(),
                        items_are(items@, string_views(fs@).take(i as int)),
                    decreases fs.len() - i,
                {
                    let item = text_value(fs[i].clone());
                    items.push(item);
                    i += 1;
                }
                proof {
                    assert(string_views(fs@).take(fs.len() as int) =~= string_views(fs@));
                    reveal_strlit("version");
                    reveal_strlit("features");
                    assert("version"@.len() != "features"@.len());
                }
                let mut body = empty_table();
                set_member(&mut body, String::from_str("version"), text_value(self.version.clone()));
                set_member(&mut body, String::from_str("features"), array_value(items));
                (self.name.clone(), body)
            },
        }
    }

    /// The dependency at the latest version that the snapshot records.
    pub fn update_version(self, fd: &CratesDep) -> (r: Result<Dep, DepError>)
        ensures
            match r {
                Ok(d) => fd.latest_text() == Some(d.version@) && d.name == self.name && d.features
                    == self.features,
                Err(e) => fd.latest_text() is None && e@ == Failure::EmptyRegistryResult,
            },
    {
        match fd.get_last_version() {
            Ok(version) => Ok(Dep { name: self.name, version, features: self.features }),
            Err(e) => Err(e),
        }
    }
}

} // verus!
