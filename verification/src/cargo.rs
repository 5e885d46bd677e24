//! Batches: resolving a set of requests, and bringing the dependencies of a
//! manifest up to date.

use vstd::prelude::*;
use crate::api::CratesDep;
use crate::dep::{entry_spec, kind_of, normalize, resolve_spec, DType, Dep, Kind, Resolved};
use crate::error::{outcome, DepError, Failure};
use crate::manifest::{member, names, toml_member, toml_names};
use crate::parse::{requests_of, PDep, Request};
use crate::table::{lemma_position_absent, lemma_position_found, position};
use crate::text::string_views;

verus! {

/// The manifest of a project, by its path.
#[derive(Debug, Clone)]
pub struct Cargo(pub String);

/// The views of a list of dependencies.
pub open spec fn deps_of(v: Seq<Dep>) -> Seq<Resolved> {
    v.map_values(|d: Dep| d@)
}

/// The dependencies that the entries of `table` under `keys` denote, in
/// that order, or the failure of the first entry that denotes none. A key
/// without a value is passed over.
pub open spec fn read_entries(table: toml::Value, keys: Seq<Seq<char>>) -> Result<
    Seq<Resolved>,
    Failure,
>
    decreases keys.len(),
{
    if keys.len() == 0 {
        Ok(Seq::empty())
    } else {
        match read_entries(table, keys.drop_last()) {
            Err(e) => Err(e),
            Ok(deps) => match toml_member(table, keys.last()) {
                None => Ok(deps),
                Some(attrs) => match entry_spec(keys.last(), attrs) {
                    Ok(d) => Ok(deps.push(d)),
                    Err(e) => Err(e),
                },
            },
        }
    }
}

/// The dependencies of a dependency table, in the order in which the table
/// is walked. A value that is no table has none.
pub open spec fn table_deps(table: toml::Value) -> Result<Seq<Resolved>, Failure> {
    match toml_names(table) {
        Some(keys) => read_entries(table, keys),
        None => Ok(Seq::empty()),
    }
}

/// The versions of a list of dependencies, in order.
pub open spec fn versions_of(deps: Seq<Resolved>) -> Seq<Seq<char>> {
    deps.map_values(|d: Resolved| d.version)
}

/// Once an entry has failed, reading the table fails with that failure.
pub proof fn lemma_read_failure_stays(table: toml::Value, keys: Seq<Seq<char>>, n: int)
    requires
        0 <= n <= keys.len(),
        read_entries(table, keys.take(n)) is Err,
    ensures
        read_entries(table, keys) == read_entries(table, keys.take(n)),
    decreases keys.len() - n,
{
    if n < keys.len() {
        assert(keys.take(n + 1).drop_last() =~= keys.take(n));
        lemma_read_failure_stays(table, keys, n + 1);
    } else {
        assert(keys.take(n) =~= keys);
    }
}

impl Cargo {
    /// Reads the dependencies of one dependency table, and their versions as
    /// they stand.
    pub fn update_dep_type(deps: &toml::Value) -> (r: Result<(Vec<Dep>, Vec<String>), DepError>)
        ensures
            match r {
                Ok((fds, vds)) => table_deps(*deps) == Ok::<Seq<Resolved>, Failure>(deps_of(fds@))
                    && string_views(vds@) == versions_of(deps_of(fds@)),
                Err(e) => table_deps(*deps) == Err::<Seq<Resolved>, Failure>(e@),
            },
    {
        let mut fds: Vec<Dep> = Vec::new();
        let mut vds: Vec<String> = Vec::new();
        let keys = match names(deps) {
            Some(keys) => keys,
            None => {
                proof {
                    assert(deps_of(fds@) =~= Seq::<Resolved>::empty());
                    assert(string_views(vds@) =~= versions_of(deps_of(fds@)));
                }
                return Ok((fds, vds));
            },
        };
        let ghost all = string_views(keys@);
        let mut i: usize = 0;
        proof {
            assert(deps_of(fds@) =~= Seq::<Resolved>::empty());
            assert(string_views(vds@) =~= versions_of(deps_of(fds@)));
        }
        while i < keys.len()
            invariant
                i <= keys.len(),
                all == string_views(keys@),
                toml_names(*deps) == Some(all),
                read_entries(*deps, all.take(i as int)) == Ok::<Seq<Resolved>, Failure>(
                    deps_of(fds@),
                ),
                string_views(vds@) == versions_of(deps_of(fds@)),
            decreases keys.len() - i,
        {
            proof {
                assert(all.take(i + 1).drop_last() =~= all.take(i as int));
                assert(all.take(i + 1).last() == keys@[i as int]@);
            }
            let ghost before = deps_of(fds@);
            let ghost before_versions = string_views(vds@);
            match member(deps, keys[i].as_str()) {
                None => {},
                Some(attrs) => match Dep::from_toml(keys[i].as_str(), attrs) {
                    Ok(d) => {
                        let version = d.version.clone();
                        vds.push(version);
                        fds.push(d);
                        proof {
                            assert(deps_of(fds@) =~= before.push(d@));
                            assert(string_views(vds@) =~= before_versions.push(d.version@));
                            assert(versions_of(before.push(d@)) =~= versions_of(before).push(
                                d.version@,
                            ));
                        }
                    },
                    Err(e) => {
                        proof {
                            assert(read_entries(*deps, all.take(i + 1)) == Err::<
                                Seq<Resolved>,
                                Failure,
                            >(e@));
                            lemma_read_failure_stays(*deps, all, i + 1);
                        }
                        return Err(e);
                    },
                },
            }
            i += 1;
        }
        proof {
            assert(all.take(keys.len() as int) =~= all);
        }
        Ok((fds, vds))
    }
}

/// The names in `names`, each once, in the order of their first occurrence.
pub open spec fn dedup(names: Seq<Seq<char>>) -> Seq<Seq<char>>
    decreases names.len(),
{
    if names.len() == 0 {
        Seq::empty()
    } else {
        let before = dedup(names.drop_last());
        if before.contains(names.last()) {
            before
        } else {
            before.push(names.last())
        }
    }
}

/// The names of a list of requests, in order.
pub open spec fn request_names(reqs: Seq<Request>) -> Seq<Seq<char>> {
    reqs.map_values(|r: Request| r.name)
}

/// `dedup` holds no name twice, and holds exactly the names it was given.
pub proof fn lemma_dedup(names: Seq<Seq<char>>)
    ensures
        dedup(names).no_duplicates(),
        forall|name: Seq<char>| dedup(names).contains(name) <==> names.contains(name),
    decreases names.len(),
{
    if names.len() > 0 {
        let front = names.drop_last();
        let last = names.last();
        lemma_dedup(front);
        let before = dedup(front);
        assert forall|name: Seq<char>| dedup(names).contains(name) <==> names.contains(
            name,
        ) by {
            if names.contains(name) {
                let i = choose|i: int| 0 <= i < names.len() && names[i] == name;
                if i < front.len() {
                    assert(front[i] == name);
                    assert(front.contains(name));
                    assert(before.contains(name));
                    if !before.contains(last) {
                        let j = choose|j: int| 0 <= j < before.len() && before[j] == name;
                        assert(before.push(last)[j] == name);
                    }
                } else {
                    if !before.contains(last) {
                        assert(before.push(last)[before.len() as int] == last);
                    }
                }
            }
            if dedup(names).contains(name) {
                let j = choose|j: int| 0 <= j < dedup(names).len() && dedup(names)[j] == name;
                if j < before.len() {
                    assert(before[j] == name);
                    assert(before.contains(name));
                    assert(front.contains(name));
                    let i = choose|i: int| 0 <= i < front.len() && front[i] == name;
                    assert(names[i] == name);
                } else {
                    assert(names[names.len() - 1] == name);
                }
            }
        }
    }
}

/// The package names of a batch, each once: the packages to ask the
/// registry for. A package that is requested twice is asked for once.
pub fn distinct_names(pdeps: &Vec<PDep>) -> (out: Vec<String>)
    ensures
        string_views(out@) == dedup(request_names(requests_of(pdeps@))),
{
    let ghost all = request_names(requests_of(pdeps@));
    let mut out: Vec<String> = Vec::new();
    let mut i: usize = 0;
    proof {
        assert(string_views(out@) =~= dedup(all.take(0)));
    }
    while i < pdeps.len()
        invariant
            i <= pdeps.len(),
            all == request_names(requests_of(pdeps@)),
            string_views(out@) == dedup(all.take(i as int)),
        decreases pdeps.len() - i,
    {
        proof {
            assert(all.take(i + 1).drop_last() =~= all.take(i as int));
            assert(all.take(i + 1).last() == pdeps@[i as int].name@);
        }
        let ghost before = string_views(out@);
        if !crate::dep::contains_text(&out, &pdeps[i].name) {
            let name = pdeps[i].name.clone();
            out.push(name);
            proof {
                assert(string_views(out@) =~= before.push(name@));
            }
        }
        i += 1;
    }
    proof {
        assert(all.take(pdeps.len() as int) =~= all);
    }
    out
}

/// The snapshots that came back, in order.
pub open spec fn present(fetched: Seq<Option<CratesDep>>) -> Seq<CratesDep>
    decreases fetched.len(),
{
    if fetched.len() == 0 {
        Seq::empty()
    } else {
        let before = present(fetched.drop_last());
        match fetched.last() {
            Some(snapshot) => before.push(snapshot),
            None => before,
        }
    }
}

/// Joins the answers of the registry: the snapshots that came back, where
/// as many came back as were expected. One missing snapshot fails the whole
/// batch.
pub fn collect_snapshots(expected: usize, fetched: Vec<Option<CratesDep>>) -> (r: Result<
    Vec<CratesDep>,
    DepError,
>)
    ensures
        match r {
            Ok(snapshots) => snapshots@ == present(fetched@) && snapshots@.len() == expected,
            Err(e) => present(fetched@).len() != expected && e@ == (Failure::BatchFetchMismatch {
                expected: expected as nat,
                received: present(fetched@).len(),
            }),
        },
{
    let ghost all = fetched@;
    let mut rest = fetched;
    let mut back: Vec<CratesDep> = Vec::new();
    proof {
        assert(all.skip(all.len() as int) =~= Seq::<Option<CratesDep>>::empty());
    }
    while rest.len() > 0
        invariant
            rest@ == all.take(rest@.len() as int),
            rest@.len() <= all.len(),
            present(all) == present(rest@) + back@.reverse(),
        decreases rest.len(),
    {
        let ghost before = rest@;
        let ghost before_back = back@;
        let item = rest.pop().unwrap();
        proof {
            assert(rest@ =~= before.drop_last());
            assert(rest@ =~= all.take(rest@.len() as int));
        }
        match item {
            Some(snapshot) => {
                back.push(snapshot);
                proof {
                    assert(present(before) == present(rest@).push(snapshot));
                    assert(back@.reverse() =~= seq![snapshot] + before_back.reverse());
                    assert(present(rest@).push(snapshot) + before_back.reverse() =~= present(rest@)
                        + back@.reverse());
                }
            },
            None => {},
        }
    }
    proof {
        assert(present(rest@) =~= Seq::<CratesDep>::empty());
        assert(present(all) =~= back@.reverse());
    }
    let mut out: Vec<CratesDep> = Vec::new();
    let ghost turned = back@;
    while back.len() > 0
        invariant
            back@ == turned.take(back@.len() as int),
            back@.len() <= turned.len(),
            out@ == turned.skip(back@.len() as int).reverse(),
        decreases back.len(),
    {
        let ghost n = back@.len();
        let item = back.pop().unwrap();
        let ghost before = out@;
        out.push(item);
        proof {
            assert(back@ =~= turned.take(back@.len() as int));
            assert(turned.skip(n - 1).reverse() =~= turned.skip(n as int).reverse().push(
                turned[n - 1],
            ));
        }
    }
    proof {
        assert(turned.skip(0) =~= turned);
    }
    if out.len() == expected {
        Ok(out)
    } else {
        Err(DepError::BatchFetchMismatch { expected, received: out.len() })
    }
}

/// The names among the first `n` whose snapshot did not come back, in
/// order. Names and answers are paired by place; a name without an answer
/// counts as not come back.
pub open spec fn missing(names: Seq<Seq<char>>, fetched: Seq<Option<CratesDep>>, n: int) -> Seq<
    Seq<char>,
>
    decreases n,
{
    if n <= 0 {
        Seq::empty()
    } else {
        let before = missing(names, fetched, n - 1);
        if n - 1 < fetched.len() && fetched[n - 1] is Some {
            before
        } else {
            before.push(names[n - 1])
        }
    }
}

/// The packages whose snapshot did not come back: what to name when a
/// batch fails for want of snapshots.
pub fn failed_names(names: &Vec<String>, fetched: &Vec<Option<CratesDep>>) -> (out: Vec<String>)
    ensures
        string_views(out@) == missing(string_views(names@), fetched@, names@.len() as int),
{
    let mut out: Vec<String> = Vec::new();
    let mut i: usize = 0;
    proof {
        assert(string_views(out@) =~= missing(string_views(names@), fetched@, 0));
    }
    while i < names.len()
        invariant
            i <= names.len(),
            string_views(out@) == missing(string_views(names@), fetched@, i as int),
        decreases names.len() - i,
    {
        let came = i < fetched.len() && fetched[i].is_some();
        if !came {
            let ghost before = string_views(out@);
            let name = names[i].clone();
            out.push(name);
            proof {
                assert(string_views(out@) =~= before.push(name@));
            }
        }
        i += 1;
    }
    out
}

/// The names of a list of snapshots, in order.
pub open spec fn snapshot_names(snapshots: Seq<CratesDep>) -> Seq<Seq<char>> {
    snapshots.map_values(|s: CratesDep| s.name@)
}

/// The first snapshot of the package `name`, if there is one.
pub open spec fn snapshot_for(snapshots: Seq<CratesDep>, name: Seq<char>) -> Option<CratesDep> {
    match position(snapshot_names(snapshots), name) {
        Some(i) => Some(snapshots[i]),
        None => None,
    }
}

/// What one request of a batch resolves to, with the kind of table that it
/// goes to.
pub open spec fn resolve_one(req: Request, snapshots: Seq<CratesDep>) -> Result<
    (Kind, Resolved),
    Failure,
> {
    match snapshot_for(snapshots, req.name) {
        None => Err(Failure::MissingSnapshot(req.name)),
        Some(snapshot) => match resolve_spec(req, snapshot) {
            Ok(dep) => Ok((kind_of(req.target), dep)),
            Err(e) => Err(e),
        },
    }
}

/// What the requests of a batch resolve to, in order, or the failure of the
/// first request that does not resolve.
pub open spec fn resolve_each(reqs: Seq<Request>, snapshots: Seq<CratesDep>) -> Result<
    Seq<(Kind, Resolved)>,
    Failure,
>
    decreases reqs.len(),
{
    if reqs.len() == 0 {
        Ok(Seq::empty())
    } else {
        match resolve_each(reqs.drop_last(), snapshots) {
            Err(e) => Err(e),
            Ok(items) => match resolve_one(reqs.last(), snapshots) {
                Ok(item) => Ok(items.push(item)),
                Err(e) => Err(e),
            },
        }
    }
}

/// The kinds of a list of buckets, in order.
pub open spec fn bucket_kinds(buckets: Seq<(Kind, Seq<Resolved>)>) -> Seq<Kind> {
    buckets.map_values(|b: (Kind, Seq<Resolved>)| b.0)
}

/// The buckets with `dep` added at the end of the bucket of `kind`; a kind
/// without a bucket gets a new one at the end.
pub open spec fn place(buckets: Seq<(Kind, Seq<Resolved>)>, kind: Kind, dep: Resolved) -> Seq<
    (Kind, Seq<Resolved>),
> {
    match position(bucket_kinds(buckets), kind) {
        Some(i) => buckets.update(i, (kind, buckets[i].1.push(dep))),
        None => buckets.push((kind, seq![dep])),
    }
}

/// The dependencies sorted into one bucket for each kind. Buckets stand in
/// the order in which their kinds first occur, and the dependencies of a
/// bucket in the order in which they were given.
pub open spec fn grouped(items: Seq<(Kind, Resolved)>) -> Seq<(Kind, Seq<Resolved>)>
    decreases items.len(),
{
    if items.len() == 0 {
        Seq::empty()
    } else {
        place(grouped(items.drop_last()), items.last().0, items.last().1)
    }
}

/// The views of a list of buckets.
pub open spec fn buckets_of(v: Seq<(DType, Vec<Dep>)>) -> Seq<(Kind, Seq<Resolved>)> {
    v.map_values(|b: (DType, Vec<Dep>)| (b.0@, deps_of(b.1@)))
}

/// What a batch of requests resolves to: the resolved dependencies in one
/// bucket for each kind, or the failure of the first request that does not
/// resolve.
pub open spec fn resolve_set_spec(reqs: Seq<Request>, snapshots: Seq<CratesDep>) -> Result<
    Seq<(Kind, Seq<Resolved>)>,
    Failure,
> {
    match resolve_each(reqs, snapshots) {
        Ok(items) => Ok(grouped(items)),
        Err(e) => Err(e),
    }
}

/// Once a request has failed, the batch fails with that failure.
pub proof fn lemma_resolve_failure_stays(reqs: Seq<Request>, snapshots: Seq<CratesDep>, n: int)
    requires
        0 <= n <= reqs.len(),
        resolve_each(reqs.take(n), snapshots) is Err,
    ensures
        resolve_each(reqs, snapshots) == resolve_each(reqs.take(n), snapshots),
    decreases reqs.len() - n,
{
    if n < reqs.len() {
        assert(reqs.take(n + 1).drop_last() =~= reqs.take(n));
        lemma_resolve_failure_stays(reqs, snapshots, n + 1);
    } else {
        assert(reqs.take(n) =~= reqs);
    }
}

/// The place of the first snapshot of the package `name`.
pub fn find_snapshot(snapshots: &Vec<CratesDep>, name: &String) -> (r: Option<usize>)
    ensures
        match r {
            Some(i) => i < snapshots.len() && snapshot_for(snapshots@, name@) == Some(
                snapshots@[i as int],
            ),
            None => snapshot_for(snapshots@, name@) is None,
        },
{
    let mut i: usize = 0;
    while i < snapshots.len()
        invariant
            i <= snapshots.len(),
            forall|j: int| 0 <= j < i ==> snapshot_names(snapshots@)[j] != name@,
        decreases snapshots.len() - i,
    {
        if snapshots[i].name == *name {
            proof {
                assert(snapshot_names(snapshots@)[i as int] == name@);
                lemma_position_found(snapshot_names(snapshots@), name@, i as int);
            }
            return Some(i);
        }
        assert(snapshot_names(snapshots@)[i as int] != name@);
        i += 1;
    }
    proof {
        lemma_position_absent(snapshot_names(snapshots@), name@);
    }
    None
}

/// Adds `dep` to the bucket of `kind`, opening one where there is none.
pub fn place_dep(buckets: &mut Vec<(DType, Vec<Dep>)>, kind: DType, dep: Dep)
    ensures
        buckets_of(final(buckets)@) == place(buckets_of(old(buckets)@), kind@, dep@),
{
    let ghost before = buckets_of(buckets@);
    let ghost kinds = bucket_kinds(before);
    let mut i: usize = 0;
    while i < buckets.len()
        invariant
            i <= buckets.len(),
            buckets@ == old(buckets)@,
            before == buckets_of(buckets@),
            kinds == bucket_kinds(before),
            forall|j: int| 0 <= j < i ==> kinds[j] != kind@,
        decreases buckets.len() - i,
    {
        if buckets[i].0.same(&kind) {
            proof {
                assert(kinds[i as int] == kind@);
                lemma_position_found(kinds, kind@, i as int);
            }
            let (found, mut deps) = buckets.remove(i);
            let ghost inside = deps_of(deps@);
            deps.push(dep);
            proof {
                assert(deps_of(deps@) =~= inside.push(dep@));
            }
            buckets.insert(i, (found, deps));
            proof {
                assert(buckets_of(buckets@) =~= before.update(
                    i as int,
                    (kind@, before[i as int].1.push(dep@)),
                ));
            }
            return ;
        }
        assert(kinds[i as int] != kind@);
        i += 1;
    }
    proof {
        lemma_position_absent(kinds, kind@);
    }
    let mut deps: Vec<Dep> = Vec::new();
    deps.push(dep);
    buckets.push((kind, deps));
    proof {
        assert(deps_of(deps@) =~= seq![dep@]);
        assert(buckets_of(buckets@) =~= before.push((kind@, seq![dep@])));
    }
}

/// Resolves a batch of requests against the snapshots of their packages
/// and sorts the outcome into one bucket for each kind of table.
///
/// A request resolves against the first snapshot that bears its name. The
/// first request that does not resolve fails the whole batch.
pub fn resolve_set(pdeps: &Vec<PDep>, snapshots: &Vec<CratesDep>) -> (r: Result<
    Vec<(DType, Vec<Dep>)>,
    DepError,
>)
    ensures
        match r {
            Ok(buckets) => resolve_set_spec(requests_of(pdeps@), snapshots@) == Ok::<
                Seq<(Kind, Seq<Resolved>)>,
                Failure,
            >(buckets_of(buckets@)),
            Err(e) => resolve_set_spec(requests_of(pdeps@), snapshots@) == Err::<
                Seq<(Kind, Seq<Resolved>)>,
                Failure,
            >(e@),
        },
{
    let ghost reqs = requests_of(pdeps@);
    let mut buckets: Vec<(DType, Vec<Dep>)> = Vec::new();
    let ghost mut items: Seq<(Kind, Resolved)> = Seq::empty();
    let mut i: usize = 0;
    proof {
        assert(buckets_of(buckets@) =~= grouped(items));
    }
    while i < pdeps.len()
        invariant
            i <= pdeps.len(),
            reqs == requests_of(pdeps@),
            resolve_each(reqs.take(i as int), snapshots@) == Ok::<Seq<(Kind, Resolved)>, Failure>(
                items,
            ),
            buckets_of(buckets@) == grouped(items),
        decreases pdeps.len() - i,
    {
        proof {
            assert(reqs.take(i + 1).drop_last() =~= reqs.take(i as int));
            assert(reqs.take(i + 1).last() == pdeps@[i as int]@);
        }
        let resolved = match find_snapshot(snapshots, &pdeps[i].name) {
            None => Err(DepError::MissingSnapshot(pdeps[i].name.clone())),
            Some(at) => normalize(&pdeps[i], &snapshots[at]),
        };
        match resolved {
            Ok(dep) => {
                let kind = DType::from(pdeps[i].target.as_str());
                proof {
                    let item = (kind@, dep@);
                    assert(items.push(item).drop_last() =~= items);
                    items = items.push(item);
                }
                place_dep(&mut buckets, kind, dep);
            },
            Err(e) => {
                proof {
                    assert(resolve_each(reqs.take(i + 1), snapshots@) == Err::<
                        Seq<(Kind, Resolved)>,
                        Failure,
                    >(e@));
                    lemma_resolve_failure_stays(reqs, snapshots@, i + 1);
                }
                return Err(e);
            },
        }
        i += 1;
    }
    proof {
        assert(reqs.take(pdeps.len() as int) =~= reqs);
    }
    Ok(buckets)
}

} // verus!
