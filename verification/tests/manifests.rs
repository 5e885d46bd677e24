use depi::api::CratesDep;
use depi::cargo::Cargo;
use depi::dep::{DType, Dep};
use depi::error::DepError;
use depi::manifest::{read_manifest, write_manifest};
use depi::merge::{merge_bucket, merge_buckets, new_manifest, replace_section};
use depi::parse::parse_deps;
use depi::remove::{kind_deps, parse_names, remove_from_kind};
use depi::update::{apply_updates, count_changed, is_later, update_all, KindUpdate};

fn snapshot(name: &str, versions: &[(&str, &[&str])]) -> CratesDep {
    let mut s = CratesDep::new(name.to_string());
    for (num, features) in versions {
        s.insert(num.to_string(), features.iter().map(|f| f.to_string()).collect());
    }
    s
}

fn strings(items: &[&str]) -> Vec<String> {
    items.iter().map(|s| s.to_string()).collect()
}

fn dep(name: &str, version: &str, features: Option<&[&str]>) -> Dep {
    Dep { name: name.to_string(), version: version.to_string(), features: features.map(strings) }
}

fn shape(d: &Dep) -> (String, String, Option<Vec<String>>) {
    (d.name.clone(), d.version.clone(), d.features.clone())
}

fn table(text: &str) -> toml::Value {
    toml::Value::Table(text.parse::<toml::Table>().unwrap())
}

fn entry<'a>(doc: &'a toml::Value, field: &str, name: &str) -> Option<&'a toml::Value> {
    doc.get(field).and_then(|t| t.get(name))
}

#[test]
fn entry_of_a_bare_version() {
    let (name, attrs) = dep("serde", "1.0.2", None).to_toml();
    assert_eq!(name, "serde");
    assert_eq!(attrs, toml::Value::String("1.0.2".to_string()));
}

#[test]
fn entry_with_features() {
    let (name, attrs) = dep("tokio", "1.40.0", Some(&["rt", "macros"])).to_toml();
    assert_eq!(name, "tokio");
    assert_eq!(attrs, table("version = \"1.40.0\"\nfeatures = [\"rt\", \"macros\"]"));
}

#[test]
fn entry_with_an_empty_selection() {
    let (_, attrs) = dep("tokio", "1", Some(&[])).to_toml();
    assert_eq!(attrs, table("version = \"1\"\nfeatures = []"));
}

#[test]
fn entries_read_back() {
    for d in [
        dep("a", "1.0.0", None),
        dep("b", "2.1", Some(&[])),
        dep("c", "0.3.0-rc1", Some(&["z", "a", "z"])),
        dep("", "", Some(&[""])),
    ] {
        let (name, attrs) = d.to_toml();
        let back = Dep::from_toml(&name, &attrs).unwrap();
        assert_eq!(shape(&back), shape(&d));
    }
}

#[test]
fn entries_read_back_through_text() {
    let d = dep("pkg", "1.2.3", Some(&["a", "b"]));
    let mut doc = new_manifest("demo");
    merge_bucket(&mut doc, &DType::Dev, &vec![d]);
    let text = write_manifest(&doc).unwrap();
    let again = read_manifest(&text).unwrap();
    let got = kind_deps(&again, &DType::Dev).unwrap();
    assert_eq!(got.len(), 1);
    assert_eq!(shape(&got[0]), shape(&dep("pkg", "1.2.3", Some(&["a", "b"]))));
}

#[test]
fn entry_keeps_the_texts_of_a_mixed_array() {
    let attrs = table("version = \"1\"\nfeatures = [\"a\", 3, \"b\", [\"c\"]]");
    let d = Dep::from_toml("x", &attrs).unwrap();
    assert_eq!(d.features, Some(strings(&["a", "b"])));
}

#[test]
fn entries_that_are_none() {
    assert!(matches!(Dep::from_toml("x", &table("features = []")), Err(DepError::EntryVersion)));
    assert!(matches!(Dep::from_toml("x", &table("version = 1\nfeatures = []")), Err(DepError::EntryVersion)));
    assert!(matches!(Dep::from_toml("x", &table("version = \"1\"")), Err(DepError::EntryFeatures)));
    assert!(matches!(
        Dep::from_toml("x", &table("version = \"1\"\nfeatures = \"a\"")),
        Err(DepError::EntryFeatures)
    ));
    assert!(matches!(Dep::from_toml("x", &toml::Value::Integer(3)), Err(DepError::EntryType)));
    assert!(matches!(Dep::from_toml("x", &toml::Value::Array(Vec::new())), Err(DepError::EntryType)));
    assert!(matches!(Dep::from_toml("x", &toml::Value::Boolean(true)), Err(DepError::EntryType)));
}

#[test]
fn dependencies_of_a_table() {
    let deps = table("b = \"2\"\na = { version = \"1\", features = [\"f\"] }");
    let (fds, vds) = Cargo::update_dep_type(&deps).unwrap();
    let mut got: Vec<_> = fds.iter().map(shape).collect();
    got.sort();
    assert_eq!(got, vec![shape(&dep("a", "1", Some(&["f"]))), shape(&dep("b", "2", None))]);
    assert_eq!(vds.len(), 2);
    for (d, v) in fds.iter().zip(vds.iter()) {
        assert_eq!(&d.version, v);
    }
    assert!(matches!(Cargo::update_dep_type(&table("a = 1")), Err(DepError::EntryType)));
    let (fds, vds) = Cargo::update_dep_type(&toml::Value::Integer(1)).unwrap();
    assert!(fds.is_empty() && vds.is_empty());
}

#[test]
fn manifest_of_a_new_project() {
    let doc = new_manifest("demo");
    assert_eq!(doc, table("[package]\nname = \"demo\"\nversion = \"0.1.0\"\nedition = \"2024\""));
}

#[test]
fn new_project_with_dependencies() {
    let deps = parse_deps("pkgA@1.0:feat1,feat2/pkgB/tool!build", &Vec::new()).unwrap();
    let snapshots = vec![
        snapshot("pkgA", &[("1.0", &["feat1", "feat2", "feat3"])]),
        snapshot("pkgB", &[("3.2.1", &[])]),
        snapshot("tool", &[("0.1.0", &[]), ("0.2.0", &[])]),
    ];
    let text = Cargo::init_project("demo", &deps, &snapshots).unwrap();
    let expected = table(
        "[package]\nname = \"demo\"\nversion = \"0.1.0\"\nedition = \"2024\"\n\
         [dependencies]\npkgA = { version = \"1.0\", features = [\"feat1\", \"feat2\"] }\npkgB = \"3.2.1\"\n\
         [build-dependencies]\ntool = \"0.2.0\"",
    );
    assert_eq!(table(&text), expected);
    assert!(matches!(
        Cargo::init_project("demo", &deps, &snapshots[..1].to_vec()),
        Err(DepError::MissingSnapshot(_))
    ));
}

#[test]
fn dependencies_are_added_and_written_over() {
    let text = "[package]\nname = \"demo\"\n[dependencies]\nold = \"0.1.0\"\nkept = { version = \"1\", features = [] }\n";
    let deps = parse_deps("old/new:f/dev-tool!dev", &Vec::new()).unwrap();
    let snapshots = vec![
        snapshot("old", &[("0.2.0", &[])]),
        snapshot("new", &[("1.0.0", &["f"])]),
        snapshot("dev-tool", &[("3.0.0", &[])]),
    ];
    let out = Cargo::append_deps(text, &deps, &snapshots).unwrap();
    let expected = table(
        "[package]\nname = \"demo\"\n[dependencies]\nold = \"0.2.0\"\nkept = { version = \"1\", features = [] }\n\
         new = { version = \"1.0.0\", features = [\"f\"] }\n[dev-dependencies]\ndev-tool = \"3.0.0\"",
    );
    assert_eq!(table(&out), expected);
}

#[test]
fn adding_fails_as_a_whole() {
    let text = "[dependencies]\nold = \"0.1.0\"\n";
    let deps = parse_deps("a/b:nope", &Vec::new()).unwrap();
    let snapshots = vec![snapshot("a", &[("1.0.0", &[])]), snapshot("b", &[("1.0.0", &[])])];
    assert!(matches!(Cargo::append_deps(text, &deps, &snapshots), Err(DepError::InvalidFeature(_))));
    assert!(matches!(Cargo::append_deps("not = toml = at all", &deps, &snapshots), Err(DepError::Storage(_))));
}

#[test]
fn a_value_that_is_no_table_is_left_alone() {
    let mut doc = table("dependencies = 3\nother = \"x\"");
    merge_bucket(&mut doc, &DType::Normal, &vec![dep("a", "1", None)]);
    assert_eq!(doc, table("dependencies = 3\nother = \"x\""));
}

#[test]
fn a_document_that_is_no_table_is_left_alone() {
    let deps = vec![dep("a", "1", None)];
    let mut doc = toml::Value::Integer(7);
    merge_bucket(&mut doc, &DType::Normal, &deps);
    assert_eq!(doc, toml::Value::Integer(7));
    merge_buckets(&mut doc, &vec![(DType::Dev, vec![dep("b", "2", None)])]);
    assert_eq!(doc, toml::Value::Integer(7));
    replace_section(&mut doc, &DType::Normal, &deps);
    assert_eq!(doc, toml::Value::Integer(7));
    let updates = vec![KindUpdate { kind: DType::Normal, deps: vec![dep("x", "2", None)], old_versions: strings(&["1"]) }];
    assert_eq!(apply_updates(&mut doc, &updates), 1);
    assert_eq!(doc, toml::Value::Integer(7));
    assert!(remove_from_kind(&mut doc, &DType::Normal, &strings(&["a"])).unwrap().is_empty());
    assert_eq!(doc, toml::Value::Integer(7));
    assert!(kind_deps(&doc, &DType::Normal).unwrap().is_empty());
}

#[test]
fn last_dependency_of_a_name_wins() {
    let mut doc = table("");
    let buckets = vec![
        (DType::Normal, vec![dep("a", "1", None), dep("b", "1", None), dep("a", "2", Some(&["x"]))]),
        (DType::OS("linux".to_string()), vec![dep("a", "3", None)]),
    ];
    merge_buckets(&mut doc, &buckets);
    assert_eq!(entry(&doc, "dependencies", "a"), Some(&table("version = \"2\"\nfeatures = [\"x\"]")));
    assert_eq!(entry(&doc, "dependencies", "b"), Some(&toml::Value::String("1".to_string())));
    assert_eq!(
        entry(&doc, "target.'cfg(linux)'.dependencies", "a"),
        Some(&toml::Value::String("3".to_string()))
    );
}

#[test]
fn later_versions_go_by_their_numbers() {
    assert!(is_later("1.0.1", "1.0.0"));
    assert!(is_later("2", "1.9.9"));
    assert!(is_later("10.0.0", "9.0.0"));
    assert!(is_later("1.10.0", "1.9.0"));
    assert!(is_later("0.10", "0.9.7"));
    assert!(!is_later("9.0.0", "10.0.0"));
    assert!(!is_later("1.0.0", "1.0.0"));
    assert!(!is_later("1.0.0", "1.0.1"));
    assert!(!is_later("1.0", "1.0.0"));
    assert!(!is_later("1.0.0-rc", "1.0.0"));
    assert!(is_later("v2.0.0", "^1.4"));
}

#[test]
fn texts_that_are_no_versions_change_nothing() {
    assert!(!is_later("2.0.0", "*"));
    assert!(!is_later("2.0.0", ""));
    assert!(!is_later("latest", "1.0.0"));
    assert!(!is_later("b", "a"));
    assert!(!is_later("1.2.3.4", "1.0.0"));
    let news = vec![dep("a", "2.0.0", None), dep("b", "2.0.0", None)];
    assert_eq!(count_changed(&news, &strings(&["*", "1.0.0"])), 1);
}

#[test]
fn update_past_a_power_of_ten() {
    let text = "[dependencies]\nx = \"9.0.0\"\n";
    let found = Cargo::existing(text).unwrap();
    let fetched = vec![Some(snapshot("x", &[("9.0.0", &[]), ("10.0.0", &[])]))];
    let news = update_all(&found[0].deps, &fetched).unwrap();
    assert_eq!(count_changed(&news, &found[0].old_versions), 1);
    let updates = vec![KindUpdate { kind: DType::Normal, deps: news, old_versions: found[0].old_versions.clone() }];
    let out = Cargo::update_deps(text, &updates).unwrap().unwrap();
    assert_eq!(table(&out), table("[dependencies]\nx = \"10.0.0\"\n"));
}

#[test]
fn update_keeps_features_and_the_package() {
    let text = "[package]\nname = \"m\"\n[dependencies]\nx = { version = \"1.0.0\", features = [\"a\"] }\n";
    let found = Cargo::existing(text).unwrap();
    let fetched = vec![Some(snapshot("x", &[("1.0.0", &["a"]), ("1.2.0", &["a"])]))];
    let news = update_all(&found[0].deps, &fetched).unwrap();
    let updates = vec![KindUpdate { kind: DType::Normal, deps: news, old_versions: found[0].old_versions.clone() }];
    let out = Cargo::update_deps(text, &updates).unwrap().unwrap();
    assert_eq!(
        table(&out),
        table("[package]\nname = \"m\"\n[dependencies]\nx = { version = \"1.2.0\", features = [\"a\"] }\n")
    );
}

#[test]
fn entry_holds_its_two_keys_only() {
    let (_, attrs) = dep("p", "1.0.0", Some(&["a", "b"])).to_toml();
    let keys: Vec<&str> = attrs.as_table().unwrap().keys().map(|k| k.as_str()).collect();
    assert_eq!(keys.len(), 2);
    assert!(keys.contains(&"version") && keys.contains(&"features"));
    assert_eq!(attrs.get("version"), Some(&toml::Value::String("1.0.0".to_string())));
    assert_eq!(
        attrs.get("features"),
        Some(&toml::Value::Array(vec![toml::Value::String("a".to_string()), toml::Value::String("b".to_string())]))
    );
}

#[test]
fn new_project_with_a_dev_dependency_only() {
    let deps = parse_deps("a!dev", &Vec::new()).unwrap();
    let snapshots = vec![snapshot("a", &[("0.3.0", &[]), ("0.2.9", &[])])];
    let text = Cargo::init_project("demo", &deps, &snapshots).unwrap();
    assert_eq!(
        table(&text),
        table("[package]\nname = \"demo\"\nversion = \"0.1.0\"\nedition = \"2024\"\n[dev-dependencies]\na = \"0.3.0\"")
    );
    let bare = Cargo::init_project("demo", &Vec::new(), &Vec::new()).unwrap();
    assert_eq!(table(&bare), table("[package]\nname = \"demo\"\nversion = \"0.1.0\"\nedition = \"2024\""));
}

#[test]
fn adding_makes_no_other_table() {
    let deps = parse_deps("pkgA@1.0:feat1,feat2/pkgB", &Vec::new()).unwrap();
    let snapshots = vec![
        snapshot("pkgA", &[("1.0", &["feat1", "feat2", "feat3"])]),
        snapshot("pkgB", &[("3.2.1", &[])]),
    ];
    let out = Cargo::append_deps("[package]\nname = \"m\"\n", &deps, &snapshots).unwrap();
    assert_eq!(
        table(&out),
        table("[package]\nname = \"m\"\n[dependencies]\npkgA = { version = \"1.0\", features = [\"feat1\", \"feat2\"] }\npkgB = \"3.2.1\"")
    );
}

#[test]
fn changes_are_counted_by_place() {
    let news = vec![dep("a", "1.0.1", None), dep("b", "2.0.0", None), dep("c", "0.9.0", None)];
    assert_eq!(count_changed(&news, &strings(&["1.0.0", "2.0.0", "1.0.0"])), 1);
    assert_eq!(count_changed(&news, &strings(&["1.0.0", "1.0.0", "0.1.0"])), 3);
    assert_eq!(count_changed(&news, &strings(&["1.0.0"])), 1);
    assert_eq!(count_changed(&Vec::new(), &strings(&["1.0.0"])), 0);
}

#[test]
fn dependencies_are_brought_to_their_latest_versions() {
    let olds = vec![dep("a", "1.0.0", None), dep("b", "0.1.0", Some(&["f"]))];
    let fetched = vec![Some(snapshot("a", &[("1.0.0", &[]), ("1.2.0", &[])])), Some(snapshot("b", &[("0.1.0", &[])]))];
    let news = update_all(&olds, &fetched).unwrap();
    assert_eq!(shape(&news[0]), shape(&dep("a", "1.2.0", None)));
    assert_eq!(shape(&news[1]), shape(&dep("b", "0.1.0", Some(&["f"]))));
}

#[test]
fn one_failure_fails_the_kind() {
    let olds = vec![dep("a", "1.0.0", None), dep("b", "0.1.0", None), dep("c", "0.1.0", None)];
    let fetched = vec![Some(snapshot("a", &[("1.0.0", &[])])), None, Some(snapshot("c", &[("bad", &[])]))];
    match update_all(&olds, &fetched) {
        Err(DepError::BatchFetchMismatch { expected, received }) => assert_eq!((expected, received), (3, 1)),
        other => panic!("unexpected {:?}", other),
    }
    assert!(matches!(update_all(&olds, &Vec::new()), Err(DepError::BatchFetchMismatch { .. })));
    assert!(update_all(&Vec::new(), &Vec::new()).unwrap().is_empty());
}

#[test]
fn single_dependency_at_its_latest_version() {
    let d = dep("x", "0.1.0", Some(&["f"])).update_version(&snapshot("x", &[("0.3.0", &[]), ("0.2.0", &[])])).unwrap();
    assert_eq!(shape(&d), shape(&dep("x", "0.3.0", Some(&["f"]))));
    assert!(matches!(
        dep("x", "0.1.0", None).update_version(&snapshot("x", &[])),
        Err(DepError::EmptyRegistryResult)
    ));
}

#[test]
fn nothing_to_update() {
    let text = "[dependencies]\nx = \"1.0.0\"\n";
    let found = Cargo::existing(text).unwrap();
    assert_eq!(found.len(), 1);
    assert_eq!(found[0].kind, DType::Normal);
    assert_eq!(found[0].old_versions, strings(&["1.0.0"]));
    let news = update_all(&found[0].deps, &vec![Some(snapshot("x", &[("1.0.0", &[])]))]).unwrap();
    let updates = vec![KindUpdate { kind: DType::Normal, deps: news, old_versions: found[0].old_versions.clone() }];
    assert_eq!(Cargo::update_deps(text, &updates).unwrap(), None);
}

#[test]
fn update_rewrites_every_updated_kind() {
    let text = "[package]\nname = \"demo\"\n[dependencies]\nx = \"1.0.0\"\ny = { version = \"0.1.0\", features = [\"f\"] }\n\
                [dev-dependencies]\nz = \"2.0.0\"\n[build-dependencies]\n";
    let found = Cargo::existing(text).unwrap();
    let kinds: Vec<DType> = found.iter().map(|u| u.kind.clone()).collect();
    assert_eq!(kinds, vec![DType::Normal, DType::Dev]);
    let mut updates = Vec::new();
    for u in found {
        let fetched: Vec<Option<CratesDep>> = u
            .deps
            .iter()
            .map(|d| match d.name.as_str() {
                "x" => Some(snapshot("x", &[("1.0.0", &[]), ("1.1.0", &[])])),
                "y" => Some(snapshot("y", &[("0.1.0", &[])])),
                _ => Some(snapshot("z", &[("1.0.0", &[])])),
            })
            .collect();
        let news = update_all(&u.deps, &fetched).unwrap();
        updates.push(KindUpdate { kind: u.kind, deps: news, old_versions: u.old_versions });
    }
    let out = Cargo::update_deps(text, &updates).unwrap().unwrap();
    let expected = table(
        "[package]\nname = \"demo\"\n[dependencies]\nx = \"1.1.0\"\ny = { version = \"0.1.0\", features = [\"f\"] }\n\
         [dev-dependencies]\nz = \"1.0.0\"\n[build-dependencies]\n",
    );
    assert_eq!(table(&out), expected);
}

#[test]
fn kinds_with_changes_are_counted() {
    let mut doc = table("[dependencies]\nx = \"1\"\nstale = \"0\"\n");
    let updates = vec![
        KindUpdate { kind: DType::Normal, deps: vec![dep("x", "2", None)], old_versions: strings(&["1"]) },
        KindUpdate { kind: DType::Dev, deps: vec![dep("y", "1", None)], old_versions: strings(&["1"]) },
        KindUpdate { kind: DType::Build, deps: vec![dep("z", "3", None), dep("w", "9", None)], old_versions: strings(&["2", "1"]) },
    ];
    assert_eq!(apply_updates(&mut doc, &updates), 2);
    assert_eq!(
        doc,
        table("[dependencies]\nx = \"2\"\n[dev-dependencies]\ny = \"1\"\n[build-dependencies]\nz = \"3\"\nw = \"9\"")
    );
    let mut doc = table("");
    assert_eq!(apply_updates(&mut doc, &Vec::new()), 0);
}

#[test]
fn section_is_put_anew() {
    let mut doc = table("[dependencies]\nold = \"1\"\n[other]\nk = 1");
    replace_section(&mut doc, &DType::Normal, &vec![dep("new", "2", None)]);
    assert_eq!(doc, table("[dependencies]\nnew = \"2\"\n[other]\nk = 1"));
}

#[test]
fn unreadable_entries_stop_the_update() {
    assert!(matches!(Cargo::existing("[dependencies]\nx = 3\n"), Err(DepError::EntryType)));
    assert!(matches!(Cargo::existing("[dependencies"), Err(DepError::Storage(_))));
    assert!(Cargo::existing("[package]\nname = \"x\"").unwrap().is_empty());
}

#[test]
fn names_of_a_list() {
    assert_eq!(parse_names(" a,b-c,,d \n"), strings(&["a", "b-c", "", "d"]));
    assert_eq!(parse_names(""), strings(&[""]));
}

#[test]
fn dependencies_are_taken_out() {
    let text = "[package]\nname = \"demo\"\n[dependencies]\na = \"1\"\nb = { version = \"2\", features = [\"f\"] }\nc = \"3\"\n\
                [dev-dependencies]\na = \"9\"\n[build-dependencies]\nd = \"4\"\n";
    let (out, removed) = Cargo::remove_deps(text, "a,b,zzz").unwrap();
    assert_eq!(removed.len(), 3);
    let mut normal: Vec<_> = removed[0].iter().map(shape).collect();
    normal.sort();
    assert_eq!(normal, vec![shape(&dep("a", "1", None)), shape(&dep("b", "2", Some(&["f"])))]);
    assert_eq!(removed[1].iter().map(shape).collect::<Vec<_>>(), vec![shape(&dep("a", "9", None))]);
    assert!(removed[2].is_empty());
    assert_eq!(
        table(&out),
        table("[package]\nname = \"demo\"\n[dependencies]\nc = \"3\"\n[build-dependencies]\nd = \"4\"\n")
    );
}

#[test]
fn taking_nothing_out_changes_nothing() {
    let text = "[dependencies]\na = \"1\"\n[dev-dependencies]\n";
    let (out, removed) = Cargo::remove_deps(text, "x").unwrap();
    assert!(removed.iter().all(|r| r.is_empty()));
    assert_eq!(table(&out), table(text));
    let mut doc = table(text);
    assert!(remove_from_kind(&mut doc, &DType::Build, &strings(&["a"])).unwrap().is_empty());
    assert_eq!(doc, table(text));
}

#[test]
fn unreadable_entry_stops_the_removal() {
    let mut doc = table("[dependencies]\na = 1\nb = \"2\"");
    assert!(matches!(remove_from_kind(&mut doc, &DType::Normal, &strings(&["a", "b"])), Err(DepError::EntryType)));
    assert_eq!(doc, table("[dependencies]\na = 1\nb = \"2\""));
    assert_eq!(remove_from_kind(&mut doc, &DType::Normal, &strings(&["b"])).unwrap().len(), 1);
    assert_eq!(doc, table("[dependencies]\na = 1"));
}

#[test]
fn dependencies_are_listed_by_kind() {
    let text = "[package]\nname = \"demo\"\n[dependencies]\na = \"1\"\n[dev-dependencies]\n[build-dependencies]\nb = { version = \"2\", features = [] }\n";
    let found = Cargo::list(text).unwrap();
    assert_eq!(found.len(), 2);
    assert_eq!(found[0].0, DType::Normal);
    assert_eq!(shape(&found[0].1[0]), shape(&dep("a", "1", None)));
    assert_eq!(found[1].0, DType::Build);
    assert_eq!(shape(&found[1].1[0]), shape(&dep("b", "2", Some(&[]))));
    assert!(Cargo::list("").unwrap().is_empty());
    assert!(matches!(Cargo::list("[dependencies]\na = []"), Err(DepError::EntryType)));
    assert!(matches!(Cargo::list("= 1"), Err(DepError::Storage(_))));
}

#[test]
fn manifest_among_the_entries_of_a_directory() {
    let paths = strings(&["./src", "./Cargo.lock", "./Cargo.toml.bak", "./Cargo.toml"]);
    assert_eq!(Cargo::find_in(&paths).unwrap().0, "./Cargo.toml.bak");
    assert!(Cargo::find_in(&strings(&["./src", "cargo.toml", "Cargo.tom"])).is_none());
    assert!(Cargo::find_in(&Vec::new()).is_none());
}

#[test]
fn manifest_text_reads_and_writes() {
    let doc = read_manifest("[a]\nb = 1.5\nc = 1979-05-27T07:32:00Z\n").unwrap();
    let text = write_manifest(&doc).unwrap();
    assert_eq!(table(&text), doc);
    assert!(matches!(read_manifest("a = "), Err(DepError::Storage(_))));
    assert!(matches!(write_manifest(&toml::Value::Integer(1)), Err(DepError::Storage(_))));
}
