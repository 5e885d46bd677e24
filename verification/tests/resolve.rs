use depi::api::CratesDep;
use depi::cargo::{collect_snapshots, distinct_names, failed_names, resolve_set};
use depi::dep::{normalize, DType, Dep};
use depi::error::DepError;
use depi::parse::{parse_dep, parse_deps, PDep};

fn snapshot(name: &str, versions: &[(&str, &[&str])]) -> CratesDep {
    let mut s = CratesDep::new(name.to_string());
    for (num, features) in versions {
        s.insert(num.to_string(), features.iter().map(|f| f.to_string()).collect());
    }
    s
}

fn request(token: &str) -> PDep {
    parse_dep(token).unwrap()
}

fn strings(items: &[&str]) -> Vec<String> {
    items.iter().map(|s| s.to_string()).collect()
}

#[test]
fn latest_version_where_none_is_asked_for() {
    let s = snapshot("pkg", &[("1.0.0", &[]), ("3.2.1", &[]), ("3.2.0", &[])]);
    let d = normalize(&request("pkg"), &s).unwrap();
    assert_eq!((d.name.as_str(), d.version.as_str()), ("pkg", "3.2.1"));
    assert!(d.features.is_none());
}

#[test]
fn requested_version_must_be_recorded() {
    let s = snapshot("pkg", &[("1.0.0", &[])]);
    assert_eq!(normalize(&request("pkg@1.0.0"), &s).unwrap().version, "1.0.0");
    match normalize(&request("pkg@1.0"), &s) {
        Err(DepError::InvalidVersion(v)) => assert_eq!(v, "1.0"),
        other => panic!("unexpected {:?}", other),
    }
}

#[test]
fn name_comes_from_the_snapshot() {
    let s = snapshot("Serde", &[("1.0.0", &[])]);
    assert_eq!(normalize(&request("serde"), &s).unwrap().name, "Serde");
}

#[test]
fn features_keep_the_requested_order() {
    let s = snapshot("pkg", &[("1.0.0", &["a", "b", "c"])]);
    let d = normalize(&request("pkg@1.0.0:c,a"), &s).unwrap();
    assert_eq!(d.features, Some(strings(&["c", "a"])));
    let d = normalize(&request("pkg:b,b"), &s).unwrap();
    assert_eq!(d.features, Some(strings(&["b", "b"])));
}

#[test]
fn missing_feature_is_named() {
    let s = snapshot("pkg", &[("1.0.0", &["a", "b"])]);
    match normalize(&request("pkg@1.0.0:a,nope,b,other"), &s) {
        Err(DepError::InvalidFeature(f)) => assert_eq!(f, "nope"),
        other => panic!("unexpected {:?}", other),
    }
    match normalize(&request("pkg:a,,b"), &s) {
        Err(DepError::InvalidFeature(f)) => assert_eq!(f, ""),
        other => panic!("unexpected {:?}", other),
    }
}

#[test]
fn version_is_checked_before_features() {
    let s = snapshot("pkg", &[("1.0.0", &["a"])]);
    assert!(matches!(normalize(&request("pkg@9:nope"), &s), Err(DepError::InvalidVersion(_))));
}

#[test]
fn latest_version_without_a_record_of_its_own() {
    let s = snapshot("pkg", &[("2.0.0-beta", &["a"])]);
    assert_eq!(normalize(&request("pkg"), &s).unwrap().version, "2.0.0");
    assert!(matches!(normalize(&request("pkg:a"), &s), Err(DepError::InconsistentRegistryData)));
}

#[test]
fn nothing_to_choose_from() {
    let s = snapshot("pkg", &[]);
    assert!(matches!(normalize(&request("pkg"), &s), Err(DepError::EmptyRegistryResult)));
    assert!(matches!(normalize(&request("pkg@1"), &s), Err(DepError::InvalidVersion(_))));
}

#[test]
fn each_package_is_asked_for_once() {
    let deps = parse_deps("a/b@1/a:f/c/b", &Vec::new()).unwrap();
    assert_eq!(distinct_names(&deps), strings(&["a", "b", "c"]));
    assert!(distinct_names(&Vec::new()).is_empty());
}

#[test]
fn one_missing_snapshot_fails_the_batch() {
    let got = collect_snapshots(2, vec![Some(snapshot("a", &[])), Some(snapshot("b", &[]))]).unwrap();
    assert_eq!(got.len(), 2);
    assert_eq!((got[0].name.as_str(), got[1].name.as_str()), ("a", "b"));
    match collect_snapshots(3, vec![Some(snapshot("a", &[])), None, Some(snapshot("c", &[]))]) {
        Err(DepError::BatchFetchMismatch { expected, received }) => assert_eq!((expected, received), (3, 2)),
        other => panic!("unexpected {:?}", other),
    }
    assert!(collect_snapshots(0, Vec::new()).unwrap().is_empty());
    assert!(matches!(collect_snapshots(1, Vec::new()), Err(DepError::BatchFetchMismatch { .. })));
}

#[test]
fn batch_from_line_to_buckets() {
    let deps = parse_deps("pkgA@1.0:feat1,feat2/pkgB", &Vec::new()).unwrap();
    let snapshots = vec![
        snapshot("pkgA", &[("1.0", &["feat1", "feat2", "feat3"])]),
        snapshot("pkgB", &[("3.2.1", &[]), ("3.0.0", &[])]),
    ];
    let buckets = resolve_set(&deps, &snapshots).unwrap();
    assert_eq!(buckets.len(), 1);
    assert_eq!(buckets[0].0, DType::Normal);
    let got: &Vec<Dep> = &buckets[0].1;
    assert_eq!(got.len(), 2);
    assert_eq!((got[0].name.as_str(), got[0].version.as_str()), ("pkgA", "1.0"));
    assert_eq!(got[0].features, Some(strings(&["feat1", "feat2"])));
    assert_eq!((got[1].name.as_str(), got[1].version.as_str()), ("pkgB", "3.2.1"));
    assert_eq!(got[1].features, None);
}

#[test]
fn batch_is_sorted_by_kind() {
    let deps = parse_deps("a!dev/b/c!Dev/d!linux/e!build/f!normal/g!LINUX/h!windows", &Vec::new()).unwrap();
    let snapshots: Vec<CratesDep> =
        ["a", "b", "c", "d", "e", "f", "g", "h"].iter().map(|n| snapshot(n, &[("1.0.0", &[])])).collect();
    let buckets = resolve_set(&deps, &snapshots).unwrap();
    let shape: Vec<(DType, Vec<&str>)> =
        buckets.iter().map(|(k, ds)| (k.clone(), ds.iter().map(|d| d.name.as_str()).collect())).collect();
    assert_eq!(
        shape,
        vec![
            (DType::Dev, vec!["a", "c"]),
            (DType::Normal, vec!["b", "f"]),
            (DType::OS("linux".to_string()), vec!["d", "g"]),
            (DType::Build, vec!["e"]),
            (DType::OS("windows".to_string()), vec!["h"]),
        ]
    );
}

#[test]
fn batch_fails_with_its_first_failure() {
    let deps = parse_deps("a/b@9/c:nope", &Vec::new()).unwrap();
    let snapshots = vec![snapshot("a", &[("1.0.0", &[])]), snapshot("b", &[("1.0.0", &[])]), snapshot("c", &[("1.0.0", &[])])];
    match resolve_set(&deps, &snapshots) {
        Err(DepError::InvalidVersion(v)) => assert_eq!(v, "9"),
        other => panic!("unexpected {:?}", other),
    }
}

#[test]
fn batch_needs_a_snapshot_for_each_request() {
    let deps = parse_deps("a/b", &Vec::new()).unwrap();
    let snapshots = vec![snapshot("a", &[("1.0.0", &[])])];
    match resolve_set(&deps, &snapshots) {
        Err(DepError::MissingSnapshot(name)) => assert_eq!(name, "b"),
        other => panic!("unexpected {:?}", other),
    }
}

#[test]
fn empty_batch() {
    assert!(resolve_set(&Vec::new(), &Vec::new()).unwrap().is_empty());
}

#[test]
fn packages_that_did_not_come_back_are_named() {
    let names = strings(&["a", "b", "c", "d"]);
    let fetched = vec![Some(snapshot("a", &[])), None, Some(snapshot("c", &[]))];
    assert_eq!(failed_names(&names, &fetched), strings(&["b", "d"]));
    assert!(failed_names(&names[..1].to_vec(), &fetched).is_empty());
    assert!(failed_names(&Vec::new(), &fetched).is_empty());
}
