use depi::api::CratesDep;
use depi::error::DepError;
use depi::wire::{read_snapshot, registry_url, snapshot_of};

fn snapshot(name: &str, versions: &[(&str, &[&str])]) -> CratesDep {
    let mut s = CratesDep::new(name.to_string());
    for (num, features) in versions {
        s.insert(num.to_string(), features.iter().map(|f| f.to_string()).collect());
    }
    s
}

#[test]
fn latest_version_skips_nothing_but_unreadable_texts() {
    let s = snapshot("x", &[("1.0.0", &[]), ("2.0.0-beta", &[]), ("1.5.2", &[])]);
    assert_eq!(s.get_last_version().unwrap(), "2.0.0");
}

#[test]
fn latest_version_passes_over_unreadable_texts() {
    let s = snapshot("x", &[("nightly", &[]), ("0.3.9", &[]), ("1.2.3.4", &[]), ("0.10.0", &[]), ("", &[])]);
    assert_eq!(s.get_last_version().unwrap(), "0.10.0");
}

#[test]
fn latest_version_is_normalised() {
    let s = snapshot("x", &[("v3", &[]), ("2.9", &[])]);
    assert_eq!(s.get_last_version().unwrap(), "3.0.0");
}

#[test]
fn no_latest_version_without_a_readable_one() {
    assert!(matches!(snapshot("x", &[]).get_last_version(), Err(DepError::EmptyRegistryResult)));
    assert!(matches!(
        snapshot("x", &[("latest", &[]), ("-", &[])]).get_last_version(),
        Err(DepError::EmptyRegistryResult)
    ));
}

#[test]
fn versions_are_found_by_their_exact_text() {
    let s = snapshot("x", &[("1.0.0", &["a", "b"]), ("1.0", &[])]);
    assert!(s.has_version("1.0.0"));
    assert!(s.has_version("1.0"));
    assert!(!s.has_version("1"));
    assert!(!s.has_version("1.0.0 "));
    assert_eq!(s.get_features("1.0.0").unwrap(), &vec!["a".to_string(), "b".to_string()]);
    assert!(s.get_features("1.0").unwrap().is_empty());
    assert!(s.get_features("2.0").is_none());
}

#[test]
fn a_version_recorded_again_takes_the_place() {
    let mut s = snapshot("x", &[("1.0.0", &["a"]), ("2.0.0", &["b"])]);
    s.insert("1.0.0".to_string(), vec!["c".to_string()]);
    assert_eq!(s.versions.len(), 2);
    assert_eq!(s.versions[0].0, "1.0.0");
    assert_eq!(s.get_features("1.0.0").unwrap(), &vec!["c".to_string()]);
    assert_eq!(s.get_features("2.0.0").unwrap(), &vec!["b".to_string()]);
}

#[test]
fn snapshot_from_an_answer() {
    let body = r#"{"crate":{"id":"x"},"versions":[
        {"num":"1.0.0","features":{"b":[],"a":["b"]},"yanked":false},
        {"num":"0.9.0"},
        {"features":{"z":[]}},
        {"num":7,"features":{}},
        {"num":"0.8.0","features":["a"]},
        "text",
        {"num":"2.0.0","features":{}}
    ]}"#;
    let s = read_snapshot("x", body).unwrap();
    assert_eq!(s.name, "x");
    assert_eq!(s.versions.len(), 2);
    assert_eq!(s.versions[0].0, "1.0.0");
    let mut features = s.versions[0].1.clone();
    features.sort();
    assert_eq!(features, vec!["a".to_string(), "b".to_string()]);
    assert_eq!(s.versions[1].0, "2.0.0");
    assert!(s.versions[1].1.is_empty());
}

#[test]
fn snapshot_keeps_the_last_record_of_a_version() {
    let body = r#"{"versions":[{"num":"1.0.0","features":{"a":[]}},{"num":"1.0.0","features":{"b":[]}}]}"#;
    let s = read_snapshot("x", body).unwrap();
    assert_eq!(s.versions.len(), 1);
    assert_eq!(s.get_features("1.0.0").unwrap(), &vec!["b".to_string()]);
}

#[test]
fn answers_of_another_shape_hold_no_versions() {
    for body in ["{}", "[]", "3", r#"{"versions":{}}"#, r#"{"versions":"none"}"#, "null"] {
        let s = read_snapshot("pkg", body).unwrap();
        assert_eq!(s.name, "pkg");
        assert!(s.versions.is_empty(), "{}", body);
    }
}

#[test]
fn answers_that_are_no_json_are_refused() {
    assert!(matches!(read_snapshot("x", "not json"), Err(DepError::Registry(_))));
    assert!(matches!(read_snapshot("x", ""), Err(DepError::Registry(_))));
    assert!(matches!(read_snapshot("x", "{\"versions\":["), Err(DepError::Registry(_))));
}

#[test]
fn snapshot_from_a_value() {
    let payload: serde_json::Value =
        serde_json::from_str(r#"{"versions":[{"num":"0.1.0","features":{"std":[]}}]}"#).unwrap();
    let s = snapshot_of("y", &payload);
    assert_eq!(s.get_features("0.1.0").unwrap(), &vec!["std".to_string()]);
}

#[test]
fn address_of_a_package() {
    assert_eq!(registry_url("serde"), "https://crates.io/api/v1/crates/serde");
    assert_eq!(registry_url(""), "https://crates.io/api/v1/crates/");
}
