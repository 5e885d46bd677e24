use depi::error::DepError;
use depi::ver::{parse_number, OrdVersion};

fn version(s: &str) -> OrdVersion {
    OrdVersion::parse(s).unwrap()
}

#[test]
fn three_two_and_one_components() {
    assert_eq!(version("1.2.3"), OrdVersion(1, 2, 3));
    assert_eq!(version("1.2"), OrdVersion(1, 2, 0));
    assert_eq!(version("7"), OrdVersion(7, 0, 0));
    assert_eq!(version("0.0.0"), OrdVersion(0, 0, 0));
    assert_eq!(version("010.002.0003"), OrdVersion(10, 2, 3));
}

#[test]
fn suffix_is_left_out() {
    assert_eq!(version("2.0.0-beta"), OrdVersion(2, 0, 0));
    assert_eq!(version("1.2-rc.1-x"), OrdVersion(1, 2, 0));
    assert_eq!(version("3-alpha.4.5.6"), OrdVersion(3, 0, 0));
}

#[test]
fn leading_marker_is_left_out() {
    assert_eq!(version("v1.2.3"), OrdVersion(1, 2, 3));
    assert_eq!(version("ver=1.2"), OrdVersion(1, 2, 0));
    assert_eq!(version("+1.2"), OrdVersion(1, 2, 0));
    assert_eq!(version(".1"), OrdVersion(1, 0, 0));
}

#[test]
fn sign_inside_a_component() {
    assert_eq!(version("1.+2.3"), OrdVersion(1, 2, 3));
}

#[test]
fn malformed_versions() {
    for s in ["", "-beta", "abc", "1.2.3.4", "1..2", "1.", "1.x", "1.2.3a", "1. 2", "1.+", "v"] {
        assert!(matches!(OrdVersion::parse(s), Err(DepError::MalformedVersion)), "{:?}", s);
    }
}

#[test]
fn component_must_fit_in_32_bits() {
    assert_eq!(version("4294967295.0.1"), OrdVersion(4294967295, 0, 1));
    assert!(OrdVersion::parse("4294967296").is_err());
    assert!(OrdVersion::parse("1.99999999999999999999.0").is_err());
}

#[test]
fn numbers() {
    let of = |s: &str| parse_number(&s.chars().collect());
    assert_eq!(of("0"), Some(0));
    assert_eq!(of("+17"), Some(17));
    assert_eq!(of("0042"), Some(42));
    assert_eq!(of(""), None);
    assert_eq!(of("+"), None);
    assert_eq!(of("-1"), None);
    assert_eq!(of("1_000"), None);
    assert_eq!(of("٣"), None);
    assert_eq!(of("4294967295"), "4294967295".parse::<u32>().ok());
    assert_eq!(of("4294967296"), "4294967296".parse::<u32>().ok());
}

#[test]
fn order_of_versions() {
    let a = version("2.0.0");
    let b = version("1.9.9");
    let c = version("1.9.0");
    assert!(b.is_before(&a) && c.is_before(&b) && c.is_before(&a));
    assert!(!a.is_before(&b) && !b.is_before(&c) && !a.is_before(&a));
    assert!(a > b && b > c && a > c);
    assert!(version("1.10.0") > version("1.9.0"));
    assert!(version("1.9.0").is_before(&version("1.10.0")));
}

#[test]
fn order_agrees_with_the_derived_one() {
    let all = [
        OrdVersion(0, 0, 0),
        OrdVersion(0, 0, 1),
        OrdVersion(0, 1, 0),
        OrdVersion(0, 9, 9),
        OrdVersion(1, 0, 0),
        OrdVersion(1, 0, 1),
        OrdVersion(2, 0, 0),
        OrdVersion(4294967295, 4294967295, 4294967295),
    ];
    for a in all.iter() {
        for b in all.iter() {
            assert_eq!(a.is_before(b), a < b, "{:?} {:?}", a, b);
        }
    }
}

#[test]
fn text_of_a_version() {
    assert_eq!(OrdVersion(1, 2, 3).to_string(), "1.2.3");
    assert_eq!(OrdVersion(0, 0, 0).to_string(), "0.0.0");
    assert_eq!(OrdVersion(10, 200, 4294967295).to_string(), "10.200.4294967295");
    assert_eq!(version("2.0.0-beta").to_string(), "2.0.0");
}

#[test]
fn text_reads_back() {
    for v in [OrdVersion(0, 0, 0), OrdVersion(1, 20, 300), OrdVersion(4294967295, 0, 9)] {
        assert_eq!(version(&v.to_string()), v);
    }
}

#[test]
fn default_version() {
    assert_eq!(OrdVersion::default(), OrdVersion(0, 0, 0));
}
