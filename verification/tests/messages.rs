use depi::error::{DepError, Section};
use depi::parse::parse_dep;

#[test]
fn message_of_a_refused_token() {
    let e = parse_dep("serde@1.0:derive!dev?").unwrap_err();
    assert_eq!(e.message(), "parse error\ncurstate:\n  serde\n  1.0\n  derive\n  dev\n  target\n");
    let e = parse_dep("a b").unwrap_err();
    assert_eq!(e.message(), "parse error\ncurstate:\n  a\n  \n  \n  \n  name\n");
    assert_eq!(parse_dep(" ").unwrap_err().message(), "provided empty string");
}

#[test]
fn messages_name_what_failed() {
    assert_eq!(DepError::InvalidVersion("9.9".to_string()).message(), "invalid version: 9.9");
    assert_eq!(DepError::InvalidFeature("nope".to_string()).message(), "invalid features: nope");
    assert_eq!(DepError::MissingSnapshot("pkg".to_string()).message(), "nothing was fetched for pkg");
    assert_eq!(DepError::Storage("broken".to_string()).message(), "broken");
    assert_eq!(DepError::Registry("eof".to_string()).message(), "eof");
}

#[test]
fn messages_of_the_other_failures() {
    assert_eq!(DepError::MalformedVersion.message(), "version is not one to three numbers");
    assert_eq!(DepError::InconsistentRegistryData.message(), "invalid features, strange");
    assert_eq!(DepError::EmptyRegistryResult.message(), "no version of the package can be read");
    assert_eq!(DepError::EntryVersion.message(), "parse error: version");
    assert_eq!(DepError::EntryFeatures.message(), "parse error: features");
    assert_eq!(DepError::EntryType.message(), "parse error: incorrect attrs type");
}

#[test]
fn message_counts_what_is_missing() {
    let e = DepError::BatchFetchMismatch { expected: 12, received: 2 };
    assert_eq!(e.message(), "error fetching some dependencies: 10");
    let e = DepError::BatchFetchMismatch { expected: 3, received: 3 };
    assert_eq!(e.message(), "error fetching some dependencies: 0");
    let e = DepError::BatchFetchMismatch { expected: 1, received: 5 };
    assert_eq!(e.message(), "error fetching some dependencies: 0");
    let e = DepError::BatchFetchMismatch { expected: usize::MAX, received: 0 };
    assert_eq!(e.message(), format!("error fetching some dependencies: {}", usize::MAX));
}

#[test]
fn words_of_the_sections() {
    assert_eq!(Section::Name.word(), "name");
    assert_eq!(Section::Version.word(), "version");
    assert_eq!(Section::Features.word(), "features");
    assert_eq!(Section::Target.word(), "target");
}
