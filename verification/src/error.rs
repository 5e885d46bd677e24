//! The failures that parsing, resolution and batch handling report.

use vstd::prelude::*;
use vstd::string::StringExecFns;
use crate::text::string_of;
use crate::ver::{decimal, push_decimal};

verus! {

/// The part of a dependency token that the parser is reading.
#[derive(Clone, Copy, Debug, PartialEq, Eq, Structural)]
pub enum Section {
    Name,
    Version,
    Features,
    Target,
}

/// Why an operation of this library failed.
#[derive(Clone, Debug)]
pub enum DepError {
    /// The token was empty once surrounding whitespace was removed.
    EmptyToken,
    /// A character that the current section does not accept. The fields hold
    /// what had been read of each section before that character, and the
    /// section that was being read.
    TokenParse { name: String, version: String, features: String, target: String, section: Section },
    /// A version text that is not one to three dot-separated numbers.
    MalformedVersion,
    /// The requested version is not in the registry; holds the request.
    InvalidVersion(String),
    /// The requested feature is not offered by the chosen version; holds the
    /// feature's name.
    InvalidFeature(String),
    /// The chosen version has no feature record in the snapshot.
    InconsistentRegistryData,
    /// No version of the package could be read as a version.
    EmptyRegistryResult,
    /// Fewer snapshots or resolutions came back than were asked for.
    BatchFetchMismatch { expected: usize, received: usize },
    /// No snapshot was handed in for the package of a request; holds the
    /// package's name.
    MissingSnapshot(String),
    /// A manifest entry is a table without a `version` text.
    EntryVersion,
    /// A manifest entry is a table without a `features` array.
    EntryFeatures,
    /// A manifest entry is neither a text nor a table.
    EntryType,
    /// Stored data could not be read; holds the cause.
    Storage(String),
    /// The answer of the registry could not be read; holds the cause.
    Registry(String),
}

/// The mathematical content of a [`DepError`].
pub enum Failure {
    EmptyToken,
    TokenParse {
        name: Seq<char>,
        version: Seq<char>,
        features: Seq<char>,
        target: Seq<char>,
        section: Section,
    },
    MalformedVersion,
    InvalidVersion(Seq<char>),
    InvalidFeature(Seq<char>),
    InconsistentRegistryData,
    EmptyRegistryResult,
    BatchFetchMismatch { expected: nat, received: nat },
    MissingSnapshot(Seq<char>),
    EntryVersion,
    EntryFeatures,
    EntryType,
    Storage(Seq<char>),
    Registry(Seq<char>),
}

impl View for DepError {
    type V = Failure;

    open spec fn view(&self) -> Failure {
        match *self {
            DepError::EmptyToken => Failure::EmptyToken,
            DepError::TokenParse { name, version, features, target, section } => Failure::TokenParse {
                name: name@,
                version: version@,
                features: features@,
                target: target@,
                section,
            },
            DepError::MalformedVersion => Failure::MalformedVersion,
            DepError::InvalidVersion(v) => Failure::InvalidVersion(v@),
            DepError::InvalidFeature(f) => Failure::InvalidFeature(f@),
            DepError::InconsistentRegistryData => Failure::InconsistentRegistryData,
            DepError::EmptyRegistryResult => Failure::EmptyRegistryResult,
            DepError::BatchFetchMismatch { expected, received } => Failure::BatchFetchMismatch {
                expected: expected as nat,
                received: received as nat,
            },
            DepError::MissingSnapshot(name) => Failure::MissingSnapshot(name@),
            DepError::EntryVersion => Failure::EntryVersion,
            DepError::EntryFeatures => Failure::EntryFeatures,
            DepError::EntryType => Failure::EntryType,
            DepError::Storage(cause) => Failure::Storage(cause@),
            DepError::Registry(cause) => Failure::Registry(cause@),
        }
    }
}

/// The mathematical content of a result whose two sides have views.
pub open spec fn outcome<T: View, E: View>(r: Result<T, E>) -> Result<T::V, E::V> {
    match r {
        Ok(t) => Ok(t@),
        Err(e) => Err(e@),
    }
}

/// The word for a section.
pub open spec fn section_word(section: Section) -> Seq<char> {
    match section {
        Section::Name => "name"@,
        Section::Version => "version"@,
        Section::Features => "features"@,
        Section::Target => "target"@,
    }
}

/// How many of the expected answers are missing; none where more came
/// back than were expected.
pub open spec fn shortfall(expected: nat, received: nat) -> nat {
    if expected >= received {
        (expected - received) as nat
    } else {
        0
    }
}

/// The message that tells a user of a failure. It names what failed: the
/// token as far as it was read, the version, the feature or the package.
pub open spec fn message_of(failure: Failure) -> Seq<char> {
    match failure {
        Failure::EmptyToken => "provided empty string"@,
        Failure::TokenParse { name, version, features, target, section } => {
            "parse error\ncurstate:\n  "@ + name + "\n  "@ + version + "\n  "@ + features + "\n  "@
                + target + "\n  "@ + section_word(section) + "\n"@
        },
        Failure::MalformedVersion => "version is not one to three numbers"@,
        Failure::InvalidVersion(version) => "invalid version: "@ + version,
        Failure::InvalidFeature(feature) => "invalid features: "@ + feature,
        Failure::InconsistentRegistryData => "invalid features, strange"@,
        Failure::EmptyRegistryResult => "no version of the package can be read"@,
        Failure::BatchFetchMismatch { expected, received } => {
            "error fetching some dependencies: "@ + decimal(shortfall(expected, received))
        },
        Failure::MissingSnapshot(name) => "nothing was fetched for "@ + name,
        Failure::EntryVersion => "parse error: version"@,
        Failure::EntryFeatures => "parse error: features"@,
        Failure::EntryType => "parse error: incorrect attrs type"@,
        Failure::Storage(cause) => cause,
        Failure::Registry(cause) => cause,
    }
}

impl Section {
    /// The word for the section.
    pub fn word(&self) -> (r: String)
        ensures
            r@ == section_word(*self),
    {
        match self {
            Section::Name => String::from_str("name"),
            Section::Version => String::from_str("version"),
            Section::Features => String::from_str("features"),
            Section::Target => String::from_str("target"),
        }
    }
}

impl DepError {
    /// The message that tells a user of the failure.
    pub fn message(&self) -> (r: String)
        ensures
            r@ == message_of(self@),
    {
        match self {
            DepError::EmptyToken => String::from_str("provided empty string"),
            DepError::TokenParse { name, version, features, target, section } => {
                let mut out = String::from_str("parse error\ncurstate:\n  ");
                out.append(name.as_str());
                out.append("\n  ");
                out.append(version.as_str());
                out.append("\n  ");
                out.append(features.as_str());
                out.append("\n  ");
                out.append(target.as_str());
                out.append("\n  ");
                out.append(section.word().as_str());
                out.append("\n");
                out
            },
            DepError::MalformedVersion => String::from_str("version is not one to three numbers"),
            DepError::InvalidVersion(version) => {
                let mut out = String::from_str("invalid version: ");
                out.append(version.as_str());
                out
            },
            DepError::InvalidFeature(feature) => {
                let mut out = String::from_str("invalid features: ");
                out.append(feature.as_str());
                out
            },
            DepError::InconsistentRegistryData => String::from_str("invalid features, strange"),
            DepError::EmptyRegistryResult => String::from_str(
                "no version of the package can be read",
            ),
            DepError::BatchFetchMismatch { expected, received } => {
                let missing: usize = if *expected >= *received {
                    *expected - *received
                } else {
                    0
                };
                let mut digits: Vec<char> = Vec::new();
                push_decimal(&mut digits, missing as u64);
                let mut out = String::from_str("error fetching some dependencies: ");
                out.append(string_of(&digits).as_str());
                proof {
                    assert(Seq::<char>::empty() + decimal(missing as nat) =~= decimal(
                        missing as nat,
                    ));
                }
                out
            },
            DepError::MissingSnapshot(name) => {
                let mut out = String::from_str("nothing was fetched for ");
                out.append(name.as_str());
                out
            },
            DepError::EntryVersion => String::from_str("parse error: version"),
            DepError::EntryFeatures => String::from_str("parse error: features"),
            DepError::EntryType => String::from_str("parse error: incorrect attrs type"),
            DepError::Storage(cause) => cause.clone(),
            DepError::Registry(cause) => cause.clone(),
        }
    }
}

} // verus!
