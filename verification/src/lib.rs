//! Dependency specifications for project manifests: a compact mini-language
//! for naming packages, a version model, and the rules that resolve a request
//! against a registry snapshot and merge the outcome into a manifest.

pub mod api;
pub mod cargo;
pub mod compose;
pub mod dep;
pub mod error;
pub mod manifest;
pub mod merge;
pub mod parse;
pub mod project;
pub mod remove;
pub mod storage;
pub mod style;
pub mod table;
pub mod text;
pub mod update;
pub mod ver;
pub mod wire;
