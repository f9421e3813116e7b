//! The errors that the task tracker reports.
use std::path::PathBuf;
use vstd::prelude::*;

verus! {

#[verifier::external_type_specification]
#[verifier::external_body]
pub struct ExPathBuf(std::path::PathBuf);

#[verifier::external_type_specification]
#[verifier::external_body]
pub struct ExIoError(std::io::Error);

#[verifier::external_type_specification]
#[verifier::external_body]
pub struct ExTomlDeError(toml::de::Error);

#[verifier::external_type_specification]
#[verifier::external_body]
pub struct ExTomlSerError(toml::ser::Error);

#[derive(Debug)]
pub enum GodoError {
    NotInitialized,
    AlreadyInitialized(PathBuf),
    TaskNotFound(u32),
    FileRead { path: PathBuf, source: std::io::Error },
    FileWrite { path: PathBuf, source: std::io::Error },
    CreateDir { path: PathBuf, source: std::io::Error },
    ConfigParse(toml::de::Error),
    ConfigSerialize(toml::ser::Error),
    HomeNotFound,
}

} // verus!
