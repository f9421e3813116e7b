//! Where the configuration and the task file live.
use crate::error::GodoError;
use crate::text::{chars_of, string_of};
use std::path::PathBuf;
use vstd::prelude::*;

verus! {

#[derive(Debug, Clone)]
pub struct Config {
    pub general: GeneralConfig,
    pub display: DisplayConfig,
}

#[derive(Debug, Clone)]
pub struct GeneralConfig {
    pub data_file: String,
}

#[derive(Debug, Clone)]
pub struct DisplayConfig {
    pub date_format: String,
}

impl Default for Config {
    /// The task file at `~/.godo/tasks.md`, dates shown as `%Y-%m-%d %H:%M`.
    fn default() -> (r: Self)
        ensures
            r.general.data_file@ == "~/.godo/tasks.md"@,
            r.display.date_format@ == "%Y-%m-%d %H:%M"@,
    {
        Config {
            general: GeneralConfig { data_file: "~/.godo/tasks.md".to_owned() },
            display: DisplayConfig { date_format: "%Y-%m-%d %H:%M".to_owned() },
        }
    }
}

impl Config {
    /// The task file, with a leading `~/` taken from the home directory.
    pub fn data_file_path(&self) -> (r: Result<PathBuf, GodoError>)
        ensures
            tilde_rest(self.general.data_file@) is None ==> r is Ok,
            r matches Err(e) ==> e is HomeNotFound,
    {
        expand_tilde(self.general.data_file.as_str())
    }
}

/// What follows a leading `~/`, if the path starts so.
pub open spec fn tilde_rest(p: Seq<char>) -> Option<Seq<char>> {
    if p.len() >= 2 && p[0] == '~' && p[1] == '/' {
        Some(p.subrange(2, p.len() as int))
    } else {
        None
    }
}

/// What follows a leading `~/`, if the path starts so.
pub fn home_relative(path: &str) -> (r: Option<String>)
    ensures
        r matches Some(s) ==> tilde_rest(path@) == Some(s@),
        r is None ==> tilde_rest(path@) is None,
{
    let cs = chars_of(path);
    if cs.len() >= 2 && cs[0] == '~' && cs[1] == '/' {
        let mut rest: Vec<char> = Vec::new();
        let mut k: usize = 2;
        while k < cs.len()
            invariant
                2 <= k <= cs.len(),
                rest@ == cs@.subrange(2, k as int),
            decreases cs.len() - k,
        {
            rest.push(cs[k]);
            k += 1;
            assert(rest@ =~= cs@.subrange(2, k as int));
        }
        Some(string_of(&rest))
    } else {
        None
    }
}

/// The directory that holds the configuration: `.godo` in the home directory.
pub fn godo_dir() -> (r: Result<PathBuf, GodoError>)
    ensures
        r matches Err(e) ==> e is HomeNotFound,
{
    match home_dir() {
        Some(home) => Ok(join(&home, ".godo")),
        None => Err(GodoError::HomeNotFound),
    }
}

/// The configuration file: `config.toml` in `godo_dir()`.
pub fn config_path() -> (r: Result<PathBuf, GodoError>)
    ensures
        r matches Err(e) ==> e is HomeNotFound,
{
    match godo_dir() {
        Ok(dir) => Ok(join(&dir, "config.toml")),
        Err(e) => Err(e),
    }
}

/// The path as given, with a leading `~/` taken from the home directory.
pub fn expand_tilde(path: &str) -> (r: Result<PathBuf, GodoError>)
    ensures
        tilde_rest(path@) is None ==> r is Ok,
        r matches Err(e) ==> e is HomeNotFound,
{
    match home_relative(path) {
        Some(rest) => match home_dir() {
            Some(home) => Ok(join(&home, rest.as_str())),
            None => Err(GodoError::HomeNotFound),
        },
        None => Ok(path_of(path)),
    }
}

/// Relies on `dirs::home_dir`: the home directory, if one can be found. It
/// depends on the environment, so nothing is stated of it.
#[verifier::external_body]
fn home_dir() -> (r: Option<PathBuf>) {
    dirs::home_dir()
}

/// Relies on `Path::join`: `part` appended to `base`.
#[verifier::external_body]
fn join(base: &PathBuf, part: &str) -> (r: PathBuf) {
    base.join(part)
}

/// Relies on `PathBuf::from`: the path that the text names.
#[verifier::external_body]
fn path_of(s: &str) -> (r: PathBuf) {
    PathBuf::from(s)
}

} // verus!
