//! Settings and the configuration files they are read from.
//!
//! Each directory of configuration files holds one file of defaults and one
//! file for each run mode. Files are read in order and a later file
//! overrides an earlier one: the system directory comes before the user's
//! directory, and in each directory the defaults come before the run mode.

use vstd::prelude::*;
use vstd::string::*;

verus! {

/// Settings of the log.
#[derive(Debug, Clone, PartialEq, Eq)]
pub struct Log {
    pub level: String,
}

/// Settings of the gossip between nodes.
#[derive(Debug, Clone, PartialEq, Eq)]
pub struct Gossip {
    pub protocol: String,
}

/// All settings.
#[derive(Debug, Clone, PartialEq, Eq)]
pub struct Settings {
    log: Log,
    gossip: Gossip,
}

impl Settings {
    pub closed spec fn spec_log(&self) -> Log {
        self.log
    }

    pub closed spec fn spec_gossip(&self) -> Gossip {
        self.gossip
    }

    pub fn from_sections(log: Log, gossip: Gossip) -> (settings: Settings)
        ensures
            settings.spec_log() == log,
            settings.spec_gossip() == gossip,
    {
        Settings { log, gossip }
    }

    pub fn log(&self) -> (log: &Log)
        ensures
            *log == self.spec_log(),
    {
        &self.log
    }

    pub fn gossip(&self) -> (gossip: &Gossip)
        ensures
            *gossip == self.spec_gossip(),
    {
        &self.gossip
    }
}

/// The directory of the system's configuration files.
pub fn system_conf_dir() -> (dir: &'static str)
    ensures
        dir@ == "/etc/horao"@,
{
    "/etc/horao"
}

/// The prefix of the environment variables that override the files.
pub fn env_prefix() -> (prefix: &'static str)
    ensures
        prefix@ == "HORAO"@,
{
    "HORAO"
}

/// The run mode: the one that was chosen, or `development`.
pub fn run_mode(chosen: Option<String>) -> (mode: String)
    ensures
        mode@ == match chosen {
            Some(name) => name@,
            None => "development"@,
        },
{
    match chosen {
        Some(name) => name,
        None => String::from_str("development"),
    }
}

/// The name of a configuration file in a directory.
pub open spec fn file_in(dir: Seq<char>, name: Seq<char>) -> Seq<char> {
    dir + "/"@ + name
}

/// The configuration files to read, in reading order.
pub open spec fn sources_of(mode: Seq<char>, user_dir: Option<Seq<char>>) -> Seq<Seq<char>> {
    let system = seq![file_in("/etc/horao"@, "default"@), file_in("/etc/horao"@, mode)];
    match user_dir {
        Some(dir) => system + seq![file_in(dir, "default"@), file_in(dir, mode)],
        None => system,
    }
}

/// The name of the configuration file `name` in the directory `dir`.
pub fn config_file(dir: &str, name: &str) -> (file: String)
    ensures
        file@ == file_in(dir@, name@),
{
    let mut file = String::from_str(dir);
    file.append("/");
    file.append(name);
    file
}

/// The configuration files to read for a run mode, in reading order: the
/// system's defaults and its file for the mode, then, where the user has a
/// configuration directory, the same two files there.
pub fn config_sources(mode: &str, user_dir: Option<&str>) -> (files: Vec<String>)
    ensures
        files.len() == sources_of(mode@, user_view(user_dir)).len(),
        forall|i: int|
            0 <= i < files.len() ==> (#[trigger] files[i])@ == sources_of(
                mode@,
                user_view(user_dir),
            )[i],
{
    let mut files: Vec<String> = Vec::new();
    files.push(config_file(system_conf_dir(), "default"));
    files.push(config_file(system_conf_dir(), mode));
    match user_dir {
        Some(dir) => {
            files.push(config_file(dir, "default"));
            files.push(config_file(dir, mode));
        },
        None => {},
    }
    files
}

/// The directory as a sequence of characters, where there is one.
pub open spec fn user_view(user_dir: Option<&str>) -> Option<Seq<char>> {
    match user_dir {
        Some(dir) => Some(dir@),
        None => None,
    }
}

} // verus!
