//! Process-wide configuration: filesystem roots, repository location and
//! target architecture, passed explicitly into every component call.

use vstd::prelude::*;

verus! {

/// Where the package manager works: the root filesystem that packages are
/// extracted into, the database and cache directories, the ports tree, the
/// remote repository URL and the machine architecture. Paths are carried as
/// plain strings; reading or writing them is the caller's business.
pub struct Config {
    pub root: String,
    pub db_dir: String,
    pub cache_dir: String,
    pub ports_dir: String,
    pub repo_url: String,
    pub arch: String,
}

impl Config {
    /// The built-in configuration used when no configuration file exists.
    pub fn default() -> (c: Config)
        ensures
            c.root@ == "/"@,
            c.db_dir@ == "/var/lib/scarab"@,
            c.cache_dir@ == "/var/cache/scarab"@,
            c.ports_dir@ == "/usr/ports"@,
            c.repo_url@ == "https://github.com/scarab-os/packages/releases/download"@,
            c.arch@ == "x86_64"@,
    {
        Config {
            root: String::from_str("/"),
            db_dir: String::from_str("/var/lib/scarab"),
            cache_dir: String::from_str("/var/cache/scarab"),
            ports_dir: String::from_str("/usr/ports"),
            repo_url: String::from_str("https://github.com/scarab-os/packages/releases/download"),
            arch: String::from_str("x86_64"),
        }
    }
}

} // verus!
