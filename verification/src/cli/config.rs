//! A single configuration file that names remotes.

use vstd::prelude::*;

use crate::keyed::TextMap;
use crate::paths::{join, join_path};

pub use crate::config::RemoteConfig;

verus! {

/// What the configuration file says.
pub struct AppConfig {
    pub remotes: TextMap<RemoteConfig>,
}

impl Default for AppConfig {
    fn default() -> (r: Self)
        ensures
            r.remotes@ == Map::<Seq<char>, RemoteConfig>::empty(),
    {
        AppConfig { remotes: TextMap::new() }
    }
}

impl AppConfig {
    /// What is in force, given what the file says, if there is one.
    pub fn load(found: Option<AppConfig>) -> (r: Self)
        ensures
            r.remotes@ == match found {
                Some(c) => c.remotes@,
                None => Map::<Seq<char>, RemoteConfig>::empty(),
            },
    {
        match found {
            Some(c) => c,
            None => AppConfig::default(),
        }
    }
}

/// Where the configuration file is.
pub fn config_path(repo_root: &str) -> (r: String)
    ensures
        r@ == join(join(repo_root@, ".xet_ai"@), "config.toml"@),
{
    let dir = join_path(repo_root, ".xet_ai");
    join_path(dir.as_str(), "config.toml")
}

} // verus!
