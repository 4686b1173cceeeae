//! Configuration: a shared file, a local file on top of it, and what comes of the two.

use vstd::prelude::*;

use crate::keyed::{lists_set, TextMap};
use crate::paths::{join, join_path};
use crate::text::texts;

verus! {

/// A remote: the type of its backend and where it is.
pub struct RemoteConfig {
    pub kind: String,
    pub path: String,
}

impl Clone for RemoteConfig {
    fn clone(&self) -> (r: Self)
        ensures
            r == *self,
    {
        RemoteConfig { kind: self.kind.clone(), path: self.path.clone() }
    }
}

/// What a configuration file says.
pub struct ConfigFile {
    pub remotes: TextMap<RemoteConfig>,
    pub default_remote: Option<String>,
    pub auto_pull_on_smudge: Option<bool>,
}

impl Default for ConfigFile {
    fn default() -> (r: Self)
        ensures
            r.remotes@ == Map::<Seq<char>, RemoteConfig>::empty(),
            r.default_remote is None,
            r.auto_pull_on_smudge is None,
    {
        ConfigFile { remotes: TextMap::new(), default_remote: None, auto_pull_on_smudge: None }
    }
}

/// The configuration that is in force.
pub struct EffectiveConfig {
    pub remotes: TextMap<RemoteConfig>,
    pub default_remote: Option<String>,
    pub auto_pull_on_smudge: bool,
}

/// The remotes of a configuration file that may not be there.
pub open spec fn remotes_in(file: Option<ConfigFile>) -> Map<Seq<char>, RemoteConfig> {
    match file {
        Some(c) => c.remotes@,
        None => Map::empty(),
    }
}

/// The default remote of a configuration file that may not be there.
pub open spec fn default_in(file: Option<ConfigFile>) -> Option<Seq<char>> {
    match file {
        Some(c) => c.default_remote.deep_view(),
        None => None,
    }
}

/// Whether a configuration file that may not be there wants a pull where data is missing.
pub open spec fn auto_pull_in(file: Option<ConfigFile>) -> Option<bool> {
    match file {
        Some(c) => c.auto_pull_on_smudge,
        None => None,
    }
}

/// The first of two values that is there.
pub open spec fn first_given<T>(a: Option<T>, b: Option<T>) -> Option<T> {
    if a is Some {
        a
    } else {
        b
    }
}

/// The shared configuration, given what its file says, if there is one.
pub fn load_shared(found: Option<ConfigFile>) -> (r: ConfigFile)
    ensures
        r.remotes@ == remotes_in(found),
        r.default_remote.deep_view() == default_in(found),
        r.auto_pull_on_smudge == auto_pull_in(found),
{
    match found {
        Some(c) => c,
        None => ConfigFile::default(),
    }
}

/// The local configuration, given what its file says, if there is one.
pub fn load_local(found: Option<ConfigFile>) -> (r: ConfigFile)
    ensures
        r.remotes@ == remotes_in(found),
        r.default_remote.deep_view() == default_in(found),
        r.auto_pull_on_smudge == auto_pull_in(found),
{
    match found {
        Some(c) => c,
        None => ConfigFile::default(),
    }
}

impl EffectiveConfig {
    /// What comes of the shared file and the local one, where they are there: all remotes
    /// of both, and for the rest, and for a remote that both name, the local value.
    pub fn load(shared: Option<ConfigFile>, local: Option<ConfigFile>) -> (r: Self)
        ensures
            r.remotes@ == remotes_in(shared).union_prefer_right(remotes_in(local)),
            r.default_remote.deep_view() == first_given(default_in(local), default_in(shared)),
            r.auto_pull_on_smudge == (first_given(auto_pull_in(local), auto_pull_in(shared))
                == Some(true)),
    {
        let ghost shared_remotes = remotes_in(shared);
        let ghost local_remotes = remotes_in(local);
        let shared = load_shared(shared);
        let local = load_local(local);
        let mut remotes = shared.remotes;
        let names = local.remotes.keys();
        let mut i: usize = 0;
        while i < names.len()
            invariant
                i <= names@.len(),
                lists_set(texts(names@), local_remotes.dom()),
                local.remotes@ == local_remotes,
                remotes@.dom() == shared_remotes.dom().union(
                    texts(names@).take(i as int).to_set(),
                ),
                forall|k: Seq<char>| #[trigger]
                    remotes@.contains_key(k) ==> remotes@[k] == if texts(names@).take(
                        i as int,
                    ).contains(k) {
                        local_remotes[k]
                    } else {
                        shared_remotes[k]
                    },
            decreases names@.len() - i,
        {
            let ghost before = texts(names@).take(i as int);
            let ghost name = names@[i as int]@;
            proof {
                assert(texts(names@)[i as int] == name);
                assert(texts(names@).contains(name));
                assert(texts(names@).take(i + 1) =~= before.push(name));
                assert(before.push(name).to_set() =~= before.to_set().insert(name)) by {
                    broadcast use vstd::seq_lib::group_seq_properties;

                }
                assert forall|k: Seq<char>| before.push(name).contains(k) == (before.contains(k)
                    || k == name) by {
                    assert(before.push(name)[i as int] == name);
                }
            }
            match local.remotes.get(names[i].as_str()) {
                Some(remote) => remotes.insert(names[i].clone(), remote.clone()),
                None => {},
            }
            proof {
                assert forall|k: Seq<char>| #[trigger] remotes@.contains_key(k) implies remotes@[k]
                    == if texts(names@).take(i + 1).contains(k) {
                    local_remotes[k]
                } else {
                    shared_remotes[k]
                } by {
                    assert(before.push(name).contains(k) == (before.contains(k) || k == name));
                }
            }
            i += 1;
        }
        proof {
            assert(texts(names@).take(i as int) =~= texts(names@));
        }
        let default_remote = match local.default_remote {
            Some(name) => Some(name),
            None => shared.default_remote,
        };
        let auto_pull_on_smudge = match local.auto_pull_on_smudge {
            Some(b) => b,
            None => match shared.auto_pull_on_smudge {
                Some(b) => b,
                None => false,
            },
        };
        EffectiveConfig { remotes, default_remote, auto_pull_on_smudge }
    }
}

/// Where the shared configuration is.
pub fn shared_config_path(repo_root: &str) -> (r: String)
    ensures
        r@ == join(repo_root@, ".xet_ai.toml"@),
{
    join_path(repo_root, ".xet_ai.toml")
}

/// Where the local configuration is.
pub fn local_config_path(repo_root: &str) -> (r: String)
    ensures
        r@ == join(join(repo_root@, ".xet_ai"@), "config.local.toml"@),
{
    let dir = join_path(repo_root, ".xet_ai");
    join_path(dir.as_str(), "config.local.toml")
}

} // verus!
