//! Names and places: remotes, manifests, validation directories.

use vstd::prelude::*;

use crate::config::{ConfigFile, EffectiveConfig, RemoteConfig};
use crate::error::{told_text, Error};
use crate::files::{is_random_uuid, random_suffix};
use crate::paths::{is_absolute, join, join_path};
use crate::pointers::{pointer_views, PointerIndex, PointerView, XetFileInfo};
use crate::remote::FilesystemRemoteStore;
use crate::repo::resolve_path;
use crate::text::{
    lemma_text_lt_irreflexive, lemma_text_lt_total, lemma_text_lt_transitive, same_text,
    text_before, text_le, text_lt, texts,
};

verus! {

/// How a push chooses what to send.
#[derive(Clone, Copy, PartialEq, Eq, Structural)]
pub enum PushMode {
    /// What the commit needs, if that can be shown to be enough.
    MinimalValidate,
    /// The whole content store.
    AllCas,
    /// What the commit needs, as planned.
    MinimalNoValidate,
}

/// The mode that the flags of a push ask for.
pub fn push_mode(all_cas: bool, minimal_no_validate: bool) -> (r: PushMode)
    ensures
        r == if all_cas {
            PushMode::AllCas
        } else if minimal_no_validate {
            PushMode::MinimalNoValidate
        } else {
            PushMode::MinimalValidate
        },
{
    if all_cas {
        PushMode::AllCas
    } else if minimal_no_validate {
        PushMode::MinimalNoValidate
    } else {
        PushMode::MinimalValidate
    }
}

/// Where everything is kept that belongs to a repository and is not committed.
pub fn own_dir(repo_root: &str) -> (r: String)
    ensures
        r@ == join(repo_root@, ".xet_ai"@),
{
    join_path(repo_root, ".xet_ai")
}

/// Where the hashes are kept that were computed so far.
pub fn hash_cache_path(repo_root: &str) -> (r: String)
    ensures
        r@ == join(join(repo_root@, ".xet_ai"@), "hash_cache.json"@),
{
    join_path(own_dir(repo_root).as_str(), "hash_cache.json")
}

/// Where the manifests are kept.
pub open spec fn manifests_at(repo_root: Seq<char>) -> Seq<char> {
    join(join(repo_root, ".xet_ai"@), "manifests"@)
}

/// Where the manifests are kept.
pub fn manifest_dir(repo_root: &str) -> (r: String)
    ensures
        r@ == manifests_at(repo_root@),
{
    join_path(own_dir(repo_root).as_str(), "manifests")
}

/// Where the manifest of a commit is kept.
pub open spec fn manifest_at(repo_root: Seq<char>, sha: Seq<char>) -> Seq<char> {
    join(manifests_at(repo_root), sha + ".json"@)
}

/// Where the manifest of a commit is kept.
pub fn manifest_path(repo_root: &str, sha: &str) -> (r: String)
    ensures
        r@ == manifest_at(repo_root@, sha@),
{
    let dir = manifest_dir(repo_root);
    let mut name = sha.to_owned();
    name.append(".json");
    join_path(dir.as_str(), name.as_str())
}

/// Where the local content store is.
pub open spec fn cas_at(repo_root: Seq<char>) -> Seq<char> {
    join(join(repo_root, ".xet_ai"@), "xet"@)
}

/// Where the local content store is.
pub fn cas_root(repo_root: &str) -> (r: String)
    ensures
        r@ == cas_at(repo_root@),
{
    join_path(own_dir(repo_root).as_str(), "xet")
}

/// `name` is the first of the names in the set.
pub open spec fn is_first(names: Set<Seq<char>>, name: Seq<char>) -> bool {
    names.contains(name) && forall|n: Seq<char>| #[trigger] names.contains(n) ==> text_le(name, n)
}

/// What is said where there is no remote.
pub open spec fn no_remotes_text() -> Seq<char> {
    "no remotes configured; run `xet-ai remote add <name> <path>`"@
}

/// The remote that is meant: the one that is named, else the default, else the first.
pub fn resolve_remote_name(input: Option<&str>, effective: &EffectiveConfig) -> (r: Result<
    String,
    Error,
>)
    ensures
        match input {
            Some(name) => told_text(r) == Ok::<Seq<char>, Seq<char>>(name@),
            None => match effective.default_remote {
                Some(name) => told_text(r) == Ok::<Seq<char>, Seq<char>>(name@),
                None => match told_text(r) {
                    Ok(name) => is_first(effective.remotes@.dom(), name),
                    Err(e) => e == no_remotes_text() && effective.remotes@.dom() =~= Set::empty(),
                },
            },
        },
{
    if let Some(name) = input {
        return Ok(name.to_owned());
    }
    if let Some(name) = &effective.default_remote {
        return Ok(name.clone());
    }
    let names = effective.remotes.keys();
    if names.len() == 0 {
        proof {
            assert forall|n: Seq<char>| !effective.remotes@.dom().contains(n) by {
                if effective.remotes@.dom().contains(n) {
                    assert(texts(names@).contains(n));
                }
            }
        }
        return Err(Error::saying("no remotes configured; run `xet-ai remote add <name> <path>`"));
    }
    let first = names[0].clone();
    proof {
        let keys = texts(names@);
        assert(keys[0] == first@);
        assert forall|n: Seq<char>| #[trigger] effective.remotes@.dom().contains(n) implies text_le(
            first@,
            n,
        ) by {
            assert(keys.contains(n));
            lemma_text_lt_total(keys[0], n);
        }
        assert(keys.contains(first@));
    }
    Ok(first)
}

/// What is said of a remote that is not configured.
pub open spec fn remote_not_found_text(name: Seq<char>) -> Seq<char> {
    "remote `"@ + name + "` not found"@
}

/// The remote with a name.
pub fn find_remote<'a>(effective: &'a EffectiveConfig, name: &str) -> (r: Result<
    &'a RemoteConfig,
    Error,
>)
    ensures
        match r {
            Ok(remote) => effective.remotes@.contains_key(name@) && *remote
                == effective.remotes@[name@],
            Err(e) => !effective.remotes@.contains_key(name@) && e@ == remote_not_found_text(name@),
        },
{
    match effective.remotes.get(name) {
        Some(remote) => Ok(remote),
        None => {
            let mut m = "remote `".to_owned();
            m.append(name);
            m.append("` not found");
            Err(Error::new(m))
        },
    }
}

/// What is said of a remote whose backend is not known.
pub open spec fn unsupported_text(kind: Seq<char>) -> Seq<char> {
    "unsupported remote type `"@ + kind + "`"@
}

/// Where a filesystem remote keeps the data of a repository.
pub open spec fn remote_root(repo_root: Seq<char>, path: Seq<char>, repo_id: Seq<char>) -> Seq<
    char,
> {
    join(
        if is_absolute(path) {
            path
        } else {
            join(repo_root, path)
        },
        repo_id,
    )
}

/// The store for the data of a repository on a remote.
pub fn fs_remote_store(repo_root: &str, remote: &RemoteConfig, repo_id: &str) -> (r: Result<
    FilesystemRemoteStore,
    Error,
>)
    ensures
        match r {
            Ok(store) => remote.kind@ == "filesystem"@ && store.root_text() == remote_root(
                repo_root@,
                remote.path@,
                repo_id@,
            ),
            Err(e) => remote.kind@ != "filesystem"@ && e@ == unsupported_text(remote.kind@),
        },
{
    if !same_text(remote.kind.as_str(), "filesystem") {
        let mut m = "unsupported remote type `".to_owned();
        m.append(remote.kind.as_str());
        m.append("`");
        return Err(Error::new(m));
    }
    let root = resolve_path(repo_root, remote.path.as_str());
    Ok(FilesystemRemoteStore::new(join_path(root.as_str(), repo_id)))
}

/// The remote to pull from where data is missing: the default one, if such pulls are
/// wanted and none was attempted yet.
pub fn should_attempt_smudge_autopull(effective: &EffectiveConfig, already_attempted: bool) -> (r:
    Option<String>)
    ensures
        r.deep_view() == if effective.auto_pull_on_smudge && !already_attempted {
            effective.default_remote.deep_view()
        } else {
            None
        },
{
    if effective.auto_pull_on_smudge && !already_attempted {
        match &effective.default_remote {
            Some(name) => Some(name.clone()),
            None => None,
        }
    } else {
        None
    }
}

/// The size that a pointer gives; nothing where it gives none.
pub open spec fn pointer_size(p: PointerView) -> u64 {
    match p.file_info.file_size {
        Some(n) => n,
        None => 0,
    }
}

/// `a` is chosen before `b`: it stands for a larger file, or for one of the same size
/// with a path that comes first.
pub open spec fn chosen_before(a: PointerView, b: PointerView) -> bool {
    pointer_size(a) > pointer_size(b) || (pointer_size(a) == pointer_size(b) && text_lt(
        a.path,
        b.path,
    ))
}

/// The pointer at `i` is the one that speaks for all: none is chosen before it, and of
/// those that are like it, it is the first.
pub open spec fn is_representative(s: Seq<PointerView>, i: int) -> bool {
    &&& 0 <= i < s.len()
    &&& forall|j: int| 0 <= j < s.len() ==> !chosen_before(#[trigger] s[j], s[i])
    &&& forall|j: int| 0 <= j < i ==> chosen_before(s[i], #[trigger] s[j])
}

fn size_in(info: &XetFileInfo) -> (r: u64)
    ensures
        r == match info@.file_size {
            Some(n) => n,
            None => 0,
        },
{
    match info.file_size {
        Some(n) => n,
        None => 0,
    }
}

/// The pointer that is hydrated to see whether a plan is enough: that of the largest
/// file.
pub fn choose_representative_pointer(index: &PointerIndex) -> (r: Option<XetFileInfo>)
    ensures
        match r {
            None => index.entries@.len() == 0,
            Some(info) => exists|i: int| #[trigger]
                is_representative(pointer_views(index.entries@), i) && info
                    == index.entries@[i].file_info,
        },
{
    if index.entries.len() == 0 {
        return None;
    }
    let ghost views = pointer_views(index.entries@);
    let mut best: usize = 0;
    let mut i: usize = 1;
    proof {
        lemma_text_lt_irreflexive(views[0].path);
    }
    while i < index.entries.len()
        invariant
            best < i <= index.entries@.len(),
            views == pointer_views(index.entries@),
            is_representative(views.take(i as int), best as int),
        decreases index.entries@.len() - i,
    {
        let a = size_in(&index.entries[i].file_info);
        let b = size_in(&index.entries[best].file_info);
        let first = text_before(index.entries[i].path.as_str(), index.entries[best].path.as_str());
        let ghost old_best = best as int;
        if a > b || (a == b && first) {
            best = i;
        }
        proof {
            let t = views.take(i + 1);
            assert forall|j: int| 0 <= j < t.len() implies !chosen_before(
                #[trigger] t[j],
                t[best as int],
            ) by {
                lemma_text_lt_irreflexive(t[j].path);
                if j < i {
                    if best == i {
                        lemma_not_before(t[i as int], t[old_best], t[j]);
                    }
                }
            }
            assert forall|j: int| 0 <= j < best implies chosen_before(
                t[best as int],
                #[trigger] t[j],
            ) by {
                if best == i {
                    lemma_not_before(t[i as int], t[old_best], t[j]);
                }
            }
        }
        i += 1;
    }
    proof {
        assert(views.take(i as int) =~= views);
    }
    Some(index.entries[best].file_info.clone())
}

/// What is chosen before something that `c` is not chosen before, is chosen before `c`.
proof fn lemma_not_before(a: PointerView, b: PointerView, c: PointerView)
    requires
        chosen_before(a, b),
        !chosen_before(c, b),
    ensures
        chosen_before(a, c),
        !chosen_before(c, a),
{
    lemma_text_lt_total(b.path, c.path);
    if pointer_size(a) == pointer_size(b) && pointer_size(b) == pointer_size(c) {
        if text_lt(b.path, c.path) {
            lemma_text_lt_transitive(a.path, b.path, c.path);
        }
    }
    lemma_text_lt_irreflexive(a.path);
    if text_lt(a.path, c.path) && text_lt(c.path, a.path) {
        lemma_text_lt_transitive(a.path, c.path, a.path);
    }
}

/// A directory to try a plan in.
pub open spec fn validation_base(repo_root: Seq<char>, sha: Seq<char>, suffix: Seq<char>) -> Seq<
    char,
> {
    join(join(join(join(repo_root, ".xet_ai"@), "validate"@), sha), suffix)
}

/// A new directory to try a plan in, under a random name.
pub fn new_validation_base(repo_root: &str, sha: &str) -> (r: String)
    ensures
        exists|suffix: Seq<char>| #[trigger]
            is_random_uuid(suffix) && r@ == validation_base(repo_root@, sha@, suffix),
{
    let dir = join_path(repo_root, ".xet_ai");
    let dir = join_path(dir.as_str(), "validate");
    let dir = join_path(dir.as_str(), sha);
    let suffix = random_suffix();
    join_path(dir.as_str(), suffix.as_str())
}

/// Names a remote in a configuration file: a directory with the given path.
pub fn remote_add(cfg: &mut ConfigFile, name: &str, path: &str)
    ensures
        final(cfg).remotes@.dom() == old(cfg).remotes@.dom().insert(name@),
        final(cfg).remotes@[name@].kind@ == "filesystem"@,
        final(cfg).remotes@[name@].path@ == path@,
        forall|n: Seq<char>|
            n != name@ && #[trigger] old(cfg).remotes@.contains_key(n) ==> final(cfg).remotes@[n]
                == old(cfg).remotes@[n],
        final(cfg).default_remote == old(cfg).default_remote,
        final(cfg).auto_pull_on_smudge == old(cfg).auto_pull_on_smudge,
{
    let remote = RemoteConfig { kind: "filesystem".to_owned(), path: path.to_owned() };
    cfg.remotes.insert(name.to_owned(), remote);
}

/// Makes a remote the default one in a configuration file.
pub fn remote_set_default(cfg: &mut ConfigFile, name: &str)
    ensures
        final(cfg).default_remote.deep_view() == Some(name@),
        final(cfg).remotes == old(cfg).remotes,
        final(cfg).auto_pull_on_smudge == old(cfg).auto_pull_on_smudge,
{
    cfg.default_remote = Some(name.to_owned());
}

} // verus!
