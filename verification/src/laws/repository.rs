//! Laws of a repository: its configuration, its remotes, its identity, its dot files and the
//! files of its commits.

use vstd::prelude::*;

use crate::cli::config::{config_path, AppConfig};
use crate::commands::naming::{
    cas_root, choose_representative_pointer, find_remote, fs_remote_store, hash_cache_path,
    is_representative, manifest_dir, manifest_path, new_validation_base, own_dir, push_mode,
    remote_add, remote_set_default, resolve_remote_name, should_attempt_smudge_autopull, PushMode,
};
use crate::commands::setup::{
    clean_candidate, command_views, init, prepare_clean_source, CleanSource, InitFacts, InitPlan,
};
use crate::commands::track::{
    filters_files, has_tracked_patterns, line_for, track, track_in_file, track_line, track_report,
    tracking,
};
use crate::config::{
    load_local, load_shared, local_config_path, shared_config_path, ConfigFile, EffectiveConfig,
    RemoteConfig,
};
use crate::error::Error;
use crate::files::is_random_uuid;
use crate::git::{
    blob_paths, entry_path, head_branch, head_refname_or_head, list_files_at_commit, TreeEntry,
};
use crate::laws::store::{is_among, lemma_prefix};
use crate::laws::text::{
    comes_first, is_core, lemma_core_is_unique, lemma_lt_decides, lemma_part_between,
    lemma_part_splits, lemma_trim_is_core,
};
use crate::order::{lemma_by_key_lists, lemma_order_keeps_count, lemma_order_lists_all};
use crate::paths::{is_below, join, join_path};
use crate::pointers::{pointer_cache_path, pointer_views, PointerIndex, XetFileInfo};
use crate::remote::FilesystemRemoteStore;
use crate::repo::{
    append_if_missing, completed, git_current_branch_short, git_head_sha, lists_line, load_repo_id,
    repo_id_path, repo_root, resolve_path,
};
use crate::text::{decimal, has_part, lines_of, text_le, texts, trim_text};

verus! {

/// The configuration in force takes every remote from where it is named, and where both
/// files name it, from the local one; it has no other remotes. The default remote, and
/// whether missing data is pulled, are the local ones where they are given, and else the
/// shared ones; where neither is given there is no default, and nothing is pulled.
pub proof fn law_effective_config(
    shared: Option<ConfigFile>,
    local: Option<ConfigFile>,
    r: EffectiveConfig,
    name: Seq<char>,
)
    requires
        call_ensures(EffectiveConfig::load, (shared, local), r),
    ensures
        local matches Some(c) && c.remotes@.contains_key(name) ==> r.remotes@.contains_key(name)
            && r.remotes@[name] == local->0.remotes@[name],
        !(local matches Some(c) && c.remotes@.contains_key(name)) && (shared matches Some(c)
            && c.remotes@.contains_key(name)) ==> r.remotes@.contains_key(name) && r.remotes@[name]
            == shared->0.remotes@[name],
        r.remotes@.contains_key(name) ==> (local matches Some(c) && c.remotes@.contains_key(name))
            || (shared matches Some(c) && c.remotes@.contains_key(name)),
        local matches Some(c) && c.default_remote is Some ==> r.default_remote.deep_view()
            == local->0.default_remote.deep_view(),
        !(local matches Some(c) && c.default_remote is Some) && (shared matches Some(c)
            && c.default_remote is Some) ==> r.default_remote.deep_view()
            == shared->0.default_remote.deep_view(),
        !(local matches Some(c) && c.default_remote is Some) && !(shared matches Some(c)
            && c.default_remote is Some) ==> r.default_remote is None,
        local matches Some(c) && c.auto_pull_on_smudge is Some ==> r.auto_pull_on_smudge
            == local->0.auto_pull_on_smudge->0,
        !(local matches Some(c) && c.auto_pull_on_smudge is Some) && (shared matches Some(c)
            && c.auto_pull_on_smudge is Some) ==> r.auto_pull_on_smudge
            == shared->0.auto_pull_on_smudge->0,
        !(local matches Some(c) && c.auto_pull_on_smudge is Some) && !(shared matches Some(c)
            && c.auto_pull_on_smudge is Some) ==> !r.auto_pull_on_smudge,
{
}

/// A configuration file that is there says what it says, and one that is not says nothing.
pub proof fn law_config_file(found: Option<ConfigFile>, a: ConfigFile, b: ConfigFile)
    requires
        call_ensures(load_shared, (found,), a),
        call_ensures(load_local, (found,), b),
    ensures
        found matches Some(c) ==> {
            &&& a.remotes@ == c.remotes@ && b.remotes@ == c.remotes@
            &&& a.default_remote.deep_view() == c.default_remote.deep_view()
            &&& b.default_remote.deep_view() == c.default_remote.deep_view()
            &&& a.auto_pull_on_smudge == c.auto_pull_on_smudge
            &&& b.auto_pull_on_smudge == c.auto_pull_on_smudge
        },
        found is None ==> {
            &&& a.remotes@ =~= Map::empty() && b.remotes@ =~= Map::empty()
            &&& a.default_remote is None && b.default_remote is None
            &&& a.auto_pull_on_smudge is None && b.auto_pull_on_smudge is None
        },
{
}

/// The same of the single configuration file.
pub proof fn law_app_config(found: Option<AppConfig>, r: AppConfig)
    requires
        call_ensures(AppConfig::load, (found,), r),
    ensures
        found matches Some(c) ==> r.remotes@ == c.remotes@,
        found is None ==> r.remotes@ =~= Map::empty(),
{
}

/// The push mode: everything where everything is asked for; else without validation where
/// that is asked for; else with it.
pub proof fn law_push_mode(all_cas: bool, minimal_no_validate: bool, r: PushMode)
    requires
        call_ensures(push_mode, (all_cas, minimal_no_validate), r),
    ensures
        r is AllCas <==> all_cas,
        r is MinimalNoValidate <==> !all_cas && minimal_no_validate,
        r is MinimalValidate <==> !all_cas && !minimal_no_validate,
{
}

/// The remote that is meant is the one that is named, whatever its name; without a name the
/// default one; without that the first of those that are configured. It fails only where
/// there is nothing to go by.
pub proof fn law_resolve_remote_name(
    input: Option<&str>,
    effective: &EffectiveConfig,
    r: Result<String, Error>,
)
    requires
        call_ensures(resolve_remote_name, (input, effective), r),
    ensures
        input matches Some(name) ==> (r matches Ok(n) && n@ == name@),
        input is None && effective.default_remote is Some ==> (r matches Ok(n) && n@
            == effective.default_remote->0@),
        input is None && effective.default_remote is None ==> match r {
            Ok(n) => effective.remotes@.contains_key(n@) && forall|other: Seq<char>| #[trigger]
                effective.remotes@.contains_key(other) ==> !comes_first(other, n@),
            Err(e) => e@ == "no remotes configured; run `xet-ai remote add <name> <path>`"@
                && forall|other: Seq<char>| !#[trigger] effective.remotes@.contains_key(other),
        },
{
    if input is None && effective.default_remote is None {
        match r {
            Ok(n) => {
                assert forall|other: Seq<char>| #[trigger]
                    effective.remotes@.contains_key(other) implies !comes_first(other, n@) by {
                    assert(effective.remotes@.dom().contains(other));
                    lemma_lt_decides(other, n@);
                }
            },
            Err(e) => {
                assert forall|other: Seq<char>| !#[trigger] effective.remotes@.contains_key(
                    other,
                ) by {
                    assert(!effective.remotes@.dom().contains(other));
                }
            },
        }
    }
}

/// A remote is found exactly if there is one with that name.
pub proof fn law_find_remote(
    effective: &EffectiveConfig,
    name: &str,
    r: Result<&RemoteConfig, Error>,
)
    requires
        call_ensures(find_remote, (effective, name), r),
    ensures
        r is Ok <==> effective.remotes@.contains_key(name@),
        r matches Ok(remote) ==> *remote == effective.remotes@[name@],
        r matches Err(e) ==> e@ == "remote `"@ + name@ + "` not found"@,
{
}

/// A remote on a file system keeps the data of a repository in the directory that is named
/// like the repository, below its own; any other type of remote is refused.
pub proof fn law_fs_remote_store(
    root: &str,
    remote: &RemoteConfig,
    path: &str,
    repo_id: &str,
    r: Result<FilesystemRemoteStore, Error>,
    dir: String,
    below: &str,
    whole: String,
)
    requires
        call_ensures(fs_remote_store, (root, remote, repo_id), r),
        path@ == remote.path@,
        call_ensures(resolve_path, (root, path), dir),
        below@ == dir@,
        call_ensures(join_path, (below, repo_id), whole),
    ensures
        r is Ok <==> remote.kind@ == "filesystem"@,
        r matches Ok(store) ==> store.root_text() == whole@,
        r matches Err(e) ==> e@ == "unsupported remote type `"@ + remote.kind@ + "`"@,
{
}

/// An object of a store on a file system is the file at its path below the root that the
/// store was made with.
pub proof fn law_object_file(
    dir: String,
    fresh: FilesystemRemoteStore,
    store: &FilesystemRemoteStore,
    root: &str,
    relpath: &str,
    at: &str,
    r: String,
    whole: String,
)
    requires
        call_ensures(FilesystemRemoteStore::new, (dir,), fresh),
        *store == fresh,
        call_ensures(FilesystemRemoteStore::root, (store,), at),
        call_ensures(FilesystemRemoteStore::abs, (store, relpath), r),
        root@ == at@,
        call_ensures(join_path, (root, relpath), whole),
    ensures
        at@ == dir@,
        r@ == whole@,
{
}

/// Naming a remote makes it one with that path and leaves the others, and the rest, as they
/// are.
pub proof fn law_remote_add(cfg: &mut ConfigFile, name: &str, path: &str, other: Seq<char>)
    requires
        call_ensures(remote_add, (cfg, name, path), ()),
    ensures
        final(cfg).remotes@.contains_key(name@),
        final(cfg).remotes@[name@].kind@ == "filesystem"@,
        final(cfg).remotes@[name@].path@ == path@,
        ({
            let before = old(cfg).remotes@;
            let after = final(cfg).remotes@;
            other != name@ ==> {
                &&& after.contains_key(other) <==> before.contains_key(other)
                &&& before.contains_key(other) ==> after[other] == before[other]
            }
        }),
        final(cfg).default_remote == old(cfg).default_remote,
        final(cfg).auto_pull_on_smudge == old(cfg).auto_pull_on_smudge,
{
    assert(final(cfg).remotes@.contains_key(other) <==> final(cfg).remotes@.dom().contains(other));
}

/// Making a remote the default one changes nothing else.
pub proof fn law_remote_set_default(cfg: &mut ConfigFile, name: &str)
    requires
        call_ensures(remote_set_default, (cfg, name), ()),
    ensures
        final(cfg).default_remote matches Some(n) && n@ == name@,
        final(cfg).remotes == old(cfg).remotes,
        final(cfg).auto_pull_on_smudge == old(cfg).auto_pull_on_smudge,
{
}

/// Missing data is pulled from the default remote, exactly where there is one, such pulls
/// are wanted, and none was attempted yet.
pub proof fn law_autopull(effective: &EffectiveConfig, already_attempted: bool, r: Option<String>)
    requires
        call_ensures(should_attempt_smudge_autopull, (effective, already_attempted), r),
    ensures
        r is Some <==> effective.auto_pull_on_smudge && !already_attempted
            && effective.default_remote is Some,
        r matches Some(n) ==> n@ == effective.default_remote->0@,
{
}

/// Where things are kept: each has a fixed place, below the root of the repository.
pub proof fn law_places(
    root: &str,
    sha: &str,
    own: String,
    cas: String,
    hashes: String,
    manifests: String,
    manifest: String,
    index: String,
    shared: String,
    local: String,
    id: String,
    single: String,
)
    requires
        call_ensures(own_dir, (root,), own),
        call_ensures(cas_root, (root,), cas),
        call_ensures(hash_cache_path, (root,), hashes),
        call_ensures(manifest_dir, (root,), manifests),
        call_ensures(manifest_path, (root, sha), manifest),
        call_ensures(pointer_cache_path, (root, sha), index),
        call_ensures(shared_config_path, (root,), shared),
        call_ensures(local_config_path, (root,), local),
        call_ensures(repo_id_path, (root,), id),
        call_ensures(config_path, (root,), single),
    ensures
        own@ == join(root@, ".xet_ai"@),
        cas@ == join(own@, "xet"@),
        hashes@ == join(own@, "hash_cache.json"@),
        manifests@ == join(own@, "manifests"@),
        manifest@ == join(manifests@, sha@ + ".json"@),
        index@ == join(join(own@, "pointers"@), sha@ + ".json"@),
        shared@ == join(root@, ".xet_ai.toml"@),
        local@ == join(own@, "config.local.toml"@),
        id@ == join(root@, ".xet_ai_repo_id"@),
        single@ == join(own@, "config.toml"@),
        root@.len() > 0 && root@.last() != '/' ==> {
            &&& own@ == root@ + "/.xet_ai"@
            &&& cas@ == root@ + "/.xet_ai/xet"@
            &&& hashes@ == root@ + "/.xet_ai/hash_cache.json"@
            &&& manifests@ == root@ + "/.xet_ai/manifests"@
            &&& shared@ == root@ + "/.xet_ai.toml"@
            &&& local@ == root@ + "/.xet_ai/config.local.toml"@
            &&& id@ == root@ + "/.xet_ai_repo_id"@
            &&& single@ == root@ + "/.xet_ai/config.toml"@
            &&& sha@.len() > 0 && sha@[0] != '/' ==> {
                &&& manifest@ == root@ + "/.xet_ai/manifests/"@ + sha@ + ".json"@
                &&& index@ == root@ + "/.xet_ai/pointers/"@ + sha@ + ".json"@
            }
        },
{
    reveal_strlit("/");
    reveal_strlit(".xet_ai");
    reveal_strlit("/.xet_ai");
    reveal_strlit("xet");
    reveal_strlit("/.xet_ai/xet");
    reveal_strlit("hash_cache.json");
    reveal_strlit("/.xet_ai/hash_cache.json");
    reveal_strlit("manifests");
    reveal_strlit("/.xet_ai/manifests");
    reveal_strlit("/.xet_ai/manifests/");
    reveal_strlit("pointers");
    reveal_strlit("/.xet_ai/pointers/");
    reveal_strlit(".xet_ai.toml");
    reveal_strlit("/.xet_ai.toml");
    reveal_strlit("config.local.toml");
    reveal_strlit("/.xet_ai/config.local.toml");
    reveal_strlit(".xet_ai_repo_id");
    reveal_strlit("/.xet_ai_repo_id");
    reveal_strlit("config.toml");
    reveal_strlit("/.xet_ai/config.toml");
    reveal_strlit(".json");
    if root@.len() > 0 && root@.last() != '/' {
        assert(own@ =~= root@ + "/.xet_ai"@);
        assert(cas@ =~= root@ + "/.xet_ai/xet"@);
        assert(hashes@ =~= root@ + "/.xet_ai/hash_cache.json"@);
        assert(manifests@ =~= root@ + "/.xet_ai/manifests"@);
        assert(shared@ =~= root@ + "/.xet_ai.toml"@);
        assert(local@ =~= root@ + "/.xet_ai/config.local.toml"@);
        assert(id@ =~= root@ + "/.xet_ai_repo_id"@);
        assert(single@ =~= root@ + "/.xet_ai/config.toml"@);
        if sha@.len() > 0 && sha@[0] != '/' {
            assert((sha@ + ".json"@)[0] == sha@[0]);
            assert(manifest@ =~= root@ + "/.xet_ai/manifests/"@ + sha@ + ".json"@);
            assert(index@ =~= root@ + "/.xet_ai/pointers/"@ + sha@ + ".json"@);
        }
    }
}

/// A trial is made in a directory of its own for the commit, under a random name.
pub proof fn law_new_validation_base(root: &str, sha: &str, r: String)
    requires
        call_ensures(new_validation_base, (root, sha), r),
    ensures
        exists|name: Seq<char>|
            name.len() == 36 && name[0] != '/' && r@ == #[trigger] join(
                join(join(join(root@, ".xet_ai"@), "validate"@), sha@),
                name,
            ),
{
    let name = choose|name: Seq<char>| #[trigger]
        is_random_uuid(name) && r@ == crate::commands::naming::validation_base(
            root@,
            sha@,
            name,
        );
    assert(name[0] != '/');
    assert(r@ == join(join(join(join(root@, ".xet_ai"@), "validate"@), sha@), name));
}

/// The size that a pointer gives, or nothing.
pub open spec fn size_given(info: XetFileInfo) -> u64 {
    if info.file_size is Some {
        info.file_size->0
    } else {
        0
    }
}

/// The pointer is that of the largest file; of files of the same size, that with the first
/// path.
pub open spec fn speaks_for_all(index: &PointerIndex, info: XetFileInfo) -> bool {
    exists|i: int|
        {
            &&& 0 <= i < index.entries@.len()
            &&& (#[trigger] index.entries@[i]).file_info == info
            &&& forall|j: int|
                0 <= j < index.entries@.len() ==> size_given(
                    (#[trigger] index.entries@[j]).file_info,
                ) <= size_given(info)
            &&& forall|j: int|
                0 <= j < index.entries@.len() && size_given(
                    (#[trigger] index.entries@[j]).file_info,
                ) == size_given(info) ==> !comes_first(
                    index.entries@[j].path@,
                    index.entries@[i].path@,
                )
        }
}

/// The pointer that is chosen speaks for all.
pub proof fn lemma_speaks_for_all(index: &PointerIndex, i: int)
    requires
        is_representative(pointer_views(index.entries@), i),
    ensures
        speaks_for_all(index, index.entries@[i].file_info),
{
    let s = pointer_views(index.entries@);
    let info = index.entries@[i].file_info;
    assert forall|j: int| 0 <= j < index.entries@.len() implies size_given(
        (#[trigger] index.entries@[j]).file_info,
    ) <= size_given(info) && (size_given(index.entries@[j].file_info) == size_given(info)
        ==> !comes_first(index.entries@[j].path@, index.entries@[i].path@)) by {
        assert(!crate::commands::naming::chosen_before(s[j], s[i]));
        lemma_lt_decides(index.entries@[j].path@, index.entries@[i].path@);
    }
}

/// The pointer that is chosen speaks for all: there is one exactly if there are pointers.
pub proof fn law_representative(index: &PointerIndex, r: Option<XetFileInfo>)
    requires
        call_ensures(choose_representative_pointer, (index,), r),
    ensures
        r is None <==> index.entries@.len() == 0,
        r matches Some(info) ==> speaks_for_all(index, info),
{
    if let Some(info) = r {
        let i = choose|i: int| #[trigger]
            is_representative(pointer_views(index.entries@), i) && info
                == index.entries@[i].file_info;
        lemma_speaks_for_all(index, i);
    }
}

/// The identity of a repository is what its file says, without the white space around it. A
/// file that says nothing, or is not there, is an error.
pub proof fn law_load_repo_id(content: Result<String, Error>, r: Result<String, Error>)
    requires
        call_ensures(load_repo_id, (content,), r),
    ensures
        r is Ok <==> (content matches Ok(text) && !is_core(text@, Seq::empty())),
        r matches Ok(id) ==> is_core(content->Ok_0@, id@) && id@.len() > 0,
        r matches Err(e) && content is Ok ==> r->Err_0@ == ".xet_ai_repo_id is empty"@,
        content matches Err(why) ==> (r matches Err(e) && e@
            == "missing .xet_ai_repo_id; run `xet-ai init`: "@ + why@),
{
    reveal_strlit(".xet_ai_repo_id is empty");
    reveal_strlit(".xet_ai_repo_id");
    reveal_strlit(" is empty");
    reveal_strlit("missing .xet_ai_repo_id; run `xet-ai init`: ");
    reveal_strlit("missing ");
    reveal_strlit("; run `xet-ai init`");
    reveal_strlit(": ");
    match content {
        Ok(text) => {
            lemma_trim_is_core(text@);
            if is_core(text@, Seq::empty()) {
                lemma_core_is_unique(text@, Seq::empty(), trim_text(text@));
            } else if trim_text(text@).len() == 0 {
                assert(trim_text(text@) =~= Seq::empty());
            }
            if r is Err {
                assert(r->Err_0@ =~= ".xet_ai_repo_id is empty"@);
            }
        },
        Err(why) => {
            assert(r->Err_0@ =~= "missing .xet_ai_repo_id; run `xet-ai init`: "@ + why@);
        },
    }
}

/// What git says of HEAD and of the working tree is taken as it is, and what it does not say
/// is an error or nothing.
pub proof fn law_git_says(
    said: Option<String>,
    is_branch: bool,
    root: Result<String, Error>,
    head: Result<String, Error>,
    branch: Option<String>,
    short: Option<String>,
    name: String,
)
    requires
        call_ensures(repo_root, (said,), root),
        call_ensures(git_head_sha, (said,), head),
        call_ensures(head_branch, (is_branch, said), branch),
        call_ensures(git_current_branch_short, (is_branch, said), short),
        call_ensures(head_refname_or_head, (is_branch, said), name),
    ensures
        said matches Some(s) ==> (root matches Ok(d) && d@ == s@) && (head matches Ok(h) && h@
            == s@),
        said is None ==> (root matches Err(e) && e@ == "bare repositories are not supported"@) && (
        head matches Err(e) && e@ == "invalid HEAD"@),
        is_branch && said is Some ==> (branch matches Some(b) && b@ == said->0@) && (
        short matches Some(b) && b@ == said->0@) && name@ == said->0@,
        !(is_branch && said is Some) ==> branch is None && short is None && name@ == "HEAD"@,
{
}

proof fn lemma_blobs(walk: Seq<TreeEntry>)
    ensures
        forall|i: int|
            0 <= i < walk.len() && (#[trigger] walk[i]).is_blob ==> blob_paths(walk).contains(
                entry_path(walk[i]),
            ),
        forall|p: Seq<char>| #[trigger]
            blob_paths(walk).contains(p) ==> exists|i: int|
                0 <= i < walk.len() && (#[trigger] walk[i]).is_blob && entry_path(walk[i]) == p,
    decreases walk.len(),
{
    if walk.len() > 0 {
        let q = walk.drop_last();
        let w = blob_paths(q);
        let all = blob_paths(walk);
        lemma_blobs(q);
        assert forall|i: int| 0 <= i < walk.len() && (
        #[trigger] walk[i]).is_blob implies all.contains(entry_path(walk[i])) by {
            if i < q.len() {
                assert(q[i] == walk[i]);
                let n = choose|n: int| 0 <= n < w.len() && w[n] == entry_path(walk[i]);
                assert(all[n] == w[n]);
            } else {
                assert(all.last() == entry_path(walk[i]));
            }
        }
        assert forall|p: Seq<char>| #[trigger] all.contains(p) implies exists|i: int|
            0 <= i < walk.len() && (#[trigger] walk[i]).is_blob && entry_path(walk[i]) == p by {
            let n = choose|n: int| 0 <= n < all.len() && all[n] == p;
            if n < w.len() {
                assert(w[n] == p);
                assert(w.contains(p));
                let i = choose|i: int|
                    0 <= i < q.len() && (#[trigger] q[i]).is_blob && entry_path(q[i]) == p;
                assert(walk[i] == q[i]);
            } else {
                assert(walk[walk.len() - 1].is_blob);
            }
        }
    }
}

/// The entry is a file at this path: its directory and, where it is text, its name.
pub open spec fn is_file_at(e: TreeEntry, path: Seq<char>) -> bool {
    &&& e.is_blob
    &&& e.name matches Some(n) ==> path == e.dir@ + n@
    &&& e.name is None ==> path == e.dir@
}

/// How many of the entries are files.
pub open spec fn files_among(walk: Seq<TreeEntry>) -> nat
    decreases walk.len(),
{
    if walk.len() == 0 {
        0
    } else {
        files_among(walk.skip(1)) + if walk[0].is_blob {
            1
        } else {
            0nat
        }
    }
}

proof fn lemma_files_among(walk: Seq<TreeEntry>)
    ensures
        files_among(walk) == blob_paths(walk).len(),
    decreases walk.len(),
{
    if walk.len() > 0 {
        let rest = walk.skip(1);
        lemma_files_among(rest);
        if walk.len() == 1 {
            assert(walk.drop_last() =~= Seq::<TreeEntry>::empty());
            assert(rest =~= Seq::<TreeEntry>::empty());
        } else {
            let q = walk.drop_last();
            lemma_files_among(q);
            assert(q.skip(1) =~= rest.drop_last());
            assert(q[0] == walk[0]);
            lemma_files_among(q.skip(1));
            assert(rest.last() == walk.last());
        }
    }
}

/// The files of a commit are all entries of its tree that are files, at whatever depth, each
/// by its path, and nothing else, in ascending order.
pub proof fn law_list_files_at_commit(walk: Vec<TreeEntry>, r: Vec<String>)
    requires
        call_ensures(list_files_at_commit, (walk,), r),
    ensures
        r@.len() == files_among(walk@),
        forall|i: int, path: Seq<char>|
            0 <= i < walk@.len() && #[trigger] is_file_at(walk@[i], path) ==> is_among(r@, path),
        forall|j: int|
            0 <= j < r@.len() ==> exists|i: int|
                0 <= i < walk@.len() && is_file_at(#[trigger] walk@[i], (#[trigger] r@[j])@),
        forall|i: int, j: int|
            0 <= i < j < r@.len() ==> !comes_first((#[trigger] r@[j])@, (#[trigger] r@[i])@),
{
    let paths = blob_paths(walk@);
    let out = texts(r@);
    let key = |p: Seq<char>| p;
    lemma_blobs(walk@);
    lemma_files_among(walk@);
    lemma_order_keeps_count(paths, out, key);
    assert(out.len() == r@.len());
    assert forall|i: int, path: Seq<char>|
        0 <= i < walk@.len() && #[trigger] is_file_at(walk@[i], path) implies is_among(
        r@,
        path,
    ) by {
        assert(path =~= entry_path(walk@[i]));
        lemma_order_lists_all(paths, out, key, path);
        let n = choose|n: int| 0 <= n < out.len() && out[n] == path;
        assert(r@[n]@ == path);
    }
    assert forall|j: int| 0 <= j < r@.len() implies exists|i: int|
        0 <= i < walk@.len() && is_file_at(#[trigger] walk@[i], (#[trigger] r@[j])@) by {
        assert(out[j] == r@[j]@);
        lemma_by_key_lists(paths, out, key, j);
        let i = choose|i: int|
            0 <= i < walk@.len() && (#[trigger] walk@[i]).is_blob && entry_path(walk@[i]) == out[j];
        assert(walk@[i].name is None ==> entry_path(walk@[i]) =~= walk@[i].dir@);
        assert(is_file_at(walk@[i], r@[j]@));
    }
    assert forall|i: int, j: int| 0 <= i < j < r@.len() implies !comes_first(
        (#[trigger] r@[j])@,
        (#[trigger] r@[i])@,
    ) by {
        assert(out[i] == r@[i]@ && out[j] == r@[j]@);
        assert(text_le(key(out[i]), key(out[j])));
        lemma_lt_decides(r@[j]@, r@[i]@);
    }
}

/// A line is added to a file unless one of its lines is that line, but for white space
/// around it. What was there stays, and the new line is a line of its own at the end.
pub proof fn law_append_if_missing(content: String, line: &str, r: Option<String>)
    requires
        call_ensures(append_if_missing, (content, line), r),
    ensures
        r is None <==> exists|i: int|
            0 <= i < lines_of(content@).len() && trim_text(#[trigger] lines_of(content@)[i])
                == line@,
        r matches Some(after) ==> {
            ||| after@ == (content@ + line@).push('\n') && (content@.len() == 0 || content@.last()
                == '\n')
            ||| after@ == (content@.push('\n') + line@).push('\n') && content@.len() > 0
                && content@.last() != '\n'
        },
{
    assert(lists_line(content@, line@) <==> exists|i: int|
        0 <= i < lines_of(content@).len() && trim_text(#[trigger] lines_of(content@)[i]) == line@);
}

/// The line that has the files of a pattern filtered is the pattern and what git is to do.
pub proof fn law_track_line(pattern: &str, r: String)
    requires
        call_ensures(track_line, (pattern,), r),
    ensures
        r@ == pattern@ + " filter=xet_ai diff=xet_ai -text"@,
{
}

/// The text has the line as a line of its own, somewhere.
pub open spec fn has_own_line(content: Seq<char>, line: Seq<char>) -> bool {
    exists|a: Seq<char>, b: Seq<char>|
        (a.len() == 0 || a.last() == '\n') && content == #[trigger] ((a + line).push('\n') + b)
}

/// One of the lines of the text is this one, but for white space around it.
pub open spec fn has_line(content: Seq<char>, line: Seq<char>) -> bool {
    exists|i: int|
        0 <= i < lines_of(content).len() && trim_text(#[trigger] lines_of(content)[i]) == line
}

proof fn lemma_tracking(content: Seq<char>, patterns: Seq<Seq<char>>)
    ensures
        ({
            let t = tracking(content, patterns);
            &&& content.is_prefix_of(t.content)
            &&& forall|line: Seq<char>| #[trigger]
                t.known.contains(line) <==> lists_line(content, line) || exists|i: int|
                    0 <= i < patterns.len() && line == line_for(#[trigger] patterns[i])
            &&& forall|i: int|
                0 <= i < patterns.len() && !lists_line(content, line_for(#[trigger] patterns[i]))
                    ==> has_own_line(t.content, line_for(patterns[i])) && t.added.contains(
                    patterns[i],
                )
            &&& forall|j: int|
                0 <= j < t.added.len() ==> patterns.contains(#[trigger] t.added[j])
                    && !lists_line(content, line_for(t.added[j]))
            &&& forall|i: int, j: int|
                0 <= i < j < t.added.len() ==> #[trigger] t.added[i] != #[trigger] t.added[j]
            &&& t.added.len() == 0 ==> t.content == content
        }),
    decreases patterns.len(),
{
    if patterns.len() > 0 {
        let q = patterns.drop_last();
        let x = patterns.last();
        let line = line_for(x);
        let p = tracking(content, q);
        let t = tracking(content, patterns);
        lemma_tracking(content, q);
        assert forall|l: Seq<char>| #[trigger] t.known.contains(l) <==> lists_line(content, l)
            || exists|i: int| 0 <= i < patterns.len() && l == line_for(#[trigger] patterns[i]) by {
            if exists|i: int| 0 <= i < patterns.len() && l == line_for(#[trigger] patterns[i]) {
                let i = choose|i: int|
                    0 <= i < patterns.len() && l == line_for(#[trigger] patterns[i]);
                if i < q.len() {
                    assert(q[i] == patterns[i]);
                    assert(p.known.contains(l));
                }
            }
            if p.known.contains(l) && !lists_line(content, l) {
                let i = choose|i: int| 0 <= i < q.len() && l == line_for(#[trigger] q[i]);
                assert(patterns[i] == q[i]);
            }
            if l == line {
                assert(patterns[patterns.len() - 1] == x);
            }
        }
        assert forall|i: int|
            0 <= i < patterns.len() && !lists_line(
                content,
                line_for(#[trigger] patterns[i]),
            ) implies has_own_line(t.content, line_for(patterns[i])) && t.added.contains(
            patterns[i],
        ) by {
            let l = line_for(patterns[i]);
            if i < q.len() {
                assert(q[i] == patterns[i]);
                let (a, b) = choose|a: Seq<char>, b: Seq<char>|
                    (a.len() == 0 || a.last() == '\n') && p.content == #[trigger] ((a + l).push(
                        '\n',
                    ) + b);
                let n = choose|n: int| 0 <= n < p.added.len() && p.added[n] == patterns[i];
                assert(t.added[n] == p.added[n]);
                if t.content != p.content {
                    let more = t.content.skip(p.content.len() as int);
                    assert(t.content =~= p.content + more);
                    assert(t.content =~= (a + l).push('\n') + (b + more));
                }
            } else if p.known.contains(line) {
                let k = choose|k: int| 0 <= k < q.len() && line == line_for(#[trigger] q[k]);
                lemma_line_tells(q[k], x);
                assert(p.added.contains(q[k]));
            } else {
                let a = completed(p.content);
                assert(t.content =~= (a + line).push('\n') + Seq::<char>::empty());
                assert(t.added.last() == x);
            }
        }
        assert forall|j: int| 0 <= j < t.added.len() implies patterns.contains(
            #[trigger] t.added[j],
        ) && !lists_line(content, line_for(t.added[j])) by {
            if j < p.added.len() {
                assert(t.added[j] == p.added[j]);
                let k = choose|k: int| 0 <= k < q.len() && q[k] == p.added[j];
                assert(patterns[k] == q[k]);
            } else {
                assert(patterns[patterns.len() - 1] == x);
            }
        }
        assert forall|i: int, j: int| 0 <= i < j < t.added.len() implies #[trigger] t.added[i]
            != #[trigger] t.added[j] by {
            assert(t.added[i] == p.added[i]);
            if j < p.added.len() {
                assert(t.added[j] == p.added[j]);
            } else {
                assert(q.contains(p.added[i]));
                let k = choose|k: int| 0 <= k < q.len() && q[k] == p.added[i];
                if p.added[i] == x {
                    assert(p.known.contains(line_for(q[k])));
                }
            }
        }
    }
}

/// The line for a pattern tells the pattern.
proof fn lemma_line_tells(a: Seq<char>, b: Seq<char>)
    requires
        line_for(a) == line_for(b),
    ensures
        a == b,
{
    let n = " filter=xet_ai diff=xet_ai -text"@.len();
    assert(a =~= line_for(a).take(line_for(a).len() - n));
    assert(b =~= line_for(b).take(line_for(b).len() - n));
}

/// The lines for the patterns, one after the other.
pub open spec fn lines_for(patterns: Seq<String>) -> Seq<char>
    decreases patterns.len(),
{
    if patterns.len() == 0 {
        Seq::empty()
    } else {
        patterns[0]@ + " filter=xet_ai diff=xet_ai -text\n"@ + lines_for(patterns.skip(1))
    }
}

spec fn text_for(patterns: Seq<Seq<char>>) -> Seq<char>
    decreases patterns.len(),
{
    if patterns.len() == 0 {
        Seq::empty()
    } else {
        text_for(patterns.drop_last()) + line_for(patterns.last()).push('\n')
    }
}

proof fn lemma_lines_for(patterns: Seq<String>)
    ensures
        lines_for(patterns) == text_for(texts(patterns)),
    decreases patterns.len(),
{
    let t = texts(patterns);
    assert(t.len() == patterns.len());
    if patterns.len() > 0 {
        let rest = patterns.skip(1);
        let first = patterns[0]@ + " filter=xet_ai diff=xet_ai -text\n"@;
        reveal_strlit(" filter=xet_ai diff=xet_ai -text\n");
        reveal_strlit(" filter=xet_ai diff=xet_ai -text");
        lemma_lines_for(rest);
        assert(texts(rest) =~= t.skip(1));
        assert(first =~= line_for(t[0]).push('\n'));
        if patterns.len() == 1 {
            assert(t.drop_last() =~= Seq::<Seq<char>>::empty());
            assert(rest =~= Seq::<String>::empty());
            assert(text_for(t.drop_last()) =~= Seq::<char>::empty());
            assert(lines_for(patterns) =~= text_for(t));
        } else {
            let q = patterns.drop_last();
            lemma_lines_for(q);
            assert(texts(q) =~= t.drop_last());
            assert(q.skip(1) =~= rest.drop_last());
            assert(q[0] == patterns[0]);
            lemma_lines_for(q.skip(1));
            assert(texts(q.skip(1)) =~= t.skip(1).drop_last());
            assert(t.skip(1).last() == t.last());
            assert(lines_for(patterns) =~= text_for(t));
        }
    }
}

proof fn lemma_tracking_text(content: Seq<char>, patterns: Seq<Seq<char>>)
    ensures
        ({
            let t = tracking(content, patterns);
            t.added.len() > 0 ==> t.content == completed(content) + text_for(t.added)
                && t.content.len() > 0 && t.content.last() == '\n'
        }),
    decreases patterns.len(),
{
    if patterns.len() > 0 {
        let q = patterns.drop_last();
        lemma_tracking_text(content, q);
        lemma_tracking(content, q);
        let p = tracking(content, q);
        let t = tracking(content, patterns);
        if !p.known.contains(line_for(patterns.last())) {
            let line = line_for(patterns.last());
            assert(t.added.drop_last() =~= p.added);
            if p.added.len() == 0 {
                assert(text_for(p.added) =~= Seq::<char>::empty());
                assert(text_for(t.added) =~= line.push('\n'));
            }
            assert(t.content =~= completed(content) + text_for(t.added));
        }
    }
}

/// Tracking keeps what the file said, and adds below it a line of its own for every pattern
/// that has none yet. It tells which those are, each once. Where all of them have one,
/// nothing changes.
pub proof fn law_track_in_file(
    content: String,
    patterns: &Vec<String>,
    r: (String, Vec<String>),
    i: int,
)
    requires
        call_ensures(track_in_file, (content, patterns), r),
    ensures
        exists|more: Seq<char>| r.0@ == #[trigger] (content@ + more),
        0 <= i < patterns@.len() ==> ({
            let line = patterns@[i]@ + " filter=xet_ai diff=xet_ai -text"@;
            &&& has_line(content@, line) || has_own_line(r.0@, line)
            &&& is_among(r.1@, patterns@[i]@) <==> !has_line(content@, line)
        }),
        forall|j: int| 0 <= j < r.1@.len() ==> is_among(patterns@, (#[trigger] r.1@[j])@),
        forall|j: int, k: int|
            0 <= j < k < r.1@.len() ==> (#[trigger] r.1@[j])@ != (#[trigger] r.1@[k])@,
        r.1@.len() == 0 ==> r.0@ == content@,
        r.1@.len() > 0 && (content@.len() == 0 || content@.last() == '\n') ==> r.0@ == content@
            + lines_for(r.1@),
        r.1@.len() > 0 && content@.len() > 0 && content@.last() != '\n' ==> r.0@ == content@.push(
            '\n',
        ) + lines_for(r.1@),
{
    lemma_tracking_text(content@, texts(patterns@));
    lemma_lines_for(r.1@);
    let t = tracking(content@, texts(patterns@));
    lemma_tracking(content@, texts(patterns@));
    lemma_prefix(r.0@, content@);
    if 0 <= i < patterns@.len() {
        assert(texts(patterns@)[i] == patterns@[i]@);
        let line = line_for(patterns@[i]@);
        assert(has_line(content@, line) <==> lists_line(content@, line));
        if !lists_line(content@, line) {
            let n = choose|n: int| 0 <= n < t.added.len() && t.added[n] == patterns@[i]@;
            assert(texts(r.1@)[n] == r.1@[n]@);
        }
        if is_among(r.1@, patterns@[i]@) {
            let n = choose|n: int| 0 <= n < r.1@.len() && (#[trigger] r.1@[n])@ == patterns@[i]@;
            assert(t.added[n] == r.1@[n]@);
        }
    }
    assert forall|j: int| 0 <= j < r.1@.len() implies is_among(
        patterns@,
        (#[trigger] r.1@[j])@,
    ) by {
        assert(t.added[j] == r.1@[j]@);
        let k = choose|k: int| 0 <= k < texts(patterns@).len() && texts(patterns@)[k] == t.added[j];
        assert(patterns@[k]@ == t.added[j]);
    }
    assert forall|j: int, k: int| 0 <= j < k < r.1@.len() implies (#[trigger] r.1@[j])@ != (
    #[trigger] r.1@[k])@ by {
        assert(t.added[j] == r.1@[j]@ && t.added[k] == r.1@[k]@);
    }
    assert(texts(r.1@).len() == r.1@.len());
}

/// Files are filtered exactly if some line that is no comment has `filter=xet_ai` in it.
pub proof fn law_has_tracked_patterns(content: &str, r: bool)
    requires
        call_ensures(has_tracked_patterns, (content,), r),
    ensures
        r <==> exists|i: int|
            0 <= i < lines_of(content@).len() && is_tracking_line(
                #[trigger] lines_of(content@)[i],
            ),
{
    assert forall|line: Seq<char>| filters_files(line) <==> is_tracking_line(line) by {
        let t = trim_text(line);
        reveal_strlit("#");
        assert("#"@ =~= seq!['#']);
        assert("#"@.is_prefix_of(t) <==> t.len() > 0 && t[0] == '#') by {
            if t.len() > 0 {
                assert(t.subrange(0, 1) =~= seq![t[0]]);
                assert(seq![t[0]][0] == t[0]);
                assert(seq!['#'][0] == '#');
            }
        }
        if has_part(t, "filter=xet_ai"@) {
            lemma_part_splits(t, "filter=xet_ai"@);
        }
        if exists|a: Seq<char>, b: Seq<char>| t == #[trigger] (a + "filter=xet_ai"@ + b) {
            let (a, b) = choose|a: Seq<char>, b: Seq<char>|
                t == #[trigger] (a + "filter=xet_ai"@ + b);
            lemma_part_between(a, "filter=xet_ai"@, b);
        }
    }
    if r {
        let i = choose|i: int|
            0 <= i < lines_of(content@).len() && filters_files(#[trigger] lines_of(content@)[i]);
        assert(is_tracking_line(lines_of(content@)[i]));
    }
    if exists|i: int|
        0 <= i < lines_of(content@).len() && is_tracking_line(#[trigger] lines_of(content@)[i]) {
        let i = choose|i: int|
            0 <= i < lines_of(content@).len() && is_tracking_line(
                #[trigger] lines_of(content@)[i],
            );
        assert(filters_files(lines_of(content@)[i]));
    }
}

/// The line is no comment, and has `filter=xet_ai` in it.
pub open spec fn is_tracking_line(line: Seq<char>) -> bool {
    let t = trim_text(line);
    &&& !(t.len() > 0 && t[0] == '#')
    &&& exists|a: Seq<char>, b: Seq<char>| t == #[trigger] (a + "filter=xet_ai"@ + b)
}

/// What is told of tracking: each pattern that was added, or that nothing changed.
pub proof fn law_track(added: &Vec<String>, r: Vec<String>)
    requires
        call_ensures(track, (added,), r),
    ensures
        added@.len() == 0 ==> r@.len() == 1 && r@[0]@ == "no changes"@,
        added@.len() > 0 ==> r@.len() == added@.len() && forall|i: int|
            0 <= i < added@.len() ==> (#[trigger] r@[i])@ == "tracked pattern: "@ + added@[i]@,
{
    let said = track_report(texts(added@));
    assert(texts(r@) == said);
    assert(texts(r@).len() == r@.len());
    if added@.len() == 0 {
        assert(texts(r@)[0] == r@[0]@);
    } else {
        assert forall|i: int| 0 <= i < added@.len() implies (#[trigger] r@[i])@
            == "tracked pattern: "@ + added@[i]@ by {
            assert(texts(r@)[i] == r@[i]@);
            assert(texts(added@)[i] == added@[i]@);
        }
    }
}

/// The git command sets a key of the configuration to a value.
pub open spec fn sets(command: Vec<String>, key: Seq<char>, value: Seq<char>) -> bool {
    command@.len() == 3 && command@[0]@ == "config"@ && command@[1]@ == key && command@[2]@ == value
}

/// `init` makes both filters known to git and tells it to insist on them, has git ignore the
/// directory of its own, gives the repository an identity only if it has none, and writes a
/// configuration only if that is wanted and there is none.
pub proof fn law_init(
    facts: InitFacts,
    init_config: bool,
    patterns: &Vec<String>,
    new_id: &str,
    r: InitPlan,
    line: &str,
    ignored: Option<String>,
    with_lines: (String, Vec<String>),
)
    requires
        call_ensures(init, (facts, init_config, patterns, new_id), r),
        line@ == ".xet_ai/"@,
        call_ensures(append_if_missing, (facts.gitignore, line), ignored),
        call_ensures(track_in_file, (facts.gitattributes, patterns), with_lines),
    ensures
        r.git_commands@.len() == 3,
        sets(r.git_commands@[0], "filter.xet_ai.clean"@, "xet-ai clean --path %f"@),
        sets(r.git_commands@[1], "filter.xet_ai.smudge"@, "xet-ai smudge --path %f"@),
        sets(r.git_commands@[2], "filter.xet_ai.required"@, "true"@),
        r.gitignore.deep_view() == ignored.deep_view(),
        facts.has_repo_id ==> r.repo_id is None && r.repo_id_notice is None,
        !facts.has_repo_id ==> (r.repo_id matches Some(id) && id@ == new_id@ + "\n"@) && (
        r.repo_id_notice matches Some(said) && said@ == "created .xet_ai_repo_id with repo id "@
            + new_id@ + "; please commit this file so clones share the same identity."@),
        patterns@.len() == 0 ==> r.gitattributes is None,
        patterns@.len() > 0 ==> (r.gitattributes matches Some(content) && content@ == with_lines.0@),
        r.write_config <==> init_config && !facts.has_shared_config,
        r.config_notice is Some <==> r.write_config,
        r.config_notice matches Some(said) ==> said@ == "created "@ + facts.shared_config@
            + "; commit if you want shared remote config"@,
{
    reveal_strlit("created ");
    reveal_strlit(".xet_ai_repo_id");
    reveal_strlit(" with repo id ");
    reveal_strlit("created .xet_ai_repo_id with repo id ");
    assert("created "@ + ".xet_ai_repo_id"@ + " with repo id "@
        =~= "created .xet_ai_repo_id with repo id "@);
    let views = command_views(r.git_commands@);
    assert(views.len() == r.git_commands@.len());
    assert forall|i: int| 0 <= i < 3 implies views[i].len() == 3 && (
    #[trigger] r.git_commands@[i])@.len() == 3 && r.git_commands@[i]@[0]@ == views[i][0]
        && r.git_commands@[i]@[1]@ == views[i][1] && r.git_commands@[i]@[2]@ == views[i][2] by {
        assert(views[i] == texts(r.git_commands@[i]@));
    }
}

/// The clean filter reads the file that its input belongs to, if that is there; else what it
/// is given, which is put into a file of its own. What lies with its temporary files goes in
/// the end.
pub proof fn law_clean_source(
    root: &str,
    path: &Option<String>,
    candidate: Option<String>,
    name: &str,
    resolved: String,
    base: &str,
    found: Option<String>,
    pid: u32,
    r: CleanSource,
    source: &str,
    tmp: &str,
    is_own: bool,
)
    requires
        source@ == r.path@,
        tmp@ == join(base@, "tmp"@),
        call_ensures(is_below, (source, tmp), is_own),
        call_ensures(clean_candidate, (root, path), candidate),
        path matches Some(p) ==> p@ == name@,
        call_ensures(resolve_path, (root, name), resolved),
        call_ensures(prepare_clean_source, (base, found, pid), r),
    ensures
        path is None ==> candidate is None,
        path is Some ==> (candidate matches Some(c) && c@ == resolved@),
        found matches Some(f) ==> r.path@ == f@ && !r.from_stdin,
        found is None ==> r.from_stdin && r.path@ == join(
            join(base@, "tmp"@),
            "clean-stdin-"@ + decimal(pid as nat) + ".tmp"@,
        ),
        r.temporary <==> is_own,
{
}

} // verus!
