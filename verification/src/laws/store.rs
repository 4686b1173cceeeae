//! Laws of the content store: which files take part, and what a manifest lists.

use vstd::prelude::*;

use crate::cli::sync::sync_included as in_listed_dir;
use crate::error::Error;
use crate::laws::text::{comes_first, lemma_lt_decides};
use crate::order::{lemma_by_key_lists, lemma_order_keeps_count, lemma_order_lists_all};
use crate::paths::join;
use crate::sync::layout::{
    allowlisted, describe_cas_tree, dir_views, first_component, first_name, in_allowlist, included,
    sync_included,
};
use crate::sync::manifest::{
    build_manifest, build_manifest_for_relpaths, building, call_hashes, call_paths, entry_views,
    is_cached, is_missing, lemma_found_is_listed, lemma_listed_was_found, lemma_missing,
    manifest_of, missing_relpaths, missing_required_relpaths, requested, saturated, takes_part,
    total_size, walked, wanted_once, BuiltManifest, CachedHash, EntryView, FoundFile, HashCache,
    HashCacheEntry, HashCall, HashProvider, HashSession, ManifestEntry,
};
use crate::text::{first_of, text_le, texts};

verus! {

/// One of the directories at the top of a content store that are kept in step.
pub open spec fn is_listed(name: Seq<char>) -> bool {
    name == "cas"@ || name == "shards"@ || name == "mdb"@ || name == "xorbs"@ || name
        == "merkledb"@
}

/// The name of a file or a directory: it is not empty, has no separator in it, and is
/// neither the current directory nor the one above.
pub open spec fn is_name(n: Seq<char>) -> bool {
    n.len() > 0 && !n.contains('/') && n != seq!['.'] && n != seq!['.', '.']
}

/// What can stand before the first name of a path and does not count: separators, and
/// components that stand for the current directory or the one above.
pub open spec fn is_lead(lead: Seq<char>) -> bool
    decreases lead.len(),
{
    ||| lead.len() == 0
    ||| (lead[0] == '/' && is_lead(lead.skip(1)))
    ||| (lead.len() >= 2 && lead[0] == '.' && lead[1] == '/' && is_lead(lead.skip(2)))
    ||| (lead.len() >= 3 && lead[0] == '.' && lead[1] == '.' && lead[2] == '/' && is_lead(
        lead.skip(3),
    ))
}

/// What can stand behind the first name of a path: nothing, or a separator and anything.
pub open spec fn is_tail(tail: Seq<char>) -> bool {
    tail.len() == 0 || tail[0] == '/'
}

proof fn lemma_head(p: Seq<char>, k: int)
    requires
        0 <= k <= p.len(),
        k < p.len() ==> p[k] == '/',
        forall|i: int| 0 <= i < k ==> p[i] != '/',
    ensures
        first_of(p, '/') == k,
    decreases p.len(),
{
    if p.len() > 0 && p[0] != '/' {
        assert forall|i: int| 0 <= i < k - 1 implies p.drop_first()[i] != '/' by {
            assert(p[i + 1] != '/');
        }
        if k < p.len() {
            assert(p.drop_first()[k - 1] == p[k]);
        }
        lemma_head(p.drop_first(), k - 1);
    }
}

/// The first name of a path is the first component that is a name.
pub proof fn lemma_first_name(lead: Seq<char>, name: Seq<char>, tail: Seq<char>)
    requires
        is_lead(lead),
        is_name(name),
        is_tail(tail),
    ensures
        first_name(lead + name + tail) == Some(name),
        first_name(lead) == None::<Seq<char>>,
        first_name(lead.push('.')) == None::<Seq<char>>,
        first_name(lead.push('.').push('.')) == None::<Seq<char>>,
    decreases lead.len(),
{
    reveal_strlit("");
    reveal_strlit(".");
    reveal_strlit("..");
    assert(""@ =~= Seq::<char>::empty());
    assert("."@ =~= seq!['.']);
    assert(".."@ =~= seq!['.', '.']);
    let p = lead + name + tail;
    let one = lead.push('.');
    let two = lead.push('.').push('.');
    if lead.len() == 0 {
        assert forall|i: int| 0 <= i < name.len() implies p[i] != '/' by {
            assert(name.contains(name[i]));
        }
        lemma_head(p, name.len() as int);
        assert(p.take(name.len() as int) =~= name);
        lemma_head(lead, 0);
        assert(lead.take(0) =~= seq![]);
        lemma_head(one, 1);
        assert(one.take(1) =~= seq!['.']);
        lemma_head(two, 2);
        assert(two.take(2) =~= seq!['.', '.']);
    } else {
        let k = if lead[0] == '/' {
            0int
        } else if lead[1] == '/' {
            1int
        } else {
            2int
        };
        let less = lead.skip(k + 1);
        lemma_first_name(less, name, tail);
        assert(lead.take(k) =~= seq![] || lead.take(k) =~= seq!['.'] || lead.take(k) =~= seq![
            '.',
            '.',
        ]);
        assert(p.skip(k + 1) =~= less + name + tail);
        assert(one.skip(k + 1) =~= less.push('.'));
        assert(two.skip(k + 1) =~= less.push('.').push('.'));
        assert(p.take(k) =~= lead.take(k));
        assert(one.take(k) =~= lead.take(k));
        assert(two.take(k) =~= lead.take(k));
        lemma_head(p, k);
        lemma_head(lead, k);
        lemma_head(one, k);
        lemma_head(two, k);
    }
}

/// The listed directories have names.
pub proof fn lemma_listed_names()
    ensures
        forall|n: Seq<char>| #[trigger] is_listed(n) ==> is_name(n),
{
    reveal_strlit("cas");
    reveal_strlit("shards");
    reveal_strlit("mdb");
    reveal_strlit("xorbs");
    reveal_strlit("merkledb");
    assert forall|n: Seq<char>| #[trigger] is_listed(n) implies is_name(n) by {
        assert(n.len() >= 3);
        assert(forall|i: int| 0 <= i < n.len() ==> n[i] != '/');
    }
}

/// The first component of a path is its first name, whatever separators and dots come
/// before it and whatever comes behind it. Where there is nothing but these, there is none.
pub proof fn law_first_component(
    path: &str,
    lead: Seq<char>,
    name: Seq<char>,
    tail: Seq<char>,
    r: Option<String>,
)
    requires
        is_lead(lead),
        is_name(name),
        is_tail(tail),
        call_ensures(first_component, (path,), r),
    ensures
        path@ == lead + name + tail ==> (r matches Some(n) && n@ == name),
        path@ == lead || path@ == lead.push('.') || path@ == lead.push('.').push('.') ==> r is None,
{
    lemma_first_name(lead, name, tail);
}

/// A file takes part in synchronisation exactly if its path leads first into `cas`,
/// `shards`, `mdb`, `xorbs` or `merkledb`, whatever comes then, unless the path begins with
/// that of the lookup database among the xorbs.
pub proof fn law_sync_included(
    path: &str,
    lead: Seq<char>,
    name: Seq<char>,
    tail: Seq<char>,
    r: bool,
)
    requires
        call_ensures(sync_included, (path,), r),
        is_lead(lead),
        is_name(name),
        is_tail(tail),
    ensures
        path@ == lead + name + tail ==> (r <==> is_listed(name) && !exists|rest: Seq<char>|
            path@ == #[trigger] ("xorbs/global_dedup_lookup.db/"@ + rest)),
        path@ == lead || path@ == lead.push('.') || path@ == lead.push('.').push('.') ==> !r,
{
    lemma_first_name(lead, name, tail);
    lemma_prefix(path@, "xorbs/global_dedup_lookup.db/"@);
}

/// To begin with a text is to be that text with something behind it.
pub proof fn lemma_prefix(s: Seq<char>, prefix: Seq<char>)
    ensures
        prefix.is_prefix_of(s) <==> exists|rest: Seq<char>| s == #[trigger] (prefix + rest),
{
    if prefix.is_prefix_of(s) {
        assert(s =~= prefix + s.skip(prefix.len() as int));
    }
    if exists|rest: Seq<char>| s == #[trigger] (prefix + rest) {
        let rest = choose|rest: Seq<char>| s == #[trigger] (prefix + rest);
        assert(s.subrange(0, prefix.len() as int) =~= prefix);
    }
}

/// Every file below a listed directory takes part, at whatever depth and under whatever
/// name, but for those of the lookup database; and no file below another directory does.
pub proof fn law_files_below_take_part(path: &str, dir: Seq<char>, rest: Seq<char>, r: bool)
    requires
        call_ensures(sync_included, (path,), r),
        is_listed(dir) || is_name(dir),
        path@ == dir.push('/') + rest,
    ensures
        is_listed(dir) && !"xorbs/global_dedup_lookup.db/"@.is_prefix_of(path@) ==> r,
        "xorbs/global_dedup_lookup.db/"@.is_prefix_of(path@) ==> !r,
        !is_listed(dir) ==> !r,
{
    let tail = seq!['/'] + rest;
    lemma_listed_names();
    assert(path@ =~= Seq::<char>::empty() + dir + tail);
    lemma_first_name(Seq::empty(), dir, tail);
}

/// The rule without the lookup database, for the plain copy of a store.
pub proof fn law_listed_dir(path: &str, lead: Seq<char>, name: Seq<char>, tail: Seq<char>, r: bool)
    requires
        call_ensures(in_listed_dir, (path,), r),
        is_lead(lead),
        is_name(name),
        is_tail(tail),
    ensures
        path@ == lead + name + tail ==> (r <==> is_listed(name)),
        path@ == lead || path@ == lead.push('.') || path@ == lead.push('.').push('.') ==> !r,
{
    lemma_first_name(lead, name, tail);
}

/// The top directories that take part are the listed ones.
pub proof fn law_allowlisted(name: &str, r: bool)
    requires
        call_ensures(allowlisted, (name,), r),
    ensures
        r <==> is_listed(name@),
{
}

/// The directory is told of.
pub open spec fn is_told(told: Seq<(String, bool)>, name: Seq<char>) -> bool {
    exists|j: int| 0 <= j < told.len() && (#[trigger] told[j]).0@ == name
}

/// The description of a store names every directory at its top, with whether it is a listed
/// one, and no others, in ascending order.
pub proof fn law_describe_cas_tree(dirs: Vec<String>, r: Vec<(String, bool)>)
    requires
        call_ensures(describe_cas_tree, (dirs,), r),
    ensures
        r@.len() == dirs@.len(),
        forall|i: int| 0 <= i < dirs@.len() ==> is_told(r@, (#[trigger] dirs@[i])@),
        forall|j: int|
            0 <= j < r@.len() ==> {
                &&& (#[trigger] r@[j]).1 == is_listed(r@[j].0@)
                &&& exists|i: int| 0 <= i < dirs@.len() && (#[trigger] dirs@[i])@ == r@[j].0@
            },
        forall|i: int, j: int|
            0 <= i < j < r@.len() ==> !comes_first(
                (#[trigger] r@[j]).0@,
                (#[trigger] r@[i]).0@,
            ),
{
    let told = dirs@.map_values(|d: String| (d@, in_allowlist(d@)));
    let out = dir_views(r@);
    let key = |p: (Seq<char>, bool)| p.0;
    lemma_order_keeps_count(told, out, key);
    assert forall|i: int| 0 <= i < dirs@.len() implies is_told(r@, (#[trigger] dirs@[i])@) by {
        assert(told.contains(told[i]));
        lemma_order_lists_all(told, out, key, told[i]);
        let j = choose|j: int| 0 <= j < out.len() && out[j] == told[i];
        assert(r@[j].0@ == out[j].0);
    }
    assert forall|j: int| 0 <= j < r@.len() implies {
        &&& (#[trigger] r@[j]).1 == is_listed(r@[j].0@)
        &&& exists|i: int| 0 <= i < dirs@.len() && (#[trigger] dirs@[i])@ == r@[j].0@
    } by {
        lemma_by_key_lists(told, out, key, j);
        let i = choose|i: int| 0 <= i < told.len() && told[i] == out[j];
        assert(dirs@[i]@ == told[i].0);
        assert(out[j] == (r@[j].0@, r@[j].1));
    }
    assert forall|i: int, j: int| 0 <= i < j < r@.len() implies !comes_first(
        (#[trigger] r@[j]).0@,
        (#[trigger] r@[i]).0@,
    ) by {
        assert(out[i].0 == r@[i].0@);
        assert(out[j].0 == r@[j].0@);
        assert(text_le(key(out[i]), key(out[j])));
        lemma_lt_decides(r@[j].0@, r@[i].0@);
    }
}

/// The path lies below a listed directory, and not in the lookup database among the xorbs.
pub open spec fn is_kept_in_step(path: Seq<char>) -> bool {
    &&& exists|dir: Seq<char>, rest: Seq<char>|
        is_listed(dir) && path == #[trigger] (dir.push('/') + rest)
    &&& !"xorbs/global_dedup_lookup.db/"@.is_prefix_of(path)
}

proof fn lemma_kept_in_step(path: Seq<char>)
    requires
        is_kept_in_step(path),
    ensures
        included(path),
{
    let (dir, rest) = choose|dir: Seq<char>, rest: Seq<char>|
        is_listed(dir) && path == #[trigger] (dir.push('/') + rest);
    let tail = seq!['/'] + rest;
    lemma_listed_names();
    assert(path =~= Seq::<char>::empty() + dir + tail);
    lemma_first_name(Seq::empty(), dir, tail);
}

proof fn lemma_left_alone(path: Seq<char>, dir: Seq<char>, rest: Seq<char>)
    requires
        is_name(dir),
        path == dir.push('/') + rest,
    ensures
        included(path) <==> is_kept_in_step(path),
{
    let tail = seq!['/'] + rest;
    assert(path =~= Seq::<char>::empty() + dir + tail);
    lemma_first_name(Seq::empty(), dir, tail);
    if is_kept_in_step(path) {
        lemma_kept_in_step(path);
    }
}

/// The manifest has an entry for the file, with this size.
pub open spec fn has_entry(entries: Seq<ManifestEntry>, relpath: Seq<char>, size: u64) -> bool {
    exists|j: int|
        0 <= j < entries.len() && (#[trigger] entries[j]).relpath@ == relpath && entries[j].size
            == size
}

/// The sizes of the entries, added up from the front.
pub open spec fn bytes_in(entries: Seq<ManifestEntry>) -> nat
    decreases entries.len(),
{
    if entries.len() == 0 {
        0
    } else {
        entries[0].size as nat + bytes_in(entries.skip(1))
    }
}

/// The two ways of adding up agree.
pub proof fn lemma_bytes_in(entries: Seq<ManifestEntry>)
    ensures
        bytes_in(entries) == total_size(entry_views(entries)),
    decreases entries.len(),
{
    let v = entry_views(entries);
    if entries.len() > 0 {
        lemma_bytes_in(entries.skip(1));
        let u = entry_views(entries.skip(1));
        assert(v =~= seq![v[0]] + u);
        lemma_total_in_parts(seq![v[0]], u);
        assert(total_size(seq![v[0]]) == v[0].size) by {
            reveal_with_fuel(total_size, 2);
            assert(seq![v[0]].drop_last() =~= Seq::<EntryView>::empty());
        }
    }
}

/// What two lists of entries have in bytes is what they have together.
pub proof fn lemma_total_in_parts(a: Seq<EntryView>, b: Seq<EntryView>)
    ensures
        total_size(a + b) == total_size(a) + total_size(b),
    decreases b.len(),
{
    if b.len() == 0 {
        assert(a + b =~= a);
    } else {
        assert((a + b).drop_last() =~= a + b.drop_last());
        assert((a + b).last() == b.last());
        lemma_total_in_parts(a, b.drop_last());
    }
}

/// The hash of an entry: it was known for a file of that size, or a call gave it for that
/// file.
pub open spec fn hash_was_given(
    cas_root: Seq<char>,
    known: Map<Seq<char>, HashCacheEntry>,
    calls: Seq<HashCall>,
    e: ManifestEntry,
) -> bool {
    ||| known.contains_key(e.relpath@) && known[e.relpath@].size == e.size
        && known[e.relpath@].sha256@ == e.sha256@
    ||| exists|n: int|
        0 <= n < calls.len() && (#[trigger] calls[n]).path == join(cas_root, e.relpath@)
            && calls[n].reply == Ok::<Seq<char>, Seq<char>>(e.sha256@)
}

spec fn came_by(
    root: Seq<char>,
    cache: Map<Seq<char>, CachedHash>,
    asked: Seq<Seq<char>>,
    replies: Seq<Seq<char>>,
    k: Seq<char>,
    c: CachedHash,
) -> bool {
    ||| cache.contains_key(k) && cache[k] == c
    ||| exists|n: int|
        0 <= n < asked.len() && (#[trigger] asked[n]) == join(root, k) && replies[n] == c.sha256
}

proof fn lemma_hashes_came(
    root: Seq<char>,
    files: Seq<FoundFile>,
    cache: Map<Seq<char>, CachedHash>,
    replies: Seq<Seq<char>>,
)
    ensures
        ({
            let b = building(root, files, cache, replies);
            &&& forall|k: Seq<char>| #[trigger]
                b.cache.contains_key(k) ==> came_by(root, cache, b.asked, replies, k, b.cache[k])
            &&& forall|i: int|
                0 <= i < b.entries.len() ==> came_by(
                    root,
                    cache,
                    b.asked,
                    replies,
                    (#[trigger] b.entries[i]).relpath,
                    (CachedHash { size: b.entries[i].size, sha256: b.entries[i].sha256 }),
                )
        }),
    decreases files.len(),
{
    if files.len() > 0 {
        let f = files.last();
        let p = building(root, files.drop_last(), cache, replies);
        let b = building(root, files, cache, replies);
        lemma_hashes_came(root, files.drop_last(), cache, replies);
        if takes_part(f) && !is_cached(p.cache, f) {
            let n = p.asked.len() as int;
            assert(b.asked[n] == join(root, f.relpath));
            assert forall|k: Seq<char>, c: CachedHash| #[trigger]
                came_by(root, cache, p.asked, replies, k, c) implies came_by(
                root,
                cache,
                b.asked,
                replies,
                k,
                c,
            ) by {
                if !(cache.contains_key(k) && cache[k] == c) {
                    let m = choose|m: int|
                        0 <= m < p.asked.len() && (#[trigger] p.asked[m]) == join(root, k)
                            && replies[m] == c.sha256;
                    assert(b.asked[m] == p.asked[m]);
                }
            }
            assert(came_by(
                root,
                cache,
                b.asked,
                replies,
                f.relpath,
                CachedHash { size: f.size->0, sha256: replies[n] },
            ));
        }
    }
}

proof fn lemma_what_is_hashed(
    root: Seq<char>,
    files: Seq<FoundFile>,
    cache: Map<Seq<char>, CachedHash>,
    replies: Seq<Seq<char>>,
)
    requires
        wanted_once(files),
    ensures
        ({
            let b = building(root, files, cache, replies);
            &&& forall|k: Seq<char>|
                (forall|i: int|
                    0 <= i < files.len() && takes_part(#[trigger] files[i]) ==> files[i].relpath
                        != k) ==> ((#[trigger] b.cache.contains_key(k)) <==> cache.contains_key(k))
                    && (cache.contains_key(k) ==> b.cache[k] == cache[k])
            &&& forall|i: int|
                0 <= i < files.len() && takes_part(#[trigger] files[i]) && !is_cached(
                    cache,
                    files[i],
                ) ==> b.asked.contains(join(root, files[i].relpath))
            &&& forall|n: int|
                0 <= n < b.asked.len() ==> hashed_for(root, files, cache, #[trigger] b.asked[n])
        }),
    decreases files.len(),
{
    if files.len() > 0 {
        let q = files.drop_last();
        let f = files.last();
        let p = building(root, q, cache, replies);
        let b = building(root, files, cache, replies);
        assert forall|i: int, j: int|
            #![trigger q[i], q[j]]
            0 <= i < j < q.len() && included(q[i].relpath) && included(q[j].relpath) implies q[i].relpath
            != q[j].relpath by {
            assert(files[i] == q[i] && files[j] == q[j]);
        }
        lemma_what_is_hashed(root, q, cache, replies);
        if takes_part(f) {
            assert forall|i: int| 0 <= i < q.len() && takes_part(#[trigger] q[i]) implies q[i].relpath
                != f.relpath by {
                assert(files[i] == q[i]);
                assert(files[files.len() - 1] == f);
            }
            assert(p.cache.contains_key(f.relpath) <==> cache.contains_key(f.relpath));
            assert(is_cached(p.cache, f) == is_cached(cache, f));
        }
        assert forall|k: Seq<char>|
            (forall|i: int|
                0 <= i < files.len() && takes_part(#[trigger] files[i]) ==> files[i].relpath
                    != k) implies ((#[trigger] b.cache.contains_key(k)) <==> cache.contains_key(k))
            && (cache.contains_key(k) ==> b.cache[k] == cache[k]) by {
            assert forall|i: int| 0 <= i < q.len() && takes_part(#[trigger] q[i]) implies q[i].relpath
                != k by {
                assert(files[i] == q[i]);
            }
            assert(p.cache.contains_key(k) <==> cache.contains_key(k));
            if takes_part(f) {
                assert(files[files.len() - 1].relpath != k);
            }
        }
        assert forall|i: int|
            0 <= i < files.len() && takes_part(#[trigger] files[i]) && !is_cached(
                cache,
                files[i],
            ) implies b.asked.contains(join(root, files[i].relpath)) by {
            if i < q.len() {
                assert(q[i] == files[i]);
                let n = choose|n: int|
                    0 <= n < p.asked.len() && p.asked[n] == join(root, files[i].relpath);
                assert(b.asked[n] == p.asked[n]);
            } else {
                assert(b.asked.last() == join(root, f.relpath));
            }
        }
        assert forall|n: int| 0 <= n < b.asked.len() implies hashed_for(
            root,
            files,
            cache,
            #[trigger] b.asked[n],
        ) by {
            if n < p.asked.len() {
                assert(b.asked[n] == p.asked[n]);
                let i = choose|i: int|
                    0 <= i < q.len() && takes_part(#[trigger] q[i]) && !is_cached(cache, q[i])
                        && p.asked[n] == join(root, q[i].relpath);
                assert(files[i] == q[i]);
            } else {
                assert(files[files.len() - 1] == f);
            }
        }
    }
}

spec fn hashed_for(
    root: Seq<char>,
    files: Seq<FoundFile>,
    cache: Map<Seq<char>, CachedHash>,
    path: Seq<char>,
) -> bool {
    exists|i: int|
        0 <= i < files.len() && takes_part(#[trigger] files[i]) && !is_cached(cache, files[i])
            && path == join(root, files[i].relpath)
}

/// The manifest of a content store has an entry for every file that a walk found below a
/// listed directory, with its size, and none for a file that was not found or lies below
/// another directory. The entries are in ascending order of their paths, and the total is
/// the sum of their sizes, as far as that can be counted.
pub proof fn law_manifest_lists_the_store<H: HashProvider>(
    repo_id: &str,
    git_sha: &str,
    cas_root: &str,
    walk: &Vec<(String, u64)>,
    cache: HashCache,
    hasher: &mut HashSession<H>,
    built: BuiltManifest,
)
    requires
        call_ensures(
            build_manifest::<H>,
            (repo_id, git_sha, cas_root, walk, cache, hasher),
            Ok::<BuiltManifest, Error>(built),
        ),
    ensures
        built.manifest.repo_id@ == repo_id@,
        built.manifest.git_sha@ == git_sha@,
        forall|i: int|
            0 <= i < walk@.len() && is_kept_in_step((#[trigger] walk@[i]).0@) ==> has_entry(
                built.manifest.entries@,
                walk@[i].0@,
                walk@[i].1,
            ),
        forall|j: int|
            0 <= j < built.manifest.entries@.len() ==> was_found(
                walk@,
                #[trigger] built.manifest.entries@[j],
            ),
        forall|j: int, dir: Seq<char>, rest: Seq<char>|
            0 <= j < built.manifest.entries@.len() && is_name(dir) && (
            #[trigger] built.manifest.entries@[j]).relpath@ == #[trigger] (dir.push('/') + rest)
                ==> is_kept_in_step(built.manifest.entries@[j].relpath@),
        forall|i: int, j: int|
            0 <= i < j < built.manifest.entries@.len() ==> !comes_first(
                (#[trigger] built.manifest.entries@[j]).relpath@,
                (#[trigger] built.manifest.entries@[i]).relpath@,
            ),
        bytes_in(built.manifest.entries@) <= u64::MAX ==> built.manifest.total_bytes == bytes_in(
            built.manifest.entries@,
        ),
        bytes_in(built.manifest.entries@) > u64::MAX ==> built.manifest.total_bytes == u64::MAX,
{
    let calls = final(hasher).log().skip(old(hasher).log().len() as int);
    let files = walked(walk@);
    let b = building(cas_root@, files, cache@, call_hashes(calls));
    lemma_manifest_of(repo_id@, git_sha@, cas_root@, files, cache@, call_hashes(calls), built);
    assert forall|i: int| 0 <= i < walk@.len() && is_kept_in_step(
        (#[trigger] walk@[i]).0@,
    ) implies has_entry(built.manifest.entries@, walk@[i].0@, walk@[i].1) by {
        lemma_kept_in_step(walk@[i].0@);
        assert(takes_part(files[i]));
    }
    assert forall|j: int| 0 <= j < built.manifest.entries@.len() implies was_found(
        walk@,
        #[trigger] built.manifest.entries@[j],
    ) by {
        let i = choose|i: int|
            0 <= i < files.len() && takes_part(#[trigger] files[i]) && files[i].relpath
                == built.manifest.entries@[j].relpath@ && files[i].size == Some(
                built.manifest.entries@[j].size,
            );
        assert(walk@[i].0@ == files[i].relpath);
    }
    assert forall|j: int, dir: Seq<char>, rest: Seq<char>|
        0 <= j < built.manifest.entries@.len() && is_name(dir) && (
        #[trigger] built.manifest.entries@[j]).relpath@ == #[trigger] (dir.push('/')
            + rest) implies is_kept_in_step(built.manifest.entries@[j].relpath@) by {
        lemma_left_alone(built.manifest.entries@[j].relpath@, dir, rest);
    }
}

/// The walk found the file that the entry lists, with that size.
pub open spec fn was_found(walk: Seq<(String, u64)>, e: ManifestEntry) -> bool {
    exists|i: int|
        0 <= i < walk.len() && (#[trigger] walk[i]).0@ == e.relpath@ && walk[i].1 == e.size
}

proof fn lemma_manifest_of(
    repo_id: Seq<char>,
    git_sha: Seq<char>,
    root: Seq<char>,
    files: Seq<FoundFile>,
    cache: Map<Seq<char>, CachedHash>,
    replies: Seq<Seq<char>>,
    built: BuiltManifest,
)
    requires
        manifest_of(repo_id, git_sha, building(root, files, cache, replies), built),
    ensures
        forall|i: int|
            0 <= i < files.len() && takes_part(#[trigger] files[i]) ==> has_entry(
                built.manifest.entries@,
                files[i].relpath,
                files[i].size->0,
            ),
        forall|j: int|
            0 <= j < built.manifest.entries@.len() ==> (exists|i: int|
                0 <= i < files.len() && takes_part(#[trigger] files[i]) && files[i].relpath == (
                #[trigger] built.manifest.entries@[j]).relpath@ && files[i].size == Some(
                    built.manifest.entries@[j].size,
                )) && included(built.manifest.entries@[j].relpath@),
        forall|i: int, j: int|
            0 <= i < j < built.manifest.entries@.len() ==> !comes_first(
                (#[trigger] built.manifest.entries@[j]).relpath@,
                (#[trigger] built.manifest.entries@[i]).relpath@,
            ),
        built.manifest.total_bytes == saturated(bytes_in(built.manifest.entries@)),
        forall|j: int|
            0 <= j < built.manifest.entries@.len() ==> came_by(
                root,
                cache,
                building(root, files, cache, replies).asked,
                replies,
                (#[trigger] built.manifest.entries@[j]).relpath@,
                (CachedHash {
                    size: built.manifest.entries@[j].size,
                    sha256: built.manifest.entries@[j].sha256@,
                }),
            ),
{
    let b = building(root, files, cache, replies);
    let entries = built.manifest.entries@;
    let out = entry_views(entries);
    let key = |e: EntryView| e.relpath;
    lemma_bytes_in(entries);
    lemma_hashes_came(root, files, cache, replies);
    assert forall|i: int| 0 <= i < files.len() && takes_part(#[trigger] files[i]) implies has_entry(
        entries,
        files[i].relpath,
        files[i].size->0,
    ) by {
        lemma_found_is_listed(root, files, cache, replies, i);
        let l = choose|l: int|
            0 <= l < b.entries.len() && (#[trigger] b.entries[l]).relpath == files[i].relpath
                && Some(b.entries[l].size) == files[i].size;
        assert(b.entries.contains(b.entries[l]));
        lemma_order_lists_all(b.entries, out, key, b.entries[l]);
        let j = choose|j: int| 0 <= j < out.len() && out[j] == b.entries[l];
        assert(entries[j]@ == out[j]);
    }
    assert forall|j: int| 0 <= j < entries.len() implies (exists|i: int|
        0 <= i < files.len() && takes_part(#[trigger] files[i]) && files[i].relpath == (
        #[trigger] entries[j]).relpath@ && files[i].size == Some(entries[j].size)) && included(
        entries[j].relpath@,
    ) && came_by(
        root,
        cache,
        b.asked,
        replies,
        entries[j].relpath@,
        (CachedHash { size: entries[j].size, sha256: entries[j].sha256@ }),
    ) by {
        assert(out[j] == entries[j]@);
        lemma_by_key_lists(b.entries, out, key, j);
        let l = choose|l: int| 0 <= l < b.entries.len() && b.entries[l] == out[j];
        lemma_listed_was_found(root, files, cache, replies, l);
    }
    assert forall|i: int, j: int| 0 <= i < j < entries.len() implies !comes_first(
        (#[trigger] entries[j]).relpath@,
        (#[trigger] entries[i]).relpath@,
    ) by {
        assert(out[i] == entries[i]@);
        assert(out[j] == entries[j]@);
        assert(text_le(key(out[i]), key(out[j])));
        lemma_lt_decides(entries[j].relpath@, entries[i].relpath@);
    }
}

/// Each hash that a manifest gives was known before for a file of that size, or was
/// computed for that file; where no file comes twice, exactly those files are hashed below
/// listed directories of which no hash is known, or one for another size.
pub proof fn law_manifest_hashes<H: HashProvider>(
    repo_id: &str,
    git_sha: &str,
    cas_root: &str,
    walk: &Vec<(String, u64)>,
    cache: HashCache,
    hasher: &mut HashSession<H>,
    built: BuiltManifest,
)
    requires
        call_ensures(
            build_manifest::<H>,
            (repo_id, git_sha, cas_root, walk, cache, hasher),
            Ok::<BuiltManifest, Error>(built),
        ),
    ensures
        ({
            let calls = final(hasher).log().skip(old(hasher).log().len() as int);
            let distinct = forall|i: int, j: int|
                0 <= i < j < walk@.len() ==> (#[trigger] walk@[i]).0@ != (#[trigger] walk@[j]).0@;
            &&& forall|j: int|
                0 <= j < built.manifest.entries@.len() ==> hash_was_given(
                    cas_root@,
                    cache.entries@,
                    calls,
                    #[trigger] built.manifest.entries@[j],
                )
            &&& distinct ==> forall|i: int|
                0 <= i < walk@.len() && is_kept_in_step((#[trigger] walk@[i]).0@)
                    && !is_known(cache.entries@, walk@[i]) ==> was_hashed(
                    calls,
                    join(cas_root@, walk@[i].0@),
                )
            &&& distinct ==> forall|n: int|
                0 <= n < calls.len() ==> had_to_be_hashed(
                    cas_root@,
                    cache.entries@,
                    walk@,
                    (#[trigger] calls[n]).path,
                )
        }),
{
    let calls = final(hasher).log().skip(old(hasher).log().len() as int);
    let files = walked(walk@);
    let replies = call_hashes(calls);
    let b = building(cas_root@, files, cache@, replies);
    lemma_manifest_of(repo_id@, git_sha@, cas_root@, files, cache@, replies, built);
    assert(call_paths(calls) == b.asked);
    assert(b.asked.len() == calls.len());
    assert forall|n: int| 0 <= n < calls.len() implies b.asked[n] == (#[trigger] calls[n]).path
        && calls[n].reply == Ok::<Seq<char>, Seq<char>>(replies[n]) by {
        assert(call_paths(calls)[n] == calls[n].path);
    }
    assert forall|j: int| 0 <= j < built.manifest.entries@.len() implies hash_was_given(
        cas_root@,
        cache.entries@,
        calls,
        #[trigger] built.manifest.entries@[j],
    ) by {
        let e = built.manifest.entries@[j];
        let c = CachedHash { size: e.size, sha256: e.sha256@ };
        if cache@.contains_key(e.relpath@) && cache@[e.relpath@] == c {
            assert(cache@[e.relpath@] == cache.entries@[e.relpath@]@);
        } else {
            let n = choose|n: int|
                0 <= n < b.asked.len() && (#[trigger] b.asked[n]) == join(cas_root@, e.relpath@)
                    && replies[n] == c.sha256;
            assert(calls[n].path == b.asked[n]);
        }
    }
    if forall|i: int, j: int|
        0 <= i < j < walk@.len() ==> (#[trigger] walk@[i]).0@ != (#[trigger] walk@[j]).0@ {
        assert forall|i: int, j: int|
            #![trigger files[i], files[j]]
            0 <= i < j < files.len() && included(files[i].relpath) && included(
                files[j].relpath,
            ) implies files[i].relpath != files[j].relpath by {
            assert(walk@[i].0@ != walk@[j].0@);
        }
        lemma_what_is_hashed(cas_root@, files, cache@, replies);
        assert forall|i: int|
            0 <= i < walk@.len() && is_kept_in_step((#[trigger] walk@[i]).0@) && !is_known(
                cache.entries@,
                walk@[i],
            ) implies was_hashed(calls, join(cas_root@, walk@[i].0@)) by {
            lemma_kept_in_step(walk@[i].0@);
            assert(takes_part(files[i]));
            if cache@.contains_key(walk@[i].0@) {
                assert(cache@[walk@[i].0@] == cache.entries@[walk@[i].0@]@);
            }
            let n = choose|n: int|
                0 <= n < b.asked.len() && b.asked[n] == join(cas_root@, files[i].relpath);
            assert(calls[n].path == b.asked[n]);
        }
        assert forall|n: int| 0 <= n < calls.len() implies had_to_be_hashed(
            cas_root@,
            cache.entries@,
            walk@,
            (#[trigger] calls[n]).path,
        ) by {
            assert(hashed_for(cas_root@, files, cache@, b.asked[n]));
            let i = choose|i: int|
                0 <= i < files.len() && takes_part(#[trigger] files[i]) && !is_cached(
                    cache@,
                    files[i],
                ) && b.asked[n] == join(cas_root@, files[i].relpath);
            assert(walk@[i].0@ == files[i].relpath);
            if cache.entries@.contains_key(walk@[i].0@) {
                assert(cache@[walk@[i].0@] == cache.entries@[walk@[i].0@]@);
            }
        }
    }
}

/// The hash of the file is known for its size.
pub open spec fn is_known(known: Map<Seq<char>, HashCacheEntry>, f: (String, u64)) -> bool {
    known.contains_key(f.0@) && known[f.0@].size == f.1
}

/// The file was hashed.
pub open spec fn was_hashed(calls: Seq<HashCall>, path: Seq<char>) -> bool {
    exists|n: int| 0 <= n < calls.len() && (#[trigger] calls[n]).path == path
}

/// There was a reason to hash the file: it was found, and its hash was not known.
pub open spec fn had_to_be_hashed(
    cas_root: Seq<char>,
    known: Map<Seq<char>, HashCacheEntry>,
    walk: Seq<(String, u64)>,
    path: Seq<char>,
) -> bool {
    exists|i: int|
        0 <= i < walk.len() && path == join(cas_root, (#[trigger] walk[i]).0@) && !is_known(
            known,
            walk[i],
        )
}

/// Of the files that a commit needs, those are missing that lie below a listed directory
/// and are not there; those that are there, or lie elsewhere, are not.
pub proof fn law_missing_required_relpaths(
    relpaths: &Vec<(String, Option<u64>)>,
    r: Vec<String>,
    i: int,
    dir: Seq<char>,
    rest: Seq<char>,
)
    requires
        call_ensures(missing_required_relpaths, (relpaths,), r),
    ensures
        0 <= i < relpaths@.len() && is_kept_in_step(relpaths@[i].0@) && relpaths@[i].1 is None
            ==> is_among(r@, relpaths@[i].0@),
        0 <= i < r@.len() ==> was_missing(relpaths@, r@[i]@),
        0 <= i < r@.len() && is_name(dir) && r@[i]@ == dir.push('/') + rest ==> is_kept_in_step(
            r@[i]@,
        ),
        (forall|a: int, b: int|
            0 <= a < b < relpaths@.len() ==> (#[trigger] relpaths@[a]).0@ != (
            #[trigger] relpaths@[b]).0@) ==> forall|a: int, b: int|
            0 <= a < b < r@.len() ==> (#[trigger] r@[a])@ != (#[trigger] r@[b])@,
{
    let files = requested(relpaths@);
    if forall|a: int, b: int|
        0 <= a < b < relpaths@.len() ==> (#[trigger] relpaths@[a]).0@ != (
        #[trigger] relpaths@[b]).0@ {
        assert forall|a: int, b: int| 0 <= a < b < files.len() implies (#[trigger] files[a]).relpath
            != (#[trigger] files[b]).relpath by {
            assert(files[a].relpath == relpaths@[a].0@ && files[b].relpath == relpaths@[b].0@);
        }
        lemma_missing_once(files);
        assert forall|a: int, b: int| 0 <= a < b < r@.len() implies (#[trigger] r@[a])@ != (
        #[trigger] r@[b])@ by {
            assert(texts(r@)[a] == r@[a]@ && texts(r@)[b] == r@[b]@);
        }
    }
    lemma_missing_pointwise(files);
    assert(texts(r@) == missing_relpaths(files));
    if 0 <= i < relpaths@.len() && is_kept_in_step(relpaths@[i].0@) && relpaths@[i].1 is None {
        lemma_kept_in_step(relpaths@[i].0@);
        assert(is_missing(files[i]));
        let n = choose|n: int| 0 <= n < texts(r@).len() && texts(r@)[n] == relpaths@[i].0@;
        assert(r@[n]@ == texts(r@)[n]);
    }
    if 0 <= i < r@.len() {
        assert(texts(r@)[i] == r@[i]@);
        assert(missing_relpaths(files).contains(r@[i]@));
        let m = choose|m: int|
            0 <= m < files.len() && is_missing(#[trigger] files[m]) && files[m].relpath == r@[i]@;
        assert(relpaths@[m].0@ == files[m].relpath);
        if is_name(dir) && r@[i]@ == dir.push('/') + rest {
            lemma_left_alone(r@[i]@, dir, rest);
        }
    }
}

proof fn lemma_missing_once(files: Seq<FoundFile>)
    requires
        forall|a: int, b: int|
            0 <= a < b < files.len() ==> (#[trigger] files[a]).relpath != (
            #[trigger] files[b]).relpath,
    ensures
        forall|a: int, b: int|
            0 <= a < b < missing_relpaths(files).len() ==> (#[trigger] missing_relpaths(files)[a])
                != (#[trigger] missing_relpaths(files)[b]),
        forall|p: Seq<char>| #[trigger]
            missing_relpaths(files).contains(p) ==> exists|i: int|
                0 <= i < files.len() && (#[trigger] files[i]).relpath == p,
    decreases files.len(),
{
    if files.len() > 0 {
        let q = files.drop_last();
        let all = missing_relpaths(files);
        let w = missing_relpaths(q);
        assert forall|a: int, b: int| 0 <= a < b < q.len() implies (#[trigger] q[a]).relpath != (
        #[trigger] q[b]).relpath by {
            assert(q[a] == files[a] && q[b] == files[b]);
        }
        lemma_missing_once(q);
        assert forall|p: Seq<char>| #[trigger] all.contains(p) implies exists|i: int|
            0 <= i < files.len() && (#[trigger] files[i]).relpath == p by {
            let n = choose|n: int| 0 <= n < all.len() && all[n] == p;
            if n < w.len() {
                assert(w[n] == p);
                assert(w.contains(p));
                let i = choose|i: int| 0 <= i < q.len() && (#[trigger] q[i]).relpath == p;
                assert(files[i] == q[i]);
            } else {
                assert(files[files.len() - 1].relpath == p);
            }
        }
        assert forall|a: int, b: int| 0 <= a < b < all.len() implies (#[trigger] all[a]) != (
        #[trigger] all[b]) by {
            assert(all[a] == w[a]);
            if b < w.len() {
                assert(all[b] == w[b]);
            } else {
                assert(w.contains(w[a]));
                let i = choose|i: int| 0 <= i < q.len() && (#[trigger] q[i]).relpath == w[a];
                assert(files[i] == q[i]);
                assert(files[i].relpath != files[files.len() - 1].relpath);
            }
        }
    }
}

/// The text is one of them.
pub open spec fn is_among(list: Seq<String>, text: Seq<char>) -> bool {
    exists|n: int| 0 <= n < list.len() && (#[trigger] list[n])@ == text
}

/// The path was asked for, and there is no file.
pub open spec fn was_missing(relpaths: Seq<(String, Option<u64>)>, path: Seq<char>) -> bool {
    exists|m: int|
        0 <= m < relpaths.len() && (#[trigger] relpaths[m]).0@ == path && relpaths[m].1 is None
}

proof fn lemma_missing_pointwise(files: Seq<FoundFile>)
    ensures
        forall|i: int|
            0 <= i < files.len() && is_missing(#[trigger] files[i]) ==> missing_relpaths(
                files,
            ).contains(files[i].relpath),
        forall|p: Seq<char>| #[trigger]
            missing_relpaths(files).contains(p) ==> exists|m: int|
                0 <= m < files.len() && is_missing(#[trigger] files[m]) && files[m].relpath == p,
    decreases files.len(),
{
    if files.len() > 0 {
        let q = files.drop_last();
        let f = files.last();
        let w = missing_relpaths(q);
        let all = missing_relpaths(files);
        lemma_missing_pointwise(q);
        assert forall|i: int|
            0 <= i < files.len() && is_missing(#[trigger] files[i]) implies all.contains(
            files[i].relpath,
        ) by {
            if i < q.len() {
                assert(q[i] == files[i]);
                let n = choose|n: int| 0 <= n < w.len() && w[n] == files[i].relpath;
                assert(all[n] == w[n]);
            } else {
                assert(all.last() == f.relpath);
            }
        }
        assert forall|p: Seq<char>| #[trigger] all.contains(p) implies exists|m: int|
            0 <= m < files.len() && is_missing(#[trigger] files[m]) && files[m].relpath == p by {
            let n = choose|n: int| 0 <= n < all.len() && all[n] == p;
            if n < w.len() {
                assert(w[n] == p);
                assert(w.contains(p));
                let m = choose|m: int|
                    0 <= m < q.len() && is_missing(#[trigger] q[m]) && q[m].relpath == p;
                assert(files[m] == q[m]);
            } else {
                assert(is_missing(files[files.len() - 1]));
            }
        }
    }
}

/// A manifest of chosen files has an entry for each of them that takes part, and no other,
/// and there is none unless all of them are there.
pub proof fn law_manifest_of_chosen_files<H: HashProvider>(
    repo_id: &str,
    git_sha: &str,
    cas_root: &str,
    relpaths: &Vec<(String, Option<u64>)>,
    cache: HashCache,
    hasher: &mut HashSession<H>,
    r: Result<BuiltManifest, Error>,
    i: int,
)
    requires
        call_ensures(
            build_manifest_for_relpaths::<H>,
            (repo_id, git_sha, cas_root, relpaths, cache, hasher),
            r,
        ),
    ensures
        0 <= i < relpaths@.len() && is_kept_in_step(relpaths@[i].0@) && relpaths@[i].1 is None
            ==> r is Err,
        r matches Ok(built) ==> {
            &&& 0 <= i < relpaths@.len() && is_kept_in_step(relpaths@[i].0@) ==> (
            relpaths@[i].1 matches Some(size) && has_entry(
                built.manifest.entries@,
                relpaths@[i].0@,
                size,
            ))
            &&& forall|j: int|
                0 <= j < built.manifest.entries@.len() ==> was_chosen(
                    relpaths@,
                    #[trigger] built.manifest.entries@[j],
                )
            &&& built.manifest.repo_id@ == repo_id@
            &&& built.manifest.git_sha@ == git_sha@
        },
{
    let files = requested(relpaths@);
    let calls = final(hasher).log().skip(old(hasher).log().len() as int);
    lemma_missing(files);
    if 0 <= i < relpaths@.len() && is_kept_in_step(relpaths@[i].0@) {
        lemma_kept_in_step(relpaths@[i].0@);
        if relpaths@[i].1 is None {
            assert(is_missing(files[i]));
        } else {
            assert(takes_part(files[i]));
        }
    }
    if let Ok(built) = r {
        lemma_manifest_of(
            repo_id@,
            git_sha@,
            cas_root@,
            files,
            cache@,
            call_hashes(calls),
            built,
        );
        if 0 <= i < relpaths@.len() && is_kept_in_step(relpaths@[i].0@) {
            assert(has_entry(built.manifest.entries@, files[i].relpath, files[i].size->0));
        }
        assert forall|j: int| 0 <= j < built.manifest.entries@.len() implies was_chosen(
            relpaths@,
            #[trigger] built.manifest.entries@[j],
        ) by {
            let m = choose|m: int|
                0 <= m < files.len() && takes_part(#[trigger] files[m]) && files[m].relpath
                    == built.manifest.entries@[j].relpath@ && files[m].size == Some(
                    built.manifest.entries@[j].size,
                );
            assert(relpaths@[m].0@ == files[m].relpath);
        }
    }
}

/// The entry lists a file that was asked for, with the size that it has.
pub open spec fn was_chosen(relpaths: Seq<(String, Option<u64>)>, e: ManifestEntry) -> bool {
    exists|m: int|
        0 <= m < relpaths.len() && (#[trigger] relpaths[m]).0@ == e.relpath@ && relpaths[m].1
            == Some(e.size)
}

} // verus!
