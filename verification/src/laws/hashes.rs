//! Laws of hashing: what becomes of the hashes that a manifest is built with, and what becomes
//! of a file that cannot be hashed.

use vstd::prelude::*;

use crate::error::Error;
use crate::order::lemma_by_key_lists;
use crate::sync::manifest::{
    build_manifest, build_manifest_for_relpaths, building, call_hashes, entry_views,
    hashing_failed_at, lemma_listed_once, missing_required_relpaths, requested, walked,
    BuiltManifest, CachedHash, EntryView, FoundFile, HashCache, HashCall, HashProvider, HashSession,
};
use crate::text::{joined, texts};

verus! {

/// No path comes twice.
pub open spec fn each_once(walk: Seq<(String, u64)>) -> bool {
    forall|i: int, j: int|
        0 <= i < j < walk.len() ==> (#[trigger] walk[i]).0@ != (#[trigger] walk[j]).0@
}

proof fn lemma_building_cache(
    root: Seq<char>,
    files: Seq<FoundFile>,
    cache: Map<Seq<char>, CachedHash>,
    replies: Seq<Seq<char>>,
)
    requires
        forall|i: int, j: int|
            0 <= i < j < files.len() ==> (#[trigger] files[i]).relpath != (
            #[trigger] files[j]).relpath,
    ensures
        ({
            let b = building(root, files, cache, replies);
            &&& forall|j: int|
                0 <= j < b.entries.len() ==> b.cache.contains_key(
                    (#[trigger] b.entries[j]).relpath,
                ) && b.cache[b.entries[j].relpath] == (CachedHash {
                    size: b.entries[j].size,
                    sha256: b.entries[j].sha256,
                }) && exists|i: int|
                    0 <= i < files.len() && (#[trigger] files[i]).relpath == b.entries[j].relpath
            &&& forall|p: Seq<char>|
                (forall|i: int| 0 <= i < files.len() ==> (#[trigger] files[i]).relpath != p) ==> (
                #[trigger] b.cache.contains_key(p) <==> cache.contains_key(p)) && (
                cache.contains_key(p) ==> b.cache[p] == cache[p])
        }),
    decreases files.len(),
{
    if files.len() > 0 {
        let q = files.drop_last();
        let f = files.last();
        let b = building(root, files, cache, replies);
        let bq = building(root, q, cache, replies);
        assert forall|i: int, j: int| 0 <= i < j < q.len() implies (#[trigger] q[i]).relpath != (
        #[trigger] q[j]).relpath by {
            assert(q[i] == files[i] && q[j] == files[j]);
        }
        lemma_building_cache(root, q, cache, replies);
        assert forall|j: int| 0 <= j < b.entries.len() implies b.cache.contains_key(
            (#[trigger] b.entries[j]).relpath,
        ) && b.cache[b.entries[j].relpath] == (CachedHash {
            size: b.entries[j].size,
            sha256: b.entries[j].sha256,
        }) && exists|i: int|
            0 <= i < files.len() && (#[trigger] files[i]).relpath == b.entries[j].relpath by {
            if j < bq.entries.len() {
                assert(b.entries[j] == bq.entries[j]);
                let i = choose|i: int|
                    0 <= i < q.len() && (#[trigger] q[i]).relpath == bq.entries[j].relpath;
                assert(files[i] == q[i]);
                assert(files[i].relpath != files[files.len() - 1].relpath);
            } else {
                assert(files[files.len() - 1].relpath == b.entries[j].relpath);
            }
        }
        assert forall|p: Seq<char>|
            (forall|i: int| 0 <= i < files.len() ==> (#[trigger] files[i]).relpath != p) implies (
        #[trigger] b.cache.contains_key(p) <==> cache.contains_key(p)) && (cache.contains_key(p)
            ==> b.cache[p] == cache[p]) by {
            assert forall|i: int| 0 <= i < q.len() implies (#[trigger] q[i]).relpath != p by {
                assert(files[i] == q[i]);
            }
            assert(files[files.len() - 1].relpath != p);
            assert(bq.cache.contains_key(p) <==> cache.contains_key(p));
        }
    }
}

/// Where no file comes twice, no entry does either, every hash that the manifest gives is
/// remembered with the size of its file, and what was remembered of other files still is.
pub proof fn law_hashes_are_remembered<H: HashProvider>(
    repo_id: &str,
    git_sha: &str,
    cas_root: &str,
    walk: &Vec<(String, u64)>,
    cache: HashCache,
    hasher: &mut HashSession<H>,
    built: BuiltManifest,
    i: int,
    j: int,
    p: Seq<char>,
)
    requires
        call_ensures(
            build_manifest::<H>,
            (repo_id, git_sha, cas_root, walk, cache, hasher),
            Ok::<BuiltManifest, Error>(built),
        ),
        each_once(walk@),
    ensures
        ({
            let entries = built.manifest.entries@;
            &&& 0 <= i < j < entries.len() ==> entries[i].relpath@ != entries[j].relpath@
            &&& 0 <= i < entries.len() ==> built.cache@.contains_key(entries[i].relpath@)
                && built.cache@[entries[i].relpath@].size == entries[i].size
                && built.cache@[entries[i].relpath@].sha256 == entries[i].sha256@
            &&& (forall|n: int| 0 <= n < walk@.len() ==> (#[trigger] walk@[n]).0@ != p) ==> {
                &&& built.cache@.contains_key(p) <==> cache@.contains_key(p)
                &&& cache@.contains_key(p) ==> built.cache@[p] == cache@[p]
            }
        }),
{
    let calls = final(hasher).log().skip(old(hasher).log().len() as int);
    let files = walked(walk@);
    let b = building(cas_root@, files, cache@, call_hashes(calls));
    let entries = built.manifest.entries@;
    let out = entry_views(entries);
    let key = |e: EntryView| e.relpath;
    assert forall|a: int, c: int| 0 <= a < c < files.len() implies (#[trigger] files[a]).relpath != (
    #[trigger] files[c]).relpath by {
        assert(files[a].relpath == walk@[a].0@ && files[c].relpath == walk@[c].0@);
    }
    lemma_building_cache(cas_root@, files, cache@, call_hashes(calls));
    lemma_listed_once(cas_root@, files, cache@, call_hashes(calls));
    if 0 <= i < entries.len() {
        lemma_by_key_lists(b.entries, out, key, i);
        assert(out[i] == entries[i]@);
        let n = choose|n: int| 0 <= n < b.entries.len() && b.entries[n] == out[i];
        assert(b.entries[n].relpath == entries[i].relpath@);
    }
    if 0 <= i < j < entries.len() {
        lemma_no_key_twice(b.entries, out, i, j);
        assert(out[i] == entries[i]@ && out[j] == entries[j]@);
    }
    if forall|n: int| 0 <= n < walk@.len() ==> (#[trigger] walk@[n]).0@ != p {
        assert forall|n: int| 0 <= n < files.len() implies (#[trigger] files[n]).relpath != p by {
            assert(files[n].relpath == walk@[n].0@);
        }
        assert(b.cache.contains_key(p) <==> cache@.contains_key(p));
    }
}

proof fn lemma_no_key_twice(s: Seq<EntryView>, out: Seq<EntryView>, i: int, j: int)
    requires
        crate::order::by_key(s, out, |e: EntryView| e.relpath),
        forall|a: int, c: int|
            #![trigger s[a], s[c]]
            0 <= a < c < s.len() ==> s[a].relpath != s[c].relpath,
        0 <= i < j < out.len(),
    ensures
        out[i].relpath != out[j].relpath,
{
    let key = |e: EntryView| e.relpath;
    if out[i].relpath == out[j].relpath {
        lemma_by_key_lists(s, out, key, i);
        let n = choose|n: int| 0 <= n < s.len() && s[n] == out[i];
        let k = out[i].relpath;
        assert forall|m: int| 0 <= m < s.len() && m != n implies key(#[trigger] s[m]) != key(
            s[n],
        ) by {
            if m < n {
                assert(s[m].relpath != s[n].relpath);
            } else {
                assert(s[n].relpath != s[m].relpath);
            }
        }
        crate::order::lemma_alone_with_key(s, key, n);
        assert(crate::order::with_key(out, key, k) == crate::order::with_key(s, key, k));
        lemma_two_with_key(out, key, i, j);
    }
}

proof fn lemma_two_with_key(s: Seq<EntryView>, key: spec_fn(EntryView) -> Seq<char>, i: int, j: int)
    requires
        0 <= i < j < s.len(),
        key(s[i]) == key(s[j]),
    ensures
        crate::order::with_key(s, key, key(s[i])).len() >= 2,
{
    let pred = |x: EntryView| key(x) == key(s[i]);
    let a = s.take(i + 1);
    let b = s.skip(i + 1);
    assert(s =~= a + b);
    Seq::filter_distributes_over_add(a, b, pred);
    assert(a[i] == s[i] && b[j - i - 1] == s[j]);
    lemma_filter_keeps(a, pred, i);
    lemma_filter_keeps(b, pred, j - i - 1);
}

proof fn lemma_filter_keeps(s: Seq<EntryView>, pred: spec_fn(EntryView) -> bool, i: int)
    requires
        0 <= i < s.len(),
        pred(s[i]),
    ensures
        s.filter(pred).len() >= 1,
    decreases s.len(),
{
    reveal(Seq::filter);
    if i < s.len() - 1 {
        assert(s.drop_last()[i] == s[i]);
        lemma_filter_keeps(s.drop_last(), pred, i);
    }
}

/// The last file that was to be hashed could not be, for this reason, and those before could.
pub open spec fn last_hash_failed(calls: Seq<HashCall>, why: Seq<char>) -> bool {
    &&& calls.len() > 0
    &&& calls.last().reply == Err::<Seq<char>, Seq<char>>(why)
    &&& forall|n: int| 0 <= n < calls.len() - 1 ==> (#[trigger] calls[n]).reply is Ok
}

/// Building a manifest fails only where a file cannot be hashed, and with that error. Of
/// chosen files it fails, before anything is hashed, also where one that takes part is
/// missing, and then names all that are.
pub proof fn law_building_fails<H: HashProvider>(
    repo_id: &str,
    git_sha: &str,
    cas_root: &str,
    walk: &Vec<(String, u64)>,
    cache: HashCache,
    hasher: &mut HashSession<H>,
    r: Result<BuiltManifest, Error>,
    relpaths: &Vec<(String, Option<u64>)>,
    hasher2: &mut HashSession<H>,
    r2: Result<BuiltManifest, Error>,
    missing: Vec<String>,
)
    requires
        call_ensures(
            build_manifest::<H>,
            (repo_id, git_sha, cas_root, walk, cache, hasher),
            r,
        ),
        call_ensures(
            build_manifest_for_relpaths::<H>,
            (repo_id, git_sha, cas_root, relpaths, cache, hasher2),
            r2,
        ),
        call_ensures(missing_required_relpaths, (relpaths,), missing),
    ensures
        ({
            let calls = final(hasher).log().skip(old(hasher).log().len() as int);
            let calls2 = final(hasher2).log().skip(old(hasher2).log().len() as int);
            &&& r matches Err(e) ==> last_hash_failed(calls, e@)
            &&& r is Ok ==> forall|n: int| 0 <= n < calls.len() ==> (#[trigger] calls[n]).reply is Ok
            &&& missing@.len() > 0 ==> calls2.len() == 0 && (r2 matches Err(e) && e@
                == "missing required CAS inputs: "@ + joined(texts(missing@), ", "@))
            &&& missing@.len() == 0 ==> (r2 matches Err(e) ==> last_hash_failed(calls2, e@))
        }),
{
    let calls = final(hasher).log().skip(old(hasher).log().len() as int);
    let calls2 = final(hasher2).log().skip(old(hasher2).log().len() as int);
    assert(texts(missing@).len() == missing@.len());
    if let Err(e) = r {
        let n = choose|n: int|
            0 <= n < walked(walk@).len() && #[trigger] hashing_failed_at(
                cas_root@,
                walked(walk@),
                cache@,
                calls,
                e@,
                n,
            );
        assert forall|k: int| 0 <= k < calls.len() - 1 implies (#[trigger] calls[k]).reply is Ok by {
            assert(calls.drop_last()[k] == calls[k]);
        }
    }
    if missing@.len() == 0 {
        if let Err(e) = r2 {
            let files = requested(relpaths@);
            let n = choose|n: int|
                0 <= n < files.len() && #[trigger] hashing_failed_at(
                    cas_root@,
                    files,
                    cache@,
                    calls2,
                    e@,
                    n,
                );
            assert forall|k: int| 0 <= k < calls2.len() - 1 implies (
            #[trigger] calls2[k]).reply is Ok by {
                assert(calls2.drop_last()[k] == calls2[k]);
            }
        }
    }
}

} // verus!
