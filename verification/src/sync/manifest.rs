//! Manifests: the files of a content store with their sizes and hashes.

use vstd::prelude::*;

use crate::error::{in_context, told_text, Error};
use crate::keyed::TextMap;
use crate::order::{
    by_key, lemma_alone_with_key, lemma_by_key_lists, lemma_none_with_key, lemma_order_is_unique,
    lemma_order_keeps_once, lemma_order_lists_all, lemma_sorted_views, sorted, with_key, Ranked,
};
use crate::paths::{join, join_path};
use crate::sync::layout::{included, sync_included};
use crate::text::{
    join_texts, joined, lemma_text_le_transitive, lemma_text_lt_total, text_before, text_le, texts,
};

verus! {

/// A file of the content store.
pub struct ManifestEntry {
    pub relpath: String,
    pub size: u64,
    pub sha256: String,
}

/// A manifest entry, by view.
pub struct EntryView {
    pub relpath: Seq<char>,
    pub size: u64,
    pub sha256: Seq<char>,
}

impl View for ManifestEntry {
    type V = EntryView;

    open spec fn view(&self) -> EntryView {
        EntryView { relpath: self.relpath@, size: self.size, sha256: self.sha256@ }
    }
}

impl Clone for ManifestEntry {
    fn clone(&self) -> (r: Self)
        ensures
            r == *self,
    {
        ManifestEntry {
            relpath: self.relpath.clone(),
            size: self.size,
            sha256: self.sha256.clone(),
        }
    }
}

/// The entries by view.
pub open spec fn entry_views(s: Seq<ManifestEntry>) -> Seq<EntryView> {
    s.map_values(|e: ManifestEntry| e@)
}

/// Entries are ranked by their path.
impl Ranked for ManifestEntry {
    open spec fn leq(&self, other: &Self) -> bool {
        text_le(self.relpath@, other.relpath@)
    }

    proof fn leq_total(a: &Self, b: &Self) {
        lemma_text_lt_total(a.relpath@, b.relpath@);
    }

    proof fn leq_transitive(a: &Self, b: &Self, c: &Self) {
        lemma_text_le_transitive(a.relpath@, b.relpath@, c.relpath@);
    }

    fn not_after(&self, other: &Self) -> (r: bool) {
        !text_before(other.relpath.as_str(), self.relpath.as_str())
    }
}

/// What a push of one commit consists of.
pub struct Manifest {
    pub repo_id: String,
    pub git_sha: String,
    pub total_bytes: u64,
    pub entries: Vec<ManifestEntry>,
}

/// The sizes of entries, added up.
pub open spec fn total_size(s: Seq<EntryView>) -> nat
    decreases s.len(),
{
    if s.len() == 0 {
        0
    } else {
        total_size(s.drop_last()) + s.last().size as nat
    }
}

proof fn lemma_total_is_fold(s: Seq<ManifestEntry>)
    ensures
        total_size(entry_views(s)) == s.fold_left(0nat, |n: nat, e: ManifestEntry| n + e.size as nat),
    decreases s.len(),
{
    if s.len() > 0 {
        lemma_total_is_fold(s.drop_last());
        assert(entry_views(s).drop_last() =~= entry_views(s.drop_last()));
    }
}

/// The total does not depend on the order of the entries.
proof fn lemma_total_of_permutation(s: Seq<ManifestEntry>, t: Seq<ManifestEntry>)
    requires
        s.to_multiset() == t.to_multiset(),
    ensures
        total_size(entry_views(s)) == total_size(entry_views(t)),
{
    let f = |n: nat, e: ManifestEntry| n + e.size as nat;
    lemma_total_is_fold(s);
    lemma_total_is_fold(t);
    vstd::seq_lib::lemma_fold_left_permutation(s, t, f, 0nat);
}

/// `n`, or the largest `u64` where `n` is more.
pub open spec fn saturated(n: nat) -> u64 {
    if n <= u64::MAX {
        n as u64
    } else {
        u64::MAX
    }
}

/// What computes the hash of a file.
pub trait HashProvider {
    /// What a provider promises of its reply for a file. One that promises nothing can
    /// leave this out.
    open spec fn answers(path: Seq<char>, reply: Result<Seq<char>, Seq<char>>) -> bool {
        true
    }

    /// The hash of the file at `path`.
    fn hash_file(&mut self, path: &str) -> (r: Result<String, Error>)
        ensures
            Self::answers(path@, told_text(r)),
    ;
}

/// A file that was asked to be hashed, with the reply.
pub struct HashCall {
    pub path: Seq<char>,
    pub reply: Result<Seq<char>, Seq<char>>,
}

/// A hash provider in use, with a record of the files it was asked about.
pub struct HashSession<'a, H: HashProvider> {
    hasher: &'a mut H,
    calls: Ghost<Seq<HashCall>>,
}

impl<'a, H: HashProvider> HashSession<'a, H> {
    /// The calls made so far.
    pub closed spec fn log(&self) -> Seq<HashCall> {
        self.calls@
    }

    /// The record is true: each reply in it is one that the provider gave for that file.
    pub open spec fn is_true(&self) -> bool {
        forall|i: int|
            0 <= i < self.log().len() ==> H::answers(
                (#[trigger] self.log()[i]).path,
                self.log()[i].reply,
            )
    }

    /// A session on `hasher`, with no call made.
    pub fn new(hasher: &'a mut H) -> (r: Self)
        ensures
            r.log() == Seq::<HashCall>::empty(),
            r.is_true(),
    {
        HashSession { hasher, calls: Ghost(Seq::empty()) }
    }

    /// The hash of the file at `path`.
    pub fn hash_file(&mut self, path: &str) -> (r: Result<String, Error>)
        ensures
            H::answers(path@, told_text(r)),
            old(self).is_true() ==> final(self).is_true(),
            final(self).log() == old(self).log().push(
                HashCall { path: path@, reply: told_text(r) },
            ),
    {
        let r = self.hasher.hash_file(path);
        self.calls = Ghost(self.calls@.push(HashCall { path: path@, reply: told_text(r) }));
        proof {
            assert forall|i: int| old(self).is_true() && 0 <= i < self.log().len() implies H::answers(
                (#[trigger] self.log()[i]).path,
                self.log()[i].reply,
            ) by {
                if i < old(self).log().len() {
                    assert(self.log()[i] == old(self).log()[i]);
                }
            }
        }
        r
    }
}

/// The hash of a file of a given size, as it was computed earlier.
pub struct HashCacheEntry {
    pub size: u64,
    pub sha256: String,
}

/// A cached hash, by view.
pub struct CachedHash {
    pub size: u64,
    pub sha256: Seq<char>,
}

impl View for HashCacheEntry {
    type V = CachedHash;

    open spec fn view(&self) -> CachedHash {
        CachedHash { size: self.size, sha256: self.sha256@ }
    }
}

/// The hashes computed so far, by path.
pub struct HashCache {
    pub entries: TextMap<HashCacheEntry>,
}

impl View for HashCache {
    type V = Map<Seq<char>, CachedHash>;

    open spec fn view(&self) -> Map<Seq<char>, CachedHash> {
        self.entries@.map_values(|e: HashCacheEntry| e@)
    }
}

/// What is said of a hash cache that cannot be read.
pub open spec fn cache_corrupt_text(path: Seq<char>, cause: Seq<char>) -> Seq<char> {
    in_context("failed to parse hash cache "@ + path, cause)
}

/// The hashes computed so far, given the attempt to parse the file that they are kept in.
/// Where there is no file there are none.
pub fn load_hash_cache(path: &str, found: Option<Result<HashCache, Error>>) -> (r: Result<
    HashCache,
    Error,
>)
    ensures
        match found {
            None => r matches Ok(cache) && cache@ == Map::<Seq<char>, CachedHash>::empty(),
            Some(Ok(cache)) => r == Ok::<HashCache, Error>(cache),
            Some(Err(e)) => r matches Err(said) && said@ == cache_corrupt_text(path@, e@),
        },
{
    match found {
        None => {
            let cache = HashCache { entries: TextMap::new() };
            proof {
                assert(cache@ =~= Map::<Seq<char>, CachedHash>::empty());
            }
            Ok(cache)
        },
        Some(Ok(cache)) => Ok(cache),
        Some(Err(e)) => {
            let mut what = "failed to parse hash cache ".to_owned();
            what.append(path);
            Err(e.context(what.as_str()))
        },
    }
}

/// A path in the content store, with the size of the file that is there, if any.
pub struct CasFile {
    pub relpath: String,
    pub size: Option<u64>,
}

/// A file of the content store, by view.
pub struct FoundFile {
    pub relpath: Seq<char>,
    pub size: Option<u64>,
}

impl View for CasFile {
    type V = FoundFile;

    open spec fn view(&self) -> FoundFile {
        FoundFile { relpath: self.relpath@, size: self.size }
    }
}

/// The files by view.
pub open spec fn file_views(s: Seq<CasFile>) -> Seq<FoundFile> {
    s.map_values(|f: CasFile| f@)
}

/// The file is there and takes part in synchronisation.
pub open spec fn takes_part(f: FoundFile) -> bool {
    included(f.relpath) && f.size is Some
}

/// The hash of the file need not be computed: it is known for a file of that size.
pub open spec fn is_cached(cache: Map<Seq<char>, CachedHash>, f: FoundFile) -> bool {
    cache.contains_key(f.relpath) && Some(cache[f.relpath].size) == f.size
}

/// A manifest in the making.
pub struct Building {
    /// What is known of hashes.
    pub cache: Map<Seq<char>, CachedHash>,
    /// The entries, in the order in which the files came.
    pub entries: Seq<EntryView>,
    /// The files that had to be hashed, in order.
    pub asked: Seq<Seq<char>>,
}

/// What `files` make of `cache`, one after the other, where the files that must be hashed
/// turn out to have the hashes `replies`.
pub open spec fn building(
    cas_root: Seq<char>,
    files: Seq<FoundFile>,
    cache: Map<Seq<char>, CachedHash>,
    replies: Seq<Seq<char>>,
) -> Building
    decreases files.len(),
{
    if files.len() == 0 {
        Building { cache, entries: Seq::empty(), asked: Seq::empty() }
    } else {
        let b = building(cas_root, files.drop_last(), cache, replies);
        let f = files.last();
        if !takes_part(f) {
            b
        } else if is_cached(b.cache, f) {
            Building {
                entries: b.entries.push(
                    EntryView {
                        relpath: f.relpath,
                        size: f.size->0,
                        sha256: b.cache[f.relpath].sha256,
                    },
                ),
                ..b
            }
        } else {
            let sha256 = replies[b.asked.len() as int];
            Building {
                cache: b.cache.insert(f.relpath, CachedHash { size: f.size->0, sha256 }),
                entries: b.entries.push(
                    EntryView { relpath: f.relpath, size: f.size->0, sha256 },
                ),
                asked: b.asked.push(join(cas_root, f.relpath)),
            }
        }
    }
}

/// Only as many replies matter as files were hashed.
proof fn lemma_building_replies(
    cas_root: Seq<char>,
    files: Seq<FoundFile>,
    cache: Map<Seq<char>, CachedHash>,
    replies: Seq<Seq<char>>,
    more: Seq<Seq<char>>,
)
    requires
        replies.is_prefix_of(more),
        building(cas_root, files, cache, replies).asked.len() <= replies.len(),
    ensures
        building(cas_root, files, cache, replies) == building(cas_root, files, cache, more),
    decreases files.len(),
{
    if files.len() > 0 {
        lemma_building_replies(cas_root, files.drop_last(), cache, replies, more);
    }
}

/// The files that calls were about.
pub open spec fn call_paths(calls: Seq<HashCall>) -> Seq<Seq<char>> {
    calls.map_values(|c: HashCall| c.path)
}

/// The hashes that calls gave.
pub open spec fn call_hashes(calls: Seq<HashCall>) -> Seq<Seq<char>> {
    calls.map_values(|c: HashCall| c.reply->Ok_0)
}

/// All calls gave a hash.
pub open spec fn all_hashed(calls: Seq<HashCall>) -> bool {
    forall|i: int| 0 <= i < calls.len() ==> (#[trigger] calls[i]).reply is Ok
}

/// The calls hash what must be hashed of `files`, and all of it succeeds.
pub open spec fn hashed_through(
    cas_root: Seq<char>,
    files: Seq<FoundFile>,
    cache: Map<Seq<char>, CachedHash>,
    calls: Seq<HashCall>,
) -> bool {
    &&& all_hashed(calls)
    &&& call_paths(calls) == building(cas_root, files, cache, call_hashes(calls)).asked
}

/// The calls hash what must be hashed of `files` up to one file, and fail there with
/// `error`.
pub open spec fn hashing_failed(
    cas_root: Seq<char>,
    files: Seq<FoundFile>,
    cache: Map<Seq<char>, CachedHash>,
    calls: Seq<HashCall>,
    error: Seq<char>,
) -> bool {
    exists|n: int|
        0 <= n < files.len() && #[trigger] hashing_failed_at(
            cas_root,
            files,
            cache,
            calls,
            error,
            n,
        )
}

/// The file at which hashing failed is the one at position `n`.
pub open spec fn hashing_failed_at(
    cas_root: Seq<char>,
    files: Seq<FoundFile>,
    cache: Map<Seq<char>, CachedHash>,
    calls: Seq<HashCall>,
    error: Seq<char>,
    n: int,
) -> bool {
    let earlier = calls.drop_last();
    let b = building(cas_root, files.take(n), cache, call_hashes(earlier));
    &&& calls.len() > 0
    &&& hashed_through(cas_root, files.take(n), cache, earlier)
    &&& takes_part(files[n])
    &&& !is_cached(b.cache, files[n])
    &&& calls.last() == HashCall {
        path: join(cas_root, files[n].relpath),
        reply: Err(error),
    }
}

/// A manifest with the cache as it stands after it was built.
pub struct BuiltManifest {
    pub manifest: Manifest,
    pub cache: HashCache,
}

/// `built` is the manifest of `files`: it lists those that take part by path, and the
/// cache knows all of their hashes.
pub open spec fn manifest_of(
    repo_id: Seq<char>,
    git_sha: Seq<char>,
    b: Building,
    built: BuiltManifest,
) -> bool {
    &&& built.manifest.repo_id@ == repo_id
    &&& built.manifest.git_sha@ == git_sha
    &&& by_key(b.entries, entry_views(built.manifest.entries@), |e: EntryView| e.relpath)
    &&& built.manifest.total_bytes == saturated(total_size(b.entries))
    &&& built.manifest.total_bytes == saturated(
        total_size(entry_views(built.manifest.entries@)),
    )
    &&& built.cache@ == b.cache
}

/// Builds the manifest of `files`, which lie below `cas_root`. A file is hashed only
/// where the cache does not know the hash of a file of that size.
pub fn build_manifest_with_hasher<H: HashProvider>(
    repo_id: &str,
    git_sha: &str,
    cas_root: &str,
    files: &Vec<CasFile>,
    cache: HashCache,
    hasher: &mut HashSession<H>,
) -> (r: Result<BuiltManifest, Error>)
    ensures
        old(hasher).is_true() ==> final(hasher).is_true(),
        old(hasher).log().is_prefix_of(final(hasher).log()),
        ({
            let calls = final(hasher).log().skip(old(hasher).log().len() as int);
            let found = file_views(files@);
            match r {
                Ok(built) => {
                    &&& hashed_through(cas_root@, found, cache@, calls)
                    &&& manifest_of(
                        repo_id@,
                        git_sha@,
                        building(cas_root@, found, cache@, call_hashes(calls)),
                        built,
                    )
                },
                Err(e) => hashing_failed(cas_root@, found, cache@, calls, e@),
            }
        }),
{
    let ghost log0 = hasher.log();
    let ghost cache0 = cache@;
    let ghost found = file_views(files@);
    let mut known_hashes = cache;
    let mut entries: Vec<ManifestEntry> = Vec::new();
    let mut total_bytes: u64 = 0;
    let ghost mut calls: Seq<HashCall> = Seq::empty();
    let mut i: usize = 0;
    proof {
        assert(call_paths(calls) =~= Seq::<Seq<char>>::empty());
    }
    while i < files.len()
        invariant
            i <= files@.len(),
            found == file_views(files@),
            cache0 == cache@,
            log0 == old(hasher).log(),
            old(hasher).is_true() ==> hasher.is_true(),
            hasher.log() == log0 + calls,
            hashed_through(cas_root@, found.take(i as int), cache0, calls),
            ({
                let b = building(cas_root@, found.take(i as int), cache0, call_hashes(calls));
                &&& known_hashes@ == b.cache
                &&& entry_views(entries@) == b.entries
                &&& total_bytes == saturated(total_size(b.entries))
            }),
        decreases files@.len() - i,
    {
        let f = &files[i];
        let ghost b = building(cas_root@, found.take(i as int), cache0, call_hashes(calls));
        proof {
            assert(found.take(i + 1).drop_last() =~= found.take(i as int));
        }
        i += 1;
        let size: u64 = match f.size {
            Some(size) => size,
            None => continue ,
        };
        if !sync_included(f.relpath.as_str()) {
            continue ;
        }
        let known = match known_hashes.entries.get(f.relpath.as_str()) {
            Some(cached) => if cached.size == size {
                Some(cached.sha256.clone())
            } else {
                None
            },
            None => None,
        };
        let sha256 = match known {
            Some(sha256) => {
                sha256
            },
            None => {
                let path = join_path(cas_root, f.relpath.as_str());
                match hasher.hash_file(path.as_str()) {
                    Err(e) => {
                        proof {
                            let all = calls.push(HashCall { path: path@, reply: Err(e@) });
                            assert(all.drop_last() =~= calls);
                            assert(hasher.log().skip(log0.len() as int) =~= all);
                            assert(hashing_failed_at(cas_root@, found, cache0, all, e@, i - 1));
                        }
                        return Err(e);
                    },
                    Ok(hash) => {
                        let ghost all = calls.push(HashCall { path: path@, reply: Ok(hash@) });
                        proof {
                            assert(call_paths(all) =~= call_paths(calls).push(path@));
                            lemma_building_replies(
                                cas_root@,
                                found.take(i - 1),
                                cache0,
                                call_hashes(calls),
                                call_hashes(all),
                            );
                            calls = all;
                        }
                        let entry = HashCacheEntry { size, sha256: hash.clone() };
                        known_hashes.entries.insert(f.relpath.clone(), entry);
                        hash
                    },
                }
            },
        };
        total_bytes = total_bytes.saturating_add(size);
        let entry = ManifestEntry { relpath: f.relpath.clone(), size, sha256 };
        proof {
            assert(b.entries.push(entry@).drop_last() =~= b.entries);
        }
        entries.push(entry);
    }
    let ghost unsorted = entries@;
    let entries = sorted(entries);
    proof {
        lemma_total_of_permutation(unsorted, entries@);
        assert(found.take(found.len() as int) =~= found);
        assert(hasher.log().skip(log0.len() as int) =~= calls);
        lemma_sorted_views(
            unsorted,
            entries@,
            |e: ManifestEntry| e@,
            |e: EntryView| e.relpath,
        );
    }
    Ok(
        BuiltManifest {
            manifest: Manifest {
                repo_id: repo_id.to_owned(),
                git_sha: git_sha.to_owned(),
                total_bytes,
                entries,
            },
            cache: known_hashes,
        },
    )
}

/// The files found on a walk through the content store.
pub open spec fn walked(walk: Seq<(String, u64)>) -> Seq<FoundFile> {
    walk.map_values(|f: (String, u64)| FoundFile { relpath: f.0@, size: Some(f.1) })
}

/// The files asked for by path.
pub open spec fn requested(files: Seq<(String, Option<u64>)>) -> Seq<FoundFile> {
    files.map_values(|f: (String, Option<u64>)| FoundFile { relpath: f.0@, size: f.1 })
}

/// Builds the manifest of a whole content store, given the files that a walk through it
/// found, with their sizes.
pub fn build_manifest<H: HashProvider>(
    repo_id: &str,
    git_sha: &str,
    cas_root: &str,
    walk: &Vec<(String, u64)>,
    cache: HashCache,
    hasher: &mut HashSession<H>,
) -> (r: Result<BuiltManifest, Error>)
    ensures
        old(hasher).is_true() ==> final(hasher).is_true(),
        old(hasher).log().is_prefix_of(final(hasher).log()),
        ({
            let calls = final(hasher).log().skip(old(hasher).log().len() as int);
            let found = walked(walk@);
            match r {
                Ok(built) => {
                    &&& hashed_through(cas_root@, found, cache@, calls)
                    &&& manifest_of(
                        repo_id@,
                        git_sha@,
                        building(cas_root@, found, cache@, call_hashes(calls)),
                        built,
                    )
                },
                Err(e) => hashing_failed(cas_root@, found, cache@, calls, e@),
            }
        }),
{
    let mut files: Vec<CasFile> = Vec::new();
    let mut i: usize = 0;
    while i < walk.len()
        invariant
            i <= walk@.len(),
            file_views(files@) == walked(walk@).take(i as int),
        decreases walk@.len() - i,
    {
        let f = CasFile { relpath: walk[i].0.clone(), size: Some(walk[i].1) };
        proof {
            assert(walked(walk@).take(i + 1) =~= walked(walk@).take(i as int).push(f@));
        }
        files.push(f);
        i += 1;
    }
    proof {
        assert(file_views(files@) =~= walked(walk@));
    }
    build_manifest_with_hasher(repo_id, git_sha, cas_root, &files, cache, hasher)
}

/// The file should be there, and is not.
pub open spec fn is_missing(f: FoundFile) -> bool {
    included(f.relpath) && f.size is None
}

/// The files that should be there and are not, in their order.
pub open spec fn missing_relpaths(files: Seq<FoundFile>) -> Seq<Seq<char>>
    decreases files.len(),
{
    if files.len() == 0 {
        Seq::empty()
    } else if is_missing(files.last()) {
        missing_relpaths(files.drop_last()).push(files.last().relpath)
    } else {
        missing_relpaths(files.drop_last())
    }
}

/// Something is missing exactly where one of the files is.
pub proof fn lemma_missing(files: Seq<FoundFile>)
    ensures
        missing_relpaths(files).len() > 0 <==> exists|i: int|
            0 <= i < files.len() && is_missing(#[trigger] files[i]),
    decreases files.len(),
{
    if files.len() > 0 {
        let p = files.drop_last();
        lemma_missing(p);
        if missing_relpaths(p).len() > 0 {
            let i = choose|i: int| 0 <= i < p.len() && is_missing(#[trigger] p[i]);
            assert(is_missing(files[i]));
        }
        if is_missing(files.last()) {
            assert(is_missing(files[files.len() - 1]));
        }
        if exists|i: int| 0 <= i < files.len() && is_missing(#[trigger] files[i]) {
            let i = choose|i: int| 0 <= i < files.len() && is_missing(#[trigger] files[i]);
            if i < p.len() {
                assert(is_missing(p[i]));
            }
        }
    }
}

/// The files that take part and are not there, of those at the given paths, each with the
/// size of the file that is there.
pub fn missing_required_relpaths(relpaths: &Vec<(String, Option<u64>)>) -> (r: Vec<String>)
    ensures
        texts(r@) == missing_relpaths(requested(relpaths@)),
        r@.len() > 0 <==> exists|i: int|
            0 <= i < relpaths@.len() && included((#[trigger] relpaths@[i]).0@)
                && relpaths@[i].1 is None,
{
    let ghost files = requested(relpaths@);
    let mut out: Vec<String> = Vec::new();
    let mut i: usize = 0;
    proof {
        assert(texts(out@) =~= missing_relpaths(files.take(0)));
    }
    while i < relpaths.len()
        invariant
            i <= relpaths@.len(),
            files == requested(relpaths@),
            texts(out@) == missing_relpaths(files.take(i as int)),
        decreases relpaths@.len() - i,
    {
        let ghost before = out@;
        proof {
            assert(files.take(i + 1).drop_last() =~= files.take(i as int));
        }
        let found = &relpaths[i];
        if found.1.is_none() && sync_included(found.0.as_str()) {
            out.push(found.0.clone());
            proof {
                assert(texts(out@) =~= texts(before).push(files[i as int].relpath));
            }
        }
        i += 1;
    }
    proof {
        assert(files.take(i as int) =~= files);
        assert(texts(out@).len() == out@.len());
        lemma_missing(files);
        if out@.len() > 0 {
            let j = choose|j: int| 0 <= j < files.len() && is_missing(#[trigger] files[j]);
            assert(included(relpaths@[j].0@) && relpaths@[j].1 is None);
        }
        if exists|j: int|
            0 <= j < relpaths@.len() && included((#[trigger] relpaths@[j]).0@)
                && relpaths@[j].1 is None {
            let j = choose|j: int|
                0 <= j < relpaths@.len() && included((#[trigger] relpaths@[j]).0@)
                    && relpaths@[j].1 is None;
            assert(is_missing(files[j]));
        }
    }
    out
}

/// What is said of files that were asked for and are not there.
pub open spec fn missing_text(relpaths: Seq<Seq<char>>) -> Seq<char> {
    "missing required CAS inputs: "@ + joined(relpaths, ", "@)
}

/// The error for files that were asked for and are not there.
pub fn missing_inputs(relpaths: &Vec<String>) -> (r: Error)
    ensures
        r@ == missing_text(texts(relpaths@)),
{
    let mut m = "missing required CAS inputs: ".to_owned();
    m.append(join_texts(relpaths, ", ").as_str());
    Error::new(m)
}

/// Builds the manifest of the files at the given paths, each with the size of the file
/// that is there. A file that is asked for and takes part must be there: where one is not,
/// there is no manifest, and nothing is hashed.
pub fn build_manifest_for_relpaths<H: HashProvider>(
    repo_id: &str,
    git_sha: &str,
    cas_root: &str,
    relpaths: &Vec<(String, Option<u64>)>,
    cache: HashCache,
    hasher: &mut HashSession<H>,
) -> (r: Result<BuiltManifest, Error>)
    ensures
        old(hasher).is_true() ==> final(hasher).is_true(),
        old(hasher).log().is_prefix_of(final(hasher).log()),
        (exists|i: int|
            0 <= i < relpaths@.len() && included((#[trigger] relpaths@[i]).0@)
                && relpaths@[i].1 is None) ==> r is Err && final(hasher).log() == old(
            hasher,
        ).log(),
        ({
            let calls = final(hasher).log().skip(old(hasher).log().len() as int);
            let found = requested(relpaths@);
            let missing = missing_relpaths(found);
            if missing.len() > 0 {
                r matches Err(e) && e@ == missing_text(missing)
            } else {
                match r {
                    Ok(built) => {
                        &&& hashed_through(cas_root@, found, cache@, calls)
                        &&& manifest_of(
                            repo_id@,
                            git_sha@,
                            building(cas_root@, found, cache@, call_hashes(calls)),
                            built,
                        )
                    },
                    Err(e) => hashing_failed(cas_root@, found, cache@, calls, e@),
                }
            }
        }),
{
    let missing = missing_required_relpaths(relpaths);
    proof {
        assert(texts(missing@).len() == missing@.len());
    }
    if missing.len() > 0 {
        return Err(missing_inputs(&missing));
    }
    let mut files: Vec<CasFile> = Vec::new();
    let mut i: usize = 0;
    while i < relpaths.len()
        invariant
            i <= relpaths@.len(),
            file_views(files@) == requested(relpaths@).take(i as int),
        decreases relpaths@.len() - i,
    {
        let f = CasFile { relpath: relpaths[i].0.clone(), size: relpaths[i].1 };
        proof {
            assert(requested(relpaths@).take(i + 1) =~= requested(relpaths@).take(i as int).push(
                f@,
            ));
        }
        files.push(f);
        i += 1;
    }
    proof {
        assert(file_views(files@) =~= requested(relpaths@));
    }
    build_manifest_with_hasher(repo_id, git_sha, cas_root, &files, cache, hasher)
}

/// A manifest lists the files that take part, with their sizes, and no others.
pub proof fn lemma_manifest_lists_what_takes_part(
    cas_root: Seq<char>,
    files: Seq<FoundFile>,
    cache: Map<Seq<char>, CachedHash>,
    replies: Seq<Seq<char>>,
)
    ensures
        ({
            let entries = building(cas_root, files, cache, replies).entries;
            let listed = files.filter(|f: FoundFile| takes_part(f));
            &&& entries.len() == listed.len()
            &&& forall|i: int|
                0 <= i < entries.len() ==> (#[trigger] entries[i]).relpath == listed[i].relpath
                    && Some(entries[i].size) == listed[i].size
        }),
    decreases files.len(),
{
    reveal(Seq::filter);
    if files.len() > 0 {
        lemma_manifest_lists_what_takes_part(cas_root, files.drop_last(), cache, replies);
    }
}

/// After a manifest was built, the cache holds the hash of every file that takes part,
/// and it is the one that the manifest gives.
pub proof fn lemma_cache_knows_all(
    cas_root: Seq<char>,
    files: Seq<FoundFile>,
    cache: Map<Seq<char>, CachedHash>,
    replies: Seq<Seq<char>>,
)
    requires
        forall|i: int, j: int|
            #![trigger files[i], files[j]]
            0 <= i < files.len() && 0 <= j < files.len() && takes_part(files[i]) && takes_part(
                files[j],
            ) && files[i].relpath == files[j].relpath ==> files[i].size == files[j].size,
    ensures
        ({
            let b = building(cas_root, files, cache, replies);
            &&& forall|i: int|
                0 <= i < files.len() && takes_part(#[trigger] files[i]) ==> is_cached(
                    b.cache,
                    files[i],
                )
            &&& forall|i: int|
                0 <= i < b.entries.len() ==> b.cache.contains_key((#[trigger] b.entries[i]).relpath)
                    && b.cache[b.entries[i].relpath] == (CachedHash {
                    size: b.entries[i].size,
                    sha256: b.entries[i].sha256,
                })
        }),
    decreases files.len(),
{
    if files.len() > 0 {
        let p = files.drop_last();
        let f = files.last();
        lemma_cache_knows_all(cas_root, p, cache, replies);
        let bp = building(cas_root, p, cache, replies);
        let b = building(cas_root, files, cache, replies);
        assert forall|i: int| 0 <= i < files.len() && takes_part(#[trigger] files[i]) implies is_cached(
            b.cache,
            files[i],
        ) by {
            if i < p.len() {
                assert(p[i] == files[i]);
            }
        }
        if takes_part(f) && !is_cached(bp.cache, f) {
            assert forall|i: int| 0 <= i < bp.entries.len() implies (#[trigger] bp.entries[i]).relpath
                != f.relpath by {
                if bp.entries[i].relpath == f.relpath {
                    lemma_listed_was_found(cas_root, p, cache, replies, i);
                }
            }
        }
    }
}

/// What a manifest lists was found.
pub proof fn lemma_listed_was_found(
    cas_root: Seq<char>,
    files: Seq<FoundFile>,
    cache: Map<Seq<char>, CachedHash>,
    replies: Seq<Seq<char>>,
    i: int,
)
    requires
        0 <= i < building(cas_root, files, cache, replies).entries.len(),
    ensures
        exists|j: int|
            0 <= j < files.len() && takes_part(files[j]) && (#[trigger] files[j]).relpath
                == building(cas_root, files, cache, replies).entries[i].relpath && files[j].size
                == Some(building(cas_root, files, cache, replies).entries[i].size),
    decreases files.len(),
{
    if files.len() > 0 {
        let p = files.drop_last();
        let bp = building(cas_root, p, cache, replies);
        if i < bp.entries.len() {
            lemma_listed_was_found(cas_root, p, cache, replies, i);
        }
    }
}

/// Building the manifest of the same files again, with the cache that the first time
/// left, hashes nothing and changes nothing.
pub proof fn lemma_rebuilding_reuses_hashes(
    cas_root: Seq<char>,
    files: Seq<FoundFile>,
    cache: Map<Seq<char>, CachedHash>,
    replies: Seq<Seq<char>>,
    replies_again: Seq<Seq<char>>,
)
    requires
        forall|i: int, j: int|
            #![trigger files[i], files[j]]
            0 <= i < files.len() && 0 <= j < files.len() && takes_part(files[i]) && takes_part(
                files[j],
            ) && files[i].relpath == files[j].relpath ==> files[i].size == files[j].size,
    ensures
        ({
            let b = building(cas_root, files, cache, replies);
            building(cas_root, files, b.cache, replies_again) == (Building {
                asked: Seq::empty(),
                ..b
            })
        }),
{
    let b = building(cas_root, files, cache, replies);
    lemma_cache_knows_all(cas_root, files, cache, replies);
    lemma_all_cached(cas_root, files, b.cache, replies_again);
    lemma_manifest_lists_what_takes_part(cas_root, files, cache, replies);
    lemma_manifest_lists_what_takes_part(cas_root, files, b.cache, replies_again);
    let again = building(cas_root, files, b.cache, replies_again);
    assert(again.entries =~= b.entries);
}

/// No two files lie at the same path.
pub open spec fn distinct_files(files: Seq<FoundFile>) -> bool {
    forall|i: int, j: int|
        #![trigger files[i], files[j]]
        0 <= i < files.len() && 0 <= j < files.len() && files[i].relpath == files[j].relpath ==> i
            == j
}

/// The paths of the files that take part in synchronisation where they are there.
pub open spec fn wanted_relpaths(files: Seq<FoundFile>) -> Seq<Seq<char>>
    decreases files.len(),
{
    if files.len() == 0 {
        Seq::empty()
    } else if included(files.last().relpath) {
        wanted_relpaths(files.drop_last()).push(files.last().relpath)
    } else {
        wanted_relpaths(files.drop_last())
    }
}

/// The paths that entries list.
pub open spec fn listed_relpaths(entries: Seq<EntryView>) -> Seq<Seq<char>> {
    entries.map_values(|e: EntryView| e.relpath)
}

/// The manifest of the files that a whole manifest lists, asked for in any order, is that
/// manifest: with the files as they were and the hashes kept, nothing is missing, nothing
/// is hashed, nothing fails, and head, entries and total are the same. Paths that take no
/// part may be asked for besides; they change nothing.
pub proof fn lemma_asking_for_everything_gives_everything(
    repo_id: Seq<char>,
    git_sha: Seq<char>,
    cas_root: Seq<char>,
    files: Seq<FoundFile>,
    cache: Map<Seq<char>, CachedHash>,
    replies: Seq<Seq<char>>,
    whole: BuiltManifest,
    asked: Seq<FoundFile>,
    replies_again: Seq<Seq<char>>,
    again: BuiltManifest,
)
    requires
        distinct_files(files),
        manifest_of(repo_id, git_sha, building(cas_root, files, cache, replies), whole),
        wanted_relpaths(asked).to_multiset() == listed_relpaths(
            entry_views(whole.manifest.entries@),
        ).to_multiset(),
        forall|i: int|
            0 <= i < asked.len() && included((#[trigger] asked[i]).relpath) ==> files.contains(
                asked[i],
            ),
        manifest_of(
            repo_id,
            git_sha,
            building(cas_root, asked, whole.cache@, replies_again),
            again,
        ),
    ensures
        missing_relpaths(asked).len() == 0,
        building(cas_root, asked, whole.cache@, replies_again).asked.len() == 0,
        forall|calls: Seq<HashCall>, e: Seq<char>|
            !(#[trigger] hashing_failed(cas_root, asked, whole.cache@, calls, e)),
        again.manifest.repo_id@ == whole.manifest.repo_id@,
        again.manifest.git_sha@ == whole.manifest.git_sha@,
        again.manifest.total_bytes == whole.manifest.total_bytes,
        entry_views(again.manifest.entries@) == entry_views(whole.manifest.entries@),
        again.cache@ == whole.cache@,
{
    let b = building(cas_root, files, cache, replies);
    let c = building(cas_root, asked, b.cache, replies_again);
    let key = |e: EntryView| e.relpath;
    let all = entry_views(whole.manifest.entries@);
    let some = entry_views(again.manifest.entries@);
    lemma_cache_knows_all(cas_root, files, cache, replies);
    lemma_listed_once(cas_root, files, cache, replies);
    lemma_wanted(asked);
    lemma_order_keeps_once(b.entries, all, key);
    assert(listed_relpaths(all).no_duplicates());
    listed_relpaths(all).lemma_multiset_has_no_duplicates();
    wanted_relpaths(asked).lemma_multiset_has_no_duplicates_conv();
    assert forall|p: Seq<char>| #[trigger] wanted_relpaths(asked).contains(p) <==> listed_relpaths(
        all,
    ).contains(p) by {
        wanted_relpaths(asked).to_multiset_ensures();
        listed_relpaths(all).to_multiset_ensures();
        assert(wanted_relpaths(asked).contains(p) <==> wanted_relpaths(asked).to_multiset().contains(p));
        assert(listed_relpaths(all).contains(p) <==> listed_relpaths(all).to_multiset().contains(p));
    }
    assert forall|i: int| 0 <= i < asked.len() && included((#[trigger] asked[i]).relpath) implies takes_part(
        asked[i],
    ) && is_cached(b.cache, asked[i]) by {
        let p = asked[i].relpath;
        assert(wanted_relpaths(asked).contains(p));
        assert(listed_relpaths(all).contains(p));
        let n = choose|n: int| 0 <= n < listed_relpaths(all).len() && listed_relpaths(all)[n] == p;
        lemma_by_key_lists(b.entries, all, key, n);
        let m = choose|m: int| 0 <= m < b.entries.len() && b.entries[m] == all[n];
        lemma_listed_was_found(cas_root, files, cache, replies, m);
        let j = choose|j: int|
            0 <= j < files.len() && takes_part(files[j]) && (#[trigger] files[j]).relpath
                == b.entries[m].relpath && files[j].size == Some(b.entries[m].size);
        let l = choose|l: int| 0 <= l < files.len() && files[l] == asked[i];
        assert(files[l].relpath == files[j].relpath);
    }
    lemma_missing(asked);
    lemma_all_cached(cas_root, asked, b.cache, replies_again);
    lemma_listed_once(cas_root, asked, b.cache, replies_again);
    assert forall|calls: Seq<HashCall>, e: Seq<char>| !(#[trigger] hashing_failed(
        cas_root,
        asked,
        b.cache,
        calls,
        e,
    )) by {
        if hashing_failed(cas_root, asked, b.cache, calls, e) {
            let n = choose|n: int|
                0 <= n < asked.len() && #[trigger] hashing_failed_at(
                    cas_root,
                    asked,
                    b.cache,
                    calls,
                    e,
                    n,
                );
            lemma_all_cached(cas_root, asked.take(n), b.cache, call_hashes(calls.drop_last()));
        }
    }
    assert forall|k: Seq<char>| #[trigger] with_key(c.entries, key, k) == with_key(
        b.entries,
        key,
        k,
    ) by {
        if listed_relpaths(all).contains(k) {
            let n = choose|n: int|
                0 <= n < listed_relpaths(all).len() && listed_relpaths(all)[n] == k;
            lemma_by_key_lists(b.entries, all, key, n);
            let m = choose|m: int| 0 <= m < b.entries.len() && b.entries[m] == all[n];
            assert(wanted_relpaths(asked).contains(k));
            let i = choose|i: int|
                0 <= i < asked.len() && included((#[trigger] asked[i]).relpath)
                    && asked[i].relpath == k;
            lemma_found_is_listed(cas_root, asked, b.cache, replies_again, i);
            let l = choose|l: int|
                0 <= l < c.entries.len() && (#[trigger] c.entries[l]).relpath == k;
            lemma_listed_was_found(cas_root, asked, b.cache, replies_again, l);
            assert(c.entries[l] == b.entries[m]);
            lemma_alone_with_key(c.entries, key, l);
            lemma_alone_with_key(b.entries, key, m);
        } else {
            assert forall|x: EntryView| b.entries.contains(x) implies key(x) != k by {
                if key(x) == k {
                    lemma_order_lists_all(b.entries, all, key, x);
                    let n = choose|n: int| 0 <= n < all.len() && all[n] == x;
                    assert(listed_relpaths(all)[n] == k);
                }
            }
            assert forall|x: EntryView| c.entries.contains(x) implies key(x) != k by {
                let l = choose|l: int| 0 <= l < c.entries.len() && c.entries[l] == x;
                lemma_listed_was_found(cas_root, asked, b.cache, replies_again, l);
                if key(x) == k {
                    assert(wanted_relpaths(asked).contains(k));
                }
            }
            lemma_none_with_key(b.entries, key, k);
            lemma_none_with_key(c.entries, key, k);
        }
    }
    assert forall|k: Seq<char>| #[trigger] with_key(all, key, k) == with_key(some, key, k) by {
        assert(with_key(all, key, k) == with_key(b.entries, key, k));
        assert(with_key(some, key, k) == with_key(c.entries, key, k));
    }
    assert forall|k: Seq<char>| #[trigger] with_key(some, key, k) == with_key(all, key, k) by {
        assert(with_key(all, key, k) == with_key(some, key, k));
    }
    assert(by_key(all, some, key));
    assert(by_key(some, all, key));
    lemma_order_is_unique(all, some, key);
}

/// Which paths are wanted, and that each is wanted once where none comes twice.
proof fn lemma_wanted(files: Seq<FoundFile>)
    ensures
        forall|p: Seq<char>| #[trigger]
            wanted_relpaths(files).contains(p) <==> exists|i: int|
                0 <= i < files.len() && included((#[trigger] files[i]).relpath)
                    && files[i].relpath == p,
        wanted_relpaths(files).no_duplicates() ==> wanted_once(files),
    decreases files.len(),
{
    if files.len() > 0 {
        let q = files.drop_last();
        let f = files.last();
        let w = wanted_relpaths(q);
        lemma_wanted(q);
        assert forall|p: Seq<char>| #[trigger] wanted_relpaths(files).contains(p) <==> exists|i: int|
            0 <= i < files.len() && included((#[trigger] files[i]).relpath) && files[i].relpath
                == p by {
            if wanted_relpaths(files).contains(p) {
                let n = choose|n: int|
                    0 <= n < wanted_relpaths(files).len() && wanted_relpaths(files)[n] == p;
                if n < w.len() {
                    assert(w.contains(w[n]));
                    let i = choose|i: int|
                        0 <= i < q.len() && included((#[trigger] q[i]).relpath) && q[i].relpath
                            == p;
                    assert(files[i] == q[i]);
                } else {
                    assert(files[files.len() - 1].relpath == p);
                }
            }
            if exists|i: int|
                0 <= i < files.len() && included((#[trigger] files[i]).relpath)
                    && files[i].relpath == p {
                let i = choose|i: int|
                    0 <= i < files.len() && included((#[trigger] files[i]).relpath)
                        && files[i].relpath == p;
                if i < q.len() {
                    assert(q[i] == files[i]);
                    assert(w.contains(p));
                    let n = choose|n: int| 0 <= n < w.len() && w[n] == p;
                    assert(wanted_relpaths(files)[n] == p);
                } else {
                    assert(wanted_relpaths(files).last() == p);
                }
            }
        }
        if wanted_relpaths(files).no_duplicates() {
            assert(w.no_duplicates()) by {
                assert forall|i: int, j: int| 0 <= i < w.len() && 0 <= j < w.len() && i != j implies w[i]
                    != w[j] by {
                    assert(wanted_relpaths(files)[i] == w[i]);
                    assert(wanted_relpaths(files)[j] == w[j]);
                }
            }
            assert forall|i: int, j: int|
                #![trigger files[i], files[j]]
                0 <= i < j < files.len() && included(files[i].relpath) && included(
                    files[j].relpath,
                ) implies files[i].relpath != files[j].relpath by {
                assert(files[i] == q[i]);
                if j < q.len() {
                    assert(files[j] == q[j]);
                } else {
                    assert(w.contains(files[i].relpath));
                    let n = choose|n: int| 0 <= n < w.len() && w[n] == files[i].relpath;
                    assert(wanted_relpaths(files)[n] == w[n]);
                    assert(wanted_relpaths(files)[w.len() as int] == f.relpath);
                }
            }
        }
    }
}

/// No path that takes part comes twice.
pub open spec fn wanted_once(files: Seq<FoundFile>) -> bool {
    forall|i: int, j: int|
        #![trigger files[i], files[j]]
        0 <= i < j < files.len() && included(files[i].relpath) && included(files[j].relpath)
            ==> files[i].relpath != files[j].relpath
}

/// A path that does not come twice is not listed twice.
pub proof fn lemma_listed_once(
    cas_root: Seq<char>,
    files: Seq<FoundFile>,
    cache: Map<Seq<char>, CachedHash>,
    replies: Seq<Seq<char>>,
)
    requires
        wanted_once(files),
    ensures
        ({
            let entries = building(cas_root, files, cache, replies).entries;
            forall|i: int, j: int|
                #![trigger entries[i], entries[j]]
                0 <= i < j < entries.len() ==> entries[i].relpath != entries[j].relpath
        }),
    decreases files.len(),
{
    if files.len() > 0 {
        let p = files.drop_last();
        lemma_listed_once(cas_root, p, cache, replies);
        let bp = building(cas_root, p, cache, replies);
        if takes_part(files.last()) {
            assert forall|i: int| 0 <= i < bp.entries.len() implies (#[trigger] bp.entries[i]).relpath
                != files.last().relpath by {
                lemma_listed_was_found(cas_root, p, cache, replies, i);
                let j = choose|j: int|
                    0 <= j < p.len() && takes_part(p[j]) && (#[trigger] p[j]).relpath
                        == bp.entries[i].relpath && p[j].size == Some(bp.entries[i].size);
                assert(files[j] == p[j]);
                assert(files[files.len() - 1].relpath != files[j].relpath);
            }
        }
    }
}

/// What takes part is listed.
pub proof fn lemma_found_is_listed(
    cas_root: Seq<char>,
    files: Seq<FoundFile>,
    cache: Map<Seq<char>, CachedHash>,
    replies: Seq<Seq<char>>,
    i: int,
)
    requires
        0 <= i < files.len(),
        takes_part(files[i]),
    ensures
        ({
            let entries = building(cas_root, files, cache, replies).entries;
            exists|l: int|
                0 <= l < entries.len() && (#[trigger] entries[l]).relpath == files[i].relpath
                    && Some(entries[l].size) == files[i].size
        }),
    decreases files.len(),
{
    let p = files.drop_last();
    let bp = building(cas_root, p, cache, replies);
    let entries = building(cas_root, files, cache, replies).entries;
    if i < p.len() {
        lemma_found_is_listed(cas_root, p, cache, replies, i);
        let l = choose|l: int|
            0 <= l < bp.entries.len() && (#[trigger] bp.entries[l]).relpath == files[i].relpath
                && Some(bp.entries[l].size) == files[i].size;
        assert(entries[l] == bp.entries[l]);
    } else {
        assert(entries[entries.len() - 1].relpath == files[i].relpath);
    }
}

/// With all hashes cached, nothing is hashed and the entries carry the cached hashes.
proof fn lemma_all_cached(
    cas_root: Seq<char>,
    files: Seq<FoundFile>,
    cache: Map<Seq<char>, CachedHash>,
    replies: Seq<Seq<char>>,
)
    requires
        forall|i: int|
            0 <= i < files.len() && takes_part(#[trigger] files[i]) ==> is_cached(cache, files[i]),
    ensures
        ({
            let b = building(cas_root, files, cache, replies);
            &&& b.cache == cache
            &&& b.asked == Seq::<Seq<char>>::empty()
            &&& forall|i: int|
                0 <= i < b.entries.len() ==> (#[trigger] b.entries[i]).sha256
                    == cache[b.entries[i].relpath].sha256
        }),
    decreases files.len(),
{
    if files.len() > 0 {
        let p = files.drop_last();
        lemma_all_cached(cas_root, p, cache, replies);
    }
}

} // verus!
