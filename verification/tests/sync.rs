use std::cell::RefCell;
use std::collections::BTreeMap;

use xet_ai::error::Error;
use xet_ai::files::{
    atomic_write_bytes, atomic_write_string, copy_file_atomic, FileReply, FileRequest, Step,
};
use xet_ai::hash::sha256_file;
use xet_ai::keyed::TextMap;
use xet_ai::remote::{
    FilesystemRemoteStore, RemoteCapabilities, RemoteSession, RemoteStat, RemoteStore,
};
use xet_ai::sync::fetch::{copy_remote_to_local_atomic_verified, pull_from_manifest_store};
use xet_ai::sync::layout::{describe_cas_tree, sync_included};
use xet_ai::sync::local::copy_file_atomic_verified;
use xet_ai::sync::lock::{acquire_push_lock, LockReply, LockRequest, LockStep, PushLockGuard};
use xet_ai::sync::manifest::{
    build_manifest, build_manifest_for_relpaths, build_manifest_with_hasher, load_hash_cache,
    missing_required_relpaths, CasFile, HashCache, HashCacheEntry, HashProvider, HashSession, Manifest,
    ManifestEntry,
};
use xet_ai::sync::refs::{
    cache_manifest, is_sha1_hex, list_remote_refs, read_head, read_manifest, ref_file,
    resolve_ref_or_sha, write_head_atomic, write_manifest_atomic,
};
use xet_ai::sync::runs::{pull_from_manifest, push_with_manifest, verify_manifest_local};
use xet_ai::sync::transfer::{
    copy_local_to_remote_atomic_verified, push_with_manifest_store, sizes_fit, SyncSummary,
    VerifyPolicy, HASH_VERIFY_LIMIT,
};

type Files = BTreeMap<String, Vec<u8>>;

/// A file system in memory.
fn answer(files: &mut Files, request: FileRequest) -> FileReply {
    let absent = || FileReply::Failed { error: Error::saying("no such file") };
    match request {
        FileRequest::Stat { path } => match files.get(&path) {
            Some(b) => FileReply::Size { bytes: b.len() as u64 },
            None => FileReply::Missing,
        },
        FileRequest::Measure { path } => match files.get(&path) {
            Some(b) => FileReply::Size { bytes: b.len() as u64 },
            None => absent(),
        },
        FileRequest::Sha256 { path } => match files.get(&path) {
            Some(b) => FileReply::Hash { sha256: sha256_file(b) },
            None => absent(),
        },
        FileRequest::CreateDirs { .. } => FileReply::Done,
        FileRequest::Write { path, bytes } => {
            files.insert(path, bytes);
            FileReply::Done
        }
        FileRequest::Copy { from, to } => match files.get(&from).cloned() {
            Some(b) => {
                files.insert(to, b);
                FileReply::Done
            }
            None => absent(),
        },
        FileRequest::Rename { from, to } => match files.remove(&from) {
            Some(b) => {
                files.insert(to, b);
                FileReply::Done
            }
            None => absent(),
        },
        FileRequest::Remove { path } => match files.remove(&path) {
            Some(_) => FileReply::Done,
            None => absent(),
        },
    }
}

/// A remote in memory, beside the local files that it copies from and to.
struct Memory {
    objects: RefCell<Files>,
    local: RefCell<Files>,
}

impl Memory {
    fn new() -> Self {
        Memory { objects: RefCell::new(BTreeMap::new()), local: RefCell::new(BTreeMap::new()) }
    }
}

impl RemoteStore for Memory {
    fn capabilities(&self) -> RemoteCapabilities {
        RemoteCapabilities { supports_locking: true, supports_list_prefix: true }
    }
    fn stat(&self, p: &str) -> Result<Option<RemoteStat>, Error> {
        Ok(self.objects.borrow().get(p).map(|b| RemoteStat { size: b.len() as u64 }))
    }
    fn read_bytes(&self, p: &str) -> Result<Option<Vec<u8>>, Error> {
        Ok(self.objects.borrow().get(p).cloned())
    }
    fn write_bytes_atomic(&self, p: &str, bytes: &[u8]) -> Result<(), Error> {
        self.objects.borrow_mut().insert(p.to_string(), bytes.to_vec());
        Ok(())
    }
    fn has_object(&self, p: &str) -> Result<bool, Error> {
        Ok(self.objects.borrow().contains_key(p))
    }
    fn copy_from_local_atomic(&self, local: &str, p: &str) -> Result<(), Error> {
        match self.local.borrow().get(local) {
            Some(b) => {
                self.objects.borrow_mut().insert(p.to_string(), b.clone());
                Ok(())
            }
            None => Err(Error::saying("no such file")),
        }
    }
    fn copy_to_local_atomic(&self, p: &str, local: &str) -> Result<(), Error> {
        match self.objects.borrow().get(p) {
            Some(b) => {
                self.local.borrow_mut().insert(local.to_string(), b.clone());
                Ok(())
            }
            None => Err(Error::saying("no such object")),
        }
    }
    fn list_prefix(&self, prefix: &str) -> Result<Vec<String>, Error> {
        Ok(self.objects.borrow().keys().filter(|k| k.starts_with(prefix)).cloned().collect())
    }
}

struct CountingHasher {
    calls: usize,
    files: Files,
}

impl HashProvider for CountingHasher {
    fn hash_file(&mut self, path: &str) -> Result<String, Error> {
        self.calls += 1;
        match self.files.get(path) {
            Some(b) => Ok(sha256_file(b)),
            None => Err(Error::saying("no such file")),
        }
    }
}

fn entry(relpath: &str, content: &[u8]) -> ManifestEntry {
    ManifestEntry {
        relpath: relpath.to_string(),
        size: content.len() as u64,
        sha256: sha256_file(content),
    }
}

fn manifest(entries: Vec<ManifestEntry>) -> Manifest {
    let total_bytes = entries.iter().map(|e| e.size).sum();
    Manifest { repo_id: "repo".to_string(), git_sha: "sha".to_string(), total_bytes, entries }
}

fn run_copy(files: &mut Files, src: &str, dst: &str, size: u64, sha: Option<String>) -> Result<u64, Error> {
    let mut step = copy_file_atomic_verified(src, dst, size, sha, 7, "s");
    loop {
        match step {
            Step::Ask { request, then } => {
                let reply = answer(files, request);
                step = then.next(reply);
            }
            Step::Finished { outcome } => return outcome,
        }
    }
}

fn run_push(files: &mut Files, from: &str, to: &str, m: &Manifest) -> Result<SyncSummary, Error> {
    let mut step = push_with_manifest(from, to, m, 7, "s0");
    let mut n = 0;
    loop {
        match step {
            Step::Ask { request, then } => {
                n += 1;
                let reply = answer(files, request);
                step = then.next(reply, &format!("s{}", n));
            }
            Step::Finished { outcome } => return outcome,
        }
    }
}

fn run_pull(files: &mut Files, from: &str, to: &str, m: &Manifest) -> Result<SyncSummary, Error> {
    let mut step = pull_from_manifest(from, to, m, 7, "s0");
    let mut n = 0;
    loop {
        match step {
            Step::Ask { request, then } => {
                n += 1;
                let reply = answer(files, request);
                step = then.next(reply, &format!("s{}", n));
            }
            Step::Finished { outcome } => return outcome,
        }
    }
}

fn run_verify(files: &mut Files, root: &str, m: &Manifest) -> Result<SyncSummary, Error> {
    let mut step = verify_manifest_local(root, m);
    loop {
        match step {
            Step::Ask { request, then } => {
                let reply = answer(files, request);
                step = then.next(reply);
            }
            Step::Finished { outcome } => return outcome,
        }
    }
}

fn run_store_pull(store: &Memory, root: &str, m: &Manifest) -> Result<SyncSummary, Error> {
    let mut session = RemoteSession::new(store);
    let mut step = pull_from_manifest_store(&mut session, root, m);
    loop {
        match step {
            Step::Ask { request, then } => {
                let reply = answer(&mut store.local.borrow_mut(), request);
                step = then.next(reply, &mut session);
            }
            Step::Finished { outcome } => return outcome,
        }
    }
}

fn run_fetch(store: &Memory, remote: &str, local: &str, size: u64, sha: &str) -> Result<u64, Error> {
    let mut session = RemoteSession::new(store);
    let mut step =
        copy_remote_to_local_atomic_verified(remote, local, size, sha, VerifyPolicy::default());
    loop {
        match step {
            Step::Ask { request, then } => {
                let reply = answer(&mut store.local.borrow_mut(), request);
                step = then.next(reply, &mut session);
            }
            Step::Finished { outcome } => return outcome,
        }
    }
}

/// Lock files in memory, with the age of what is there.
struct LockFile {
    files: Files,
    age_secs: Option<u64>,
    warnings: Vec<String>,
}

fn take_lock(root: &str, force: bool, file: &mut LockFile) -> Result<PushLockGuard, Error> {
    let mut step = acquire_push_lock(root, force, 7, Some("here".to_string()), 100);
    loop {
        match step {
            LockStep::Ask { request, then } => {
                let reply = match request {
                    LockRequest::CreateDirs { path } => {
                        assert_eq!(path, format!("{}/locks", root));
                        LockReply::Done
                    }
                    LockRequest::Look { path } => {
                        assert_eq!(path, format!("{}/locks/push.lock", root));
                        if file.files.contains_key(&path) {
                            LockReply::Present { age_secs: file.age_secs }
                        } else {
                            LockReply::Absent
                        }
                    }
                    LockRequest::Break { path, warning } => {
                        file.warnings.push(warning);
                        file.files.remove(&path);
                        LockReply::Done
                    }
                    LockRequest::CreateNew { path } => {
                        if file.files.contains_key(&path) {
                            LockReply::Failed { error: Error::saying("file exists") }
                        } else {
                            file.files.insert(path, Vec::new());
                            file.age_secs = Some(0);
                            LockReply::Done
                        }
                    }
                    LockRequest::Fill { path, bytes } => {
                        file.files.insert(path, bytes);
                        LockReply::Done
                    }
                };
                step = then.next(reply);
            }
            LockStep::Finished { outcome } => return outcome,
        }
    }
}

#[test]
fn allowlist_filter_works() {
    assert!(sync_included("xorbs/a"));
    assert!(sync_included("cas/x"));
    assert!(!sync_included("shard-cache/a"));
    assert!(!sync_included("tmp/a"));
    assert!(!sync_included("xorbs/global_dedup_lookup.db/lock.mdb"));
}

#[test]
fn allowlist_goes_by_the_first_name() {
    assert!(sync_included("./cas/x"));
    assert!(sync_included("/merkledb"));
    assert!(sync_included("mdb/.."));
    assert!(!sync_included(""));
    assert!(!sync_included("."));
    assert!(!sync_included("Cas/x"));
    assert!(sync_included("xorbs/global_dedup_lookup.db"));
    let tree = describe_cas_tree(vec!["xorbs".to_string(), "tmp".to_string(), "cas".to_string()]);
    assert_eq!(
        tree,
        vec![
            ("cas".to_string(), true),
            ("tmp".to_string(), false),
            ("xorbs".to_string(), true)
        ]
    );
}

#[test]
fn hash_cache_reuses_hashes() {
    let mut files: Files = BTreeMap::new();
    files.insert("/root/xet/xorbs/xorbs/a.bin".to_string(), b"hello world".to_vec());
    let listed = vec![CasFile { relpath: "xorbs/xorbs/a.bin".to_string(), size: Some(11) }];

    let mut h1 = CountingHasher { calls: 0, files: files.clone() };
    let cache = HashCache { entries: TextMap::new() };
    let built = {
        let mut session = HashSession::new(&mut h1);
        match build_manifest_with_hasher("repo", "sha1", "/root/xet", &listed, cache, &mut session) {
            Ok(b) => b,
            Err(e) => panic!("manifest build 1 failed: {}", e.message),
        }
    };
    assert_eq!(h1.calls, 1);

    let mut h2 = CountingHasher { calls: 0, files };
    {
        let mut session = HashSession::new(&mut h2);
        match build_manifest_with_hasher(
            "repo",
            "sha1",
            "/root/xet",
            &listed,
            built.cache,
            &mut session,
        ) {
            Ok(_) => {}
            Err(e) => panic!("manifest build 2 failed: {}", e.message),
        }
    }
    assert_eq!(h2.calls, 0);
}

#[test]
fn manifests_list_what_takes_part() {
    let mut files: Files = BTreeMap::new();
    files.insert("/c/cas/b".to_string(), b"hello".to_vec());
    files.insert("/c/cas/a".to_string(), b"abc".to_vec());
    let walk = vec![
        ("tmp/x".to_string(), 9),
        ("cas/b".to_string(), 5),
        ("cas/a".to_string(), 3),
    ];
    let mut hasher = CountingHasher { calls: 0, files: files.clone() };
    let mut session = HashSession::new(&mut hasher);
    let cache = HashCache { entries: TextMap::new() };
    let built = build_manifest("id", "sha", "/c", &walk, cache, &mut session).ok().unwrap();
    let m = built.manifest;
    assert_eq!(m.repo_id, "id");
    assert_eq!(m.git_sha, "sha");
    assert_eq!(m.total_bytes, 8);
    let paths: Vec<&str> = m.entries.iter().map(|e| e.relpath.as_str()).collect();
    assert_eq!(paths, vec!["cas/a", "cas/b"]);
    assert_eq!(
        m.entries[1].sha256,
        "2cf24dba5fb0a30e26e83b2ac5b9e29e1b161e5c1fa7425e73043362938b9824"
    );
    assert_eq!(built.cache.entries.get("cas/b").map(|e| e.size), Some(5));

    let asked = vec![
        ("cas/b".to_string(), Some(5)),
        ("tmp/gone".to_string(), None),
        ("tmp/x".to_string(), Some(9)),
    ];
    let mut hasher = CountingHasher { calls: 0, files };
    let mut session = HashSession::new(&mut hasher);
    let cache = HashCache { entries: TextMap::new() };
    let built =
        build_manifest_for_relpaths("id", "sha", "/c", &asked, cache, &mut session).ok().unwrap();
    assert_eq!(built.manifest.entries.len(), 1);
    assert_eq!(built.manifest.entries[0].relpath, "cas/b");
}

#[test]
fn manifests_do_not_leave_out_what_was_asked_for() {
    let asked = vec![
        ("cas/b".to_string(), Some(5)),
        ("cas/gone".to_string(), None),
        ("tmp/gone".to_string(), None),
        ("xorbs/lost".to_string(), None),
    ];
    assert_eq!(
        missing_required_relpaths(&asked),
        vec!["cas/gone".to_string(), "xorbs/lost".to_string()]
    );
    assert!(missing_required_relpaths(&vec![("tmp/gone".to_string(), None)]).is_empty());

    let mut files: Files = BTreeMap::new();
    files.insert("/c/cas/b".to_string(), b"hello".to_vec());
    let mut hasher = CountingHasher { calls: 0, files };
    let cache = HashCache { entries: TextMap::new() };
    let failed = build_manifest_for_relpaths(
        "id",
        "sha",
        "/c",
        &asked,
        cache,
        &mut HashSession::new(&mut hasher),
    );
    assert_eq!(
        failed.err().map(|e| e.message),
        Some("missing required CAS inputs: cas/gone, xorbs/lost".to_string())
    );
    assert_eq!(hasher.calls, 0);
}

#[test]
fn asking_for_everything_gives_everything() {
    let mut files: Files = BTreeMap::new();
    files.insert("/c/cas/a".to_string(), b"abc".to_vec());
    files.insert("/c/cas/b".to_string(), b"hello".to_vec());
    files.insert("/c/xorbs/c".to_string(), Vec::new());
    let walk = vec![
        ("cas/b".to_string(), 5),
        ("tmp/x".to_string(), 9),
        ("xorbs/c".to_string(), 0),
        ("cas/a".to_string(), 3),
    ];
    let mut hasher = CountingHasher { calls: 0, files: files.clone() };
    let cache = HashCache { entries: TextMap::new() };
    let whole = build_manifest("id", "sha", "/c", &walk, cache, &mut HashSession::new(&mut hasher))
        .ok()
        .unwrap();

    let asked = vec![
        ("xorbs/c".to_string(), Some(0)),
        ("cas/a".to_string(), Some(3)),
        ("tmp/none".to_string(), None),
        ("cas/b".to_string(), Some(5)),
    ];
    let mut again = CountingHasher { calls: 0, files };
    let built = build_manifest_for_relpaths(
        "id",
        "sha",
        "/c",
        &asked,
        whole.cache,
        &mut HashSession::new(&mut again),
    )
    .ok()
    .unwrap();
    assert_eq!(again.calls, 0);
    assert_eq!(built.manifest.repo_id, whole.manifest.repo_id);
    assert_eq!(built.manifest.git_sha, whole.manifest.git_sha);
    assert_eq!(built.manifest.total_bytes, 8);
    assert_eq!(whole.manifest.total_bytes, 8);
    let rows = |m: &Manifest| -> Vec<(String, u64, String)> {
        m.entries.iter().map(|e| (e.relpath.clone(), e.size, e.sha256.clone())).collect()
    };
    assert_eq!(rows(&built.manifest), rows(&whole.manifest));
    assert_eq!(built.manifest.entries[0].relpath, "cas/a");
}

#[test]
fn manifest_needs_a_hash_where_the_size_changed() {
    let mut cache = HashCache { entries: TextMap::new() };
    cache.entries.insert(
        "cas/a".to_string(),
        HashCacheEntry { size: 4, sha256: "old".to_string() },
    );
    let listed = vec![CasFile { relpath: "cas/a".to_string(), size: Some(3) }];
    let mut hasher = CountingHasher { calls: 0, files: BTreeMap::new() };
    let mut session = HashSession::new(&mut hasher);
    let r = build_manifest_with_hasher("r", "s", "/c", &listed, cache, &mut session);
    assert_eq!(r.err().map(|e| e.message), Some("no such file".to_string()));
    assert_eq!(hasher.calls, 1);

    let mut cache = HashCache { entries: TextMap::new() };
    cache.entries.insert(
        "cas/a".to_string(),
        HashCacheEntry { size: 3, sha256: "known".to_string() },
    );
    let mut hasher = CountingHasher { calls: 0, files: BTreeMap::new() };
    let mut session = HashSession::new(&mut hasher);
    let built = build_manifest_with_hasher("r", "s", "/c", &listed, cache, &mut session).ok().unwrap();
    assert_eq!(built.manifest.entries[0].sha256, "known");
    assert_eq!(hasher.calls, 0);
}

#[test]
fn manifest_totals_saturate() {
    let mut cache = HashCache { entries: TextMap::new() };
    for name in ["cas/a", "cas/b"] {
        cache.entries.insert(
            name.to_string(),
            HashCacheEntry { size: u64::MAX, sha256: "h".to_string() },
        );
    }
    let walk = vec![("cas/a".to_string(), u64::MAX), ("cas/b".to_string(), u64::MAX)];
    let mut hasher = CountingHasher { calls: 0, files: BTreeMap::new() };
    let mut session = HashSession::new(&mut hasher);
    let built = build_manifest("r", "s", "/c", &walk, cache, &mut session).ok().unwrap();
    assert_eq!(built.manifest.total_bytes, u64::MAX);
    assert!(!sizes_fit(&built.manifest));
    assert!(sizes_fit(&manifest(vec![entry("cas/a", b"x")])));
}

/// Reads a text file in memory.
fn read_text(files: &Files, path: Option<String>) -> Result<String, Error> {
    match path.and_then(|p| files.get(&p).cloned()) {
        Some(b) => Ok(String::from_utf8(b).unwrap()),
        None => Err(Error::saying("no such file")),
    }
}

fn resolve(files: &Files, input: Option<&str>) -> Result<String, String> {
    let content = read_text(files, ref_file("/root", input));
    resolve_ref_or_sha("/root", input, content).map_err(|e| e.message)
}

#[test]
fn resolve_ref_or_sha_works() {
    let sha = "0123456789abcdef0123456789abcdef01234567";
    let mut files: Files = BTreeMap::new();
    files.insert("/root/refs/main".to_string(), format!("{}\n", sha).into_bytes());
    files.insert("/root/manifests/HEAD".to_string(), format!("{}\n", sha).into_bytes());

    assert_eq!(resolve(&files, Some(sha)).expect("sha resolve"), sha);
    assert_eq!(resolve(&files, Some("main")).expect("ref resolve"), sha);
    assert_eq!(resolve(&files, None).expect("head resolve"), sha);
}

#[test]
fn refs_that_do_not_resolve_say_why() {
    let mut files: Files = BTreeMap::new();
    files.insert("/root/refs/odd".to_string(), b"not a sha\n".to_vec());
    files.insert("/root/manifests/HEAD".to_string(), b" \n".to_vec());
    assert_eq!(
        resolve(&files, Some("gone")),
        Err("remote ref not found: /root/refs/gone: no such file".to_string())
    );
    assert_eq!(
        resolve(&files, Some("odd")),
        Err("remote ref odd does not resolve to a valid SHA".to_string())
    );
    assert_eq!(
        resolve(&files, None),
        Err("remote HEAD is empty: /root/manifests/HEAD".to_string())
    );
    files.clear();
    assert_eq!(
        resolve(&files, None),
        Err("remote has no data HEAD; run `xet-ai push` first (/root/manifests/HEAD): no such file"
            .to_string())
    );
    assert_eq!(read_head("h", Ok("  ab \n".to_string())).ok(), Some("ab".to_string()));
}

#[test]
fn sha1_is_forty_hexadecimal_digits() {
    assert!(is_sha1_hex("0123456789abcdefABCDEF0123456789abcdef01"));
    assert!(!is_sha1_hex("0123456789abcdefABCDEF0123456789abcdef0"));
    assert!(!is_sha1_hex("0123456789abcdefABCDEF0123456789abcdef012"));
    assert!(!is_sha1_hex("g123456789abcdefABCDEF0123456789abcdef01"));
    assert!(!is_sha1_hex("é123456789abcdefABCDEF0123456789abcdef0"));
    assert!(!is_sha1_hex(""));
}

#[test]
fn refs_are_listed_by_name() {
    let found = vec![
        ("topic/b".to_string(), "2\n".to_string()),
        ("main".to_string(), " 1 \n".to_string()),
    ];
    assert_eq!(
        list_remote_refs(found),
        vec![
            ("main".to_string(), "1".to_string()),
            ("topic/b".to_string(), "2".to_string())
        ]
    );
}

#[test]
fn manifests_that_cannot_be_read_say_why() {
    let missing = read_manifest("m.json", Err(Error::saying("gone")));
    assert_eq!(missing.err().map(|e| e.message), Some("manifest missing: m.json: gone".to_string()));
    let corrupt = read_manifest("m.json", Ok(Err(Error::saying("bad"))));
    assert_eq!(corrupt.err().map(|e| e.message), Some("manifest corrupt: m.json: bad".to_string()));
    let fine = read_manifest("m.json", Ok(Ok(manifest(Vec::new()))));
    assert_eq!(fine.ok().map(|m| m.git_sha), Some("sha".to_string()));
}

#[test]
fn verified_copy_detects_remote_corruption() {
    let store = Memory::new();
    store.local.borrow_mut().insert("local/xet/cas/a.bin".to_string(), b"hello".to_vec());
    let sha = sha256_file(b"hello");
    let mut session = RemoteSession::new(&store);

    let copied = copy_local_to_remote_atomic_verified(
        "local/xet/cas/a.bin",
        &mut session,
        "xet/cas/a.bin",
        5,
        &sha,
        VerifyPolicy::default(),
    );
    assert_eq!(copied.ok(), Some(5));

    store.objects.borrow_mut().insert("xet/cas/a.bin".to_string(), b"helloo".to_vec());
    let err = copy_local_to_remote_atomic_verified(
        "local/xet/cas/a.bin",
        &mut session,
        "xet/cas/a.bin",
        5,
        &sha,
        VerifyPolicy::default(),
    )
    .err()
    .expect("must fail on size mismatch");
    assert!(err.message.contains("size"));
    assert_eq!(
        err.message,
        "destination corruption detected: xet/cas/a.bin has size 6, expected 5"
    );
}

#[test]
fn verified_copy_detects_small_file_hash_mismatch() {
    let store = Memory::new();
    store.local.borrow_mut().insert("local/xet/cas/a.bin".to_string(), b"hello".to_vec());
    let sha = sha256_file(b"hello");
    let mut session = RemoteSession::new(&store);
    let copied = copy_local_to_remote_atomic_verified(
        "local/xet/cas/a.bin",
        &mut session,
        "xet/cas/a.bin",
        5,
        &sha,
        VerifyPolicy::default(),
    );
    assert_eq!(copied.ok(), Some(5));

    store.objects.borrow_mut().insert("xet/cas/a.bin".to_string(), b"jello".to_vec());
    let err = copy_local_to_remote_atomic_verified(
        "local/xet/cas/a.bin",
        &mut session,
        "xet/cas/a.bin",
        5,
        &sha,
        VerifyPolicy::default(),
    )
    .err()
    .expect("must fail hash mismatch");
    assert!(err.message.contains("hash"));
    assert_eq!(
        err.message,
        format!(
            "destination hash mismatch: xet/cas/a.bin expected {} got {}",
            sha,
            sha256_file(b"jello")
        )
    );
}

#[test]
fn large_files_are_held_to_their_size_alone() {
    let store = Memory::new();
    store.objects.borrow_mut().insert("o".to_string(), b"jello".to_vec());
    let mut session = RemoteSession::new(&store);
    let policy = VerifyPolicy { hash_verify_limit: 4 };
    let r = copy_local_to_remote_atomic_verified("l", &mut session, "o", 5, "no hash", policy);
    assert_eq!(r.ok(), Some(0));
    assert_eq!(HASH_VERIFY_LIMIT, 8 * 1024 * 1024);
    assert_eq!(VerifyPolicy::default().hash_verify_limit, HASH_VERIFY_LIMIT);
}

#[test]
fn push_copies_what_is_missing_and_keeps_the_rest() {
    let store = Memory::new();
    store.local.borrow_mut().insert("l/cas/a".to_string(), b"abc".to_vec());
    store.local.borrow_mut().insert("l/cas/b".to_string(), b"hello".to_vec());
    store.objects.borrow_mut().insert("xet/cas/a".to_string(), b"abc".to_vec());
    let m = manifest(vec![entry("cas/a", b"abc"), entry("cas/b", b"hello")]);
    let mut session = RemoteSession::new(&store);
    let summary = push_with_manifest_store("l", &mut session, &m).ok().unwrap();
    assert_eq!(summary.files_copied, 1);
    assert_eq!(summary.bytes_copied, 5);
    assert_eq!(summary.files_verified, 2);
    assert_eq!(store.objects.borrow().get("xet/cas/b"), Some(&b"hello".to_vec()));

    let gone = manifest(vec![entry("cas/c", b"xyz")]);
    let r = push_with_manifest_store("l", &mut session, &gone);
    assert_eq!(r.err().map(|e| e.message), Some("no such file".to_string()));
}

#[test]
fn what_was_pushed_can_be_pulled() {
    let store = Memory::new();
    store.local.borrow_mut().insert("here/cas/a".to_string(), b"abc".to_vec());
    store.local.borrow_mut().insert("here/xorbs/b".to_string(), b"hello".to_vec());
    let m = manifest(vec![entry("cas/a", b"abc"), entry("xorbs/b", b"hello")]);
    let mut session = RemoteSession::new(&store);
    assert!(push_with_manifest_store("here", &mut session, &m).is_ok());

    let summary = run_store_pull(&store, "there", &m).ok().unwrap();
    assert_eq!(summary.files_copied, 2);
    assert_eq!(summary.bytes_copied, 8);
    assert_eq!(summary.files_verified, 2);
    assert_eq!(store.local.borrow().get("there/cas/a"), Some(&b"abc".to_vec()));
    let verified = run_verify(&mut store.local.borrow_mut(), "there", &m).ok().unwrap();
    assert_eq!(verified.files_verified, 2);
    assert_eq!(verified.files_copied, 0);

    let again = run_store_pull(&store, "there", &m).ok().unwrap();
    assert_eq!(again.files_copied, 0);
    assert_eq!(again.files_verified, 2);
}

#[test]
fn a_pull_counts_what_it_brings() {
    let store = Memory::new();
    store.local.borrow_mut().insert("here/cas/a".to_string(), b"abc".to_vec());
    store.local.borrow_mut().insert("here/cas/empty".to_string(), Vec::new());
    store.local.borrow_mut().insert("here/xorbs/b".to_string(), b"hello".to_vec());
    let m = manifest(vec![
        entry("cas/a", b"abc"),
        entry("cas/empty", b""),
        entry("xorbs/b", b"hello"),
    ]);
    let mut session = RemoteSession::new(&store);
    assert!(push_with_manifest_store("here", &mut session, &m).is_ok());
    let kept = store.objects.borrow().clone();
    let pulled = run_store_pull(&store, "there", &m).ok().unwrap();
    assert_eq!((pulled.files_copied, pulled.bytes_copied, pulled.files_verified), (2, 8, 3));
    assert_eq!(*store.objects.borrow(), kept);
    for e in &m.entries {
        assert_eq!(
            store.local.borrow().get(&format!("there/{}", e.relpath)),
            store.objects.borrow().get(&format!("xet/{}", e.relpath))
        );
    }
}

#[test]
fn pull_says_what_is_wrong() {
    let store = Memory::new();
    let m = manifest(vec![entry("cas/a", b"abc")]);
    assert_eq!(
        run_store_pull(&store, "l", &m).err().map(|e| e.message),
        Some("remote CAS file referenced by manifest is missing: xet/cas/a".to_string())
    );
    store.objects.borrow_mut().insert("xet/cas/a".to_string(), b"abcd".to_vec());
    assert_eq!(
        run_store_pull(&store, "l", &m).err().map(|e| e.message),
        Some("destination corruption detected: l/cas/a has size 4, expected 3".to_string())
    );
    let sha = sha256_file(b"abc");
    store.local.borrow_mut().insert("l/cas/x".to_string(), b"abx".to_vec());
    assert_eq!(
        run_fetch(&store, "xet/cas/a", "l/cas/x", 3, &sha).err().map(|e| e.message),
        Some(format!(
            "destination hash mismatch: l/cas/x expected {} got {}",
            sha,
            sha256_file(b"abx")
        ))
    );
    assert_eq!(
        run_fetch(&store, "xet/none", "l/none", 3, &sha).err().map(|e| e.message),
        Some("no such object".to_string())
    );
}

#[test]
fn a_fetch_that_brings_nothing_fails() {
    let store = Memory::new();
    store.objects.borrow_mut().insert("xet/cas/a".to_string(), b"hello".to_vec());
    let sha = sha256_file(b"hello");
    let mut session = RemoteSession::new(&store);
    let policy = VerifyPolicy::default();
    let step = copy_remote_to_local_atomic_verified("xet/cas/a", "l/cas/a", 5, &sha, policy);
    let Step::Ask { then, .. } = step else {
        panic!("must look at the local file");
    };
    let Step::Ask { then, .. } = then.next(FileReply::Missing, &mut session) else {
        panic!("must look at the local file again");
    };
    match then.next(FileReply::Missing, &mut session) {
        Step::Finished { outcome } => assert_eq!(
            outcome.err().map(|e| e.message),
            Some("remote copy failed to materialize l/cas/a".to_string())
        ),
        Step::Ask { .. } => panic!("must fail"),
    }
}

#[test]
fn local_copies_are_all_or_nothing() {
    let sha = sha256_file(b"abc");
    let mut files: Files = BTreeMap::new();
    files.insert("s".to_string(), b"abc".to_vec());
    files.insert("d/bad".to_string(), b"ab".to_vec());
    let before = files.clone();

    let e = run_copy(&mut files, "s", "d/bad", 3, Some(sha.clone())).err().unwrap();
    assert_eq!(e.message, "destination corruption detected: d/bad has size 2, expected 3");
    assert_eq!(files, before);

    let e = run_copy(&mut files, "s", "d/new", 4, None).err().unwrap();
    assert_eq!(
        e.message,
        "copied file has incorrect size: d/new.tmp.7.s expected 4 got 3"
    );
    assert_eq!(files, before);

    let e = run_copy(&mut files, "s", "d/new", 3, Some("other".to_string())).err().unwrap();
    assert_eq!(
        e.message,
        format!("copied file has incorrect hash: d/new.tmp.7.s expected other got {}", sha)
    );
    assert_eq!(files, before);

    let e = run_copy(&mut files, "none", "d/new", 3, None).err().unwrap();
    assert_eq!(e.message, "source missing: none");
    assert_eq!(files, before);

    let e = run_copy(&mut files, "s", "/", 3, None).err().unwrap();
    assert_eq!(e.message, "destination has no parent: /");

    assert_eq!(run_copy(&mut files, "s", "d/new", 3, Some(sha.clone())).ok(), Some(3));
    assert_eq!(files.get("d/new"), Some(&b"abc".to_vec()));
    assert_eq!(files.len(), before.len() + 1);
    assert_eq!(run_copy(&mut files, "s", "d/new", 3, Some(sha)).ok(), Some(0));
}

#[test]
fn manifests_are_copied_between_directories() {
    let mut files: Files = BTreeMap::new();
    files.insert("a/cas/x".to_string(), b"abc".to_vec());
    files.insert("a/cas/y".to_string(), b"hello".to_vec());
    let m = manifest(vec![entry("cas/x", b"abc"), entry("cas/y", b"hello")]);
    let pushed = run_push(&mut files, "a", "b", &m).ok().unwrap();
    assert_eq!(pushed.files_copied, 2);
    assert_eq!(pushed.bytes_copied, 8);
    let pulled = run_pull(&mut files, "b", "c", &m).ok().unwrap();
    assert_eq!(pulled.files_copied, 2);
    assert_eq!(run_verify(&mut files, "c", &m).ok().unwrap().files_verified, 2);
    assert_eq!(files.len(), 6);

    files.remove("b/cas/y");
    assert_eq!(
        run_pull(&mut files, "b", "d", &m).err().map(|e| e.message),
        Some("remote CAS file referenced by manifest is missing: b/cas/y".to_string())
    );
}

#[test]
fn verification_finds_each_fault() {
    let m = manifest(vec![entry("cas/x", b"abc")]);
    let mut files: Files = BTreeMap::new();
    assert_eq!(
        run_verify(&mut files, "c", &m).err().map(|e| e.message),
        Some("manifest verify failed: missing local file c/cas/x".to_string())
    );
    files.insert("c/cas/x".to_string(), b"abcd".to_vec());
    assert_eq!(
        run_verify(&mut files, "c", &m).err().map(|e| e.message),
        Some("manifest verify failed: size mismatch for c/cas/x (expected 3, got 4)".to_string())
    );
    files.insert("c/cas/x".to_string(), b"abd".to_vec());
    assert_eq!(
        run_verify(&mut files, "c", &m).err().map(|e| e.message),
        Some(format!(
            "manifest verify failed: hash mismatch for c/cas/x (expected {}, got {})",
            sha256_file(b"abc"),
            sha256_file(b"abd")
        ))
    );
    assert_eq!(run_verify(&mut files, "c", &manifest(Vec::new())).ok().unwrap().files_verified, 0);
}

#[test]
fn lock_acquire_release() {
    let mut file = LockFile { files: BTreeMap::new(), age_secs: None, warnings: Vec::new() };
    {
        let guard = take_lock("/root", false, &mut file).ok().expect("acquire lock");
        assert_eq!(guard.lock_path(), "/root/locks/push.lock");
        assert!(file.files.contains_key("/root/locks/push.lock"));
        file.files.remove(&guard.release());
    }
    assert!(!file.files.contains_key("/root/locks/push.lock"));
    assert!(take_lock("/root", false, &mut file).is_ok());
    assert!(file.warnings.is_empty());
}

#[test]
fn lock_excludes_until_it_is_stale() {
    let mut file = LockFile { files: BTreeMap::new(), age_secs: None, warnings: Vec::new() };
    assert!(take_lock("/r", false, &mut file).is_ok());
    assert_eq!(
        file.files.get("/r/locks/push.lock"),
        Some(&b"pid=7\nhost=here\nunix_ts=100\n".to_vec())
    );
    assert_eq!(
        take_lock("/r", false, &mut file).err().map(|e| e.message),
        Some("another push appears to be in progress; lock exists at /r/locks/push.lock".to_string())
    );
    file.age_secs = Some(30 * 60);
    assert!(take_lock("/r", false, &mut file).is_err());
    file.age_secs = None;
    assert!(take_lock("/r", false, &mut file).is_err());
    assert!(file.warnings.is_empty());
    file.age_secs = Some(30 * 60 + 1);
    assert!(take_lock("/r", false, &mut file).is_ok());
    assert_eq!(
        file.warnings,
        vec!["xet-ai: warning: breaking existing push lock at /r/locks/push.lock".to_string()]
    );
    assert!(take_lock("/r", true, &mut file).is_ok());
    assert_eq!(file.warnings.len(), 2);
}

#[test]
fn lock_that_cannot_be_made_is_an_error() {
    let step = acquire_push_lock("/r", false, 7, None, 1);
    let then = match step {
        LockStep::Ask { then, .. } => then,
        LockStep::Finished { .. } => panic!("nothing asked"),
    };
    let then = match then.next(LockReply::Done) {
        LockStep::Ask { then, .. } => then,
        LockStep::Finished { .. } => panic!("nothing asked"),
    };
    let then = match then.next(LockReply::Absent) {
        LockStep::Ask { then, .. } => then,
        LockStep::Finished { .. } => panic!("nothing asked"),
    };
    match then.next(LockReply::Failed { error: Error::saying("denied") }) {
        LockStep::Finished { outcome } => assert_eq!(
            outcome.err().map(|e| e.message),
            Some("failed to acquire push lock at /r/locks/push.lock: denied".to_string())
        ),
        LockStep::Ask { .. } => panic!("must fail"),
    }
}

#[test]
fn atomic_writes_leave_no_trace_of_a_failure() {
    fn run(files: &mut Files, mut step: Step<xet_ai::files::AtomicPut, ()>) -> Result<(), Error> {
        loop {
            match step {
                Step::Ask { request, then } => {
                    let reply = answer(files, request);
                    step = then.next(reply);
                }
                Step::Finished { outcome } => return outcome,
            }
        }
    }
    let mut files: Files = BTreeMap::new();
    assert!(run(&mut files, atomic_write_bytes("d/f", b"one".to_vec(), 1, "x")).is_ok());
    assert!(run(&mut files, atomic_write_string("d/f", "two", 1, "x")).is_ok());
    assert_eq!(files.get("d/f"), Some(&b"two".to_vec()));
    assert!(run(&mut files, copy_file_atomic("d/f", "e/g", 1, "x")).is_ok());
    assert_eq!(files.get("e/g"), Some(&b"two".to_vec()));
    assert!(run(&mut files, write_head_atomic("h", "abc", 1, "x")).is_ok());
    assert_eq!(files.get("h"), Some(&b"abc\n".to_vec()));
    assert!(run(&mut files, write_manifest_atomic("m", b"{}".to_vec(), 1, "x")).is_ok());
    assert!(run(&mut files, cache_manifest("n", b"{}".to_vec(), 1, "x")).is_ok());
    let before = files.clone();
    let e = run(&mut files, copy_file_atomic("none", "e/h", 1, "x")).err().unwrap();
    assert_eq!(e.message, "no such file");
    assert_eq!(files, before);
    let e = run(&mut files, atomic_write_bytes("", Vec::new(), 1, "x")).err().unwrap();
    assert_eq!(e.message, "destination has no parent: ");

    match atomic_write_bytes("d/f", b"one".to_vec(), 42, "sfx") {
        Step::Ask { request: FileRequest::CreateDirs { path }, then } => {
            assert_eq!(path, "d");
            match then.next(FileReply::Done) {
                Step::Ask { request: FileRequest::Write { path, bytes }, then } => {
                    assert_eq!(path, "d/.f.tmp.42.sfx");
                    assert_eq!(bytes, b"one".to_vec());
                    match then.next(FileReply::Failed { error: Error::saying("full") }) {
                        Step::Ask { request: FileRequest::Remove { path }, then } => {
                            assert_eq!(path, "d/.f.tmp.42.sfx");
                            match then.next(FileReply::Done) {
                                Step::Finished { outcome } => assert_eq!(
                                    outcome.err().map(|e| e.message),
                                    Some("full".to_string())
                                ),
                                Step::Ask { .. } => panic!("must end"),
                            }
                        }
                        _ => panic!("must clean up"),
                    }
                }
                _ => panic!("must write"),
            }
        }
        _ => panic!("must make the directory"),
    }
}

#[test]
fn filesystem_store_lays_objects_out_below_its_root() {
    let store = FilesystemRemoteStore::new("/remote/id".to_string());
    assert_eq!(store.root(), "/remote/id");
    assert_eq!(store.abs("refs/main"), "/remote/id/refs/main");
    assert!(store.capabilities().supports_locking);
    assert!(store.capabilities().supports_list_prefix);
    assert_eq!(
        store.list_prefix(vec!["b".to_string(), "a".to_string()]),
        vec!["a".to_string(), "b".to_string()]
    );
}

#[test]
fn hash_cache_is_empty_where_there_is_none() {
    let cache = load_hash_cache("/r/c.json", None).ok().expect("no file is no error");
    assert!(cache.entries.keys().is_empty());
    let mut entries = TextMap::new();
    entries.insert("cas/a".to_string(), HashCacheEntry { size: 1, sha256: "h".to_string() });
    let cache = load_hash_cache("/r/c.json", Some(Ok(HashCache { entries }))).ok().expect("cache");
    assert_eq!(cache.entries.keys(), vec!["cas/a".to_string()]);
    let failed = load_hash_cache("/r/c.json", Some(Err(Error::saying("EOF"))));
    assert_eq!(
        failed.err().map(|e| e.message),
        Some("failed to parse hash cache /r/c.json: EOF".to_string())
    );
}

#[test]
fn pushing_again_copies_nothing() {
    let store = Memory::new();
    store.local.borrow_mut().insert("l/cas/a".to_string(), b"abc".to_vec());
    store.local.borrow_mut().insert("l/cas/b".to_string(), b"hello".to_vec());
    let m = manifest(vec![entry("cas/a", b"abc"), entry("cas/b", b"hello")]);
    let mut session = RemoteSession::new(&store);
    let first = push_with_manifest_store("l", &mut session, &m).ok().unwrap();
    assert_eq!((first.files_copied, first.bytes_copied, first.files_verified), (2, 8, 2));
    let kept = store.objects.borrow().clone();
    let again = push_with_manifest_store("l", &mut session, &m).ok().unwrap();
    assert_eq!((again.files_copied, again.bytes_copied, again.files_verified), (0, 0, 2));
    assert_eq!(*store.objects.borrow(), kept);

    store.objects.borrow_mut().insert("xet/cas/b".to_string(), b"HELLO".to_vec());
    let kept = store.objects.borrow().clone();
    let failed = push_with_manifest_store("l", &mut session, &m);
    assert_eq!(
        failed.err().map(|e| e.message),
        Some(format!(
            "destination hash mismatch: xet/cas/b expected {} got {}",
            sha256_file(b"hello"),
            sha256_file(b"HELLO")
        ))
    );
    assert_eq!(*store.objects.borrow(), kept);
}

#[test]
fn what_was_built_can_be_pushed_and_pulled() {
    let mut files: Files = BTreeMap::new();
    files.insert("here/xorbs/b".to_string(), b"hello".to_vec());
    files.insert("here/cas/a".to_string(), b"abc".to_vec());
    files.insert("here/tmp/c".to_string(), b"left out".to_vec());
    let walk = vec![
        ("xorbs/b".to_string(), 5),
        ("tmp/c".to_string(), 8),
        ("cas/a".to_string(), 3),
    ];
    let mut hasher = CountingHasher { calls: 0, files: files.clone() };
    let cache = HashCache { entries: TextMap::new() };
    let built = build_manifest("r", "s", "here", &walk, cache, &mut HashSession::new(&mut hasher))
        .ok()
        .unwrap();
    assert_eq!(hasher.calls, 2);
    assert_eq!(built.manifest.total_bytes, 8);

    let store = Memory::new();
    store.local.borrow_mut().extend(files);
    let mut session = RemoteSession::new(&store);
    let sent = push_with_manifest_store("here", &mut session, &built.manifest).ok().unwrap();
    assert_eq!((sent.files_copied, sent.bytes_copied, sent.files_verified), (2, 8, 2));
    assert!(!store.objects.borrow().contains_key("xet/tmp/c"));
    assert!(run_store_pull(&store, "there", &built.manifest).is_ok());
    let verified = run_verify(&mut store.local.borrow_mut(), "there", &built.manifest);
    assert_eq!(verified.ok().map(|s| s.files_verified), Some(2));
}
