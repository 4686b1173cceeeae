use std::cell::RefCell;
use std::collections::BTreeMap;

use xet_ai::commands::naming::{
    cas_root, choose_representative_pointer, find_remote, fs_remote_store, hash_cache_path,
    manifest_dir, manifest_path, new_validation_base, own_dir, push_mode, remote_add,
    remote_set_default, resolve_remote_name, should_attempt_smudge_autopull, PushMode,
};
use xet_ai::commands::pull::{
    pull, remote_head, resolve_remote_ref, PullAsk, PullEvent, PullStep,
};
use xet_ai::commands::push::{
    push, push_refname, Publication, PushAsk, PushEvent, PushOptions, PushStep,
};
use xet_ai::commands::remotes::{remote_list, remote_refs};
use xet_ai::commands::reports::{
    debug_cas_tree, default_remote_dir, doctor, manifest_list, manifest_show, manifest_verify,
    status, version, DoctorFacts, RemoteFacts, StatusFacts,
};
use xet_ai::commands::setup::{
    clean_candidate, init, prepare_clean_source, validate_minimal_plan, validation_verdict, InitFacts,
    Validation,
};
use xet_ai::commands::smudge::{
    smudge, smudge_pointer, SmudgeAsk, SmudgeEnd, SmudgeEvent, SmudgeStep,
};
use xet_ai::commands::track::{has_tracked_patterns, track, track_in_file, track_line};
use xet_ai::commands::transactions::{
    finalize_transaction, publish, stage_transaction, transaction_id, TransactionArtifacts,
};
use xet_ai::commands::upkeep::{
    remote_tx_gc, remote_tx_list, removed_line, stale_transactions, stale_warning, TxDir,
};
use xet_ai::config::{
    load_local, load_shared, local_config_path, shared_config_path, ConfigFile, EffectiveConfig,
};
use xet_ai::error::Error;
use xet_ai::hash::sha256_file;
use xet_ai::pointers::{PointerEntry, PointerIndex, XetFileInfo};
use xet_ai::reachability::ReachabilityPlan;
use xet_ai::remote::{RemoteCapabilities, RemoteSession, RemoteStat, RemoteStore};
use xet_ai::sync::manifest::{Manifest, ManifestEntry};
use xet_ai::sync::transfer::SyncSummary;

/// A remote in memory. One of its objects can be made to fail, and one to be lost.
struct Memory {
    objects: RefCell<BTreeMap<String, Vec<u8>>>,
    local: RefCell<BTreeMap<String, Vec<u8>>>,
    calls: RefCell<Vec<String>>,
    caps: RemoteCapabilities,
    broken: Option<String>,
    lost: Option<String>,
}

impl Memory {
    fn new() -> Self {
        Memory {
            objects: RefCell::new(BTreeMap::new()),
            local: RefCell::new(BTreeMap::new()),
            calls: RefCell::new(Vec::new()),
            caps: RemoteCapabilities { supports_locking: true, supports_list_prefix: true },
            broken: None,
            lost: None,
        }
    }

    fn has(&self, p: &str) -> bool {
        self.objects.borrow().contains_key(p)
    }

    fn put(&self, p: &str, content: &[u8]) {
        self.objects.borrow_mut().insert(p.to_string(), content.to_vec());
    }

    fn check(&self, what: &str, p: &str) -> Result<(), Error> {
        self.calls.borrow_mut().push(format!("{} {}", what, p));
        if self.broken.as_deref() == Some(p) {
            return Err(Error::saying("broken"));
        }
        Ok(())
    }
}

impl RemoteStore for Memory {
    fn capabilities(&self) -> RemoteCapabilities {
        self.calls.borrow_mut().push("capabilities".to_string());
        self.caps
    }
    fn stat(&self, p: &str) -> Result<Option<RemoteStat>, Error> {
        self.check("stat", p)?;
        Ok(self.objects.borrow().get(p).map(|b| RemoteStat { size: b.len() as u64 }))
    }
    fn read_bytes(&self, p: &str) -> Result<Option<Vec<u8>>, Error> {
        self.check("read", p)?;
        Ok(self.objects.borrow().get(p).cloned())
    }
    fn write_bytes_atomic(&self, p: &str, bytes: &[u8]) -> Result<(), Error> {
        self.check("write", p)?;
        if self.lost.as_deref() != Some(p) {
            self.put(p, bytes);
        }
        Ok(())
    }
    fn has_object(&self, p: &str) -> Result<bool, Error> {
        self.check("exists", p)?;
        Ok(self.has(p))
    }
    fn copy_from_local_atomic(&self, local: &str, p: &str) -> Result<(), Error> {
        self.check("copy", p)?;
        let content = self.local.borrow().get(local).cloned();
        match content {
            Some(b) => {
                self.put(p, &b);
                Ok(())
            }
            None => Err(Error::saying("no such file")),
        }
    }
    fn copy_to_local_atomic(&self, p: &str, local: &str) -> Result<(), Error> {
        self.check("fetch", p)?;
        let content = self.objects.borrow().get(p).cloned();
        match content {
            Some(b) => {
                self.local.borrow_mut().insert(local.to_string(), b);
                Ok(())
            }
            None => Err(Error::saying("no such object")),
        }
    }
    fn list_prefix(&self, prefix: &str) -> Result<Vec<String>, Error> {
        self.check("list", prefix)?;
        Ok(self.objects.borrow().keys().filter(|k| k.starts_with(prefix)).cloned().collect())
    }
}

const MERKLE: &str = "0123456789abcdef0123456789abcdef0123456789abcdef0123456789abcdef";
const SHA: &str = "0123456789abcdef0123456789abcdef01234567";

fn tx1() -> TransactionArtifacts {
    TransactionArtifacts {
        txid: "tx1".to_string(),
        git_sha: SHA.to_string(),
        refname: "main".to_string(),
        manifest_json: b"{}".to_vec(),
        pointer_json: b"{}".to_vec(),
    }
}

fn strings(v: &[&str]) -> Vec<String> {
    v.iter().map(|s| s.to_string()).collect()
}

fn effective(default: Option<&str>, auto_pull: bool) -> EffectiveConfig {
    let mut shared = ConfigFile::default();
    shared.default_remote = default.map(|d| d.to_string());
    shared.auto_pull_on_smudge = Some(auto_pull);
    EffectiveConfig::load(Some(shared), None)
}

#[test]
fn validation_base_is_unique() {
    let root = "/tmp/xet-ai-cmd-test";
    let a = new_validation_base(root, "sha");
    let b = new_validation_base(root, "sha");
    assert_ne!(a, b);
    assert!(a.starts_with("/tmp/xet-ai-cmd-test/.xet_ai/validate/sha/"));
}

#[test]
fn transaction_markers_reflect_publish_state() {
    let store = Memory::new();
    let tx = tx1();
    let mut session = RemoteSession::new(&store);

    stage_transaction(&mut session, &tx).ok().expect("stage");
    assert!(store.has("tx/STAGED/tx1"));
    assert!(!store.has("tx/PUBLISHED/tx1"));
    assert!(!store.has("refs/main"));

    finalize_transaction(&mut session, &tx).ok().expect("finalize");
    assert!(store.has("tx/PUBLISHED/tx1"));
    assert_eq!(
        String::from_utf8(store.objects.borrow().get("refs/main").cloned().expect("exists"))
            .expect("utf8")
            .trim(),
        tx.git_sha
    );
}

#[test]
fn transactions_write_in_a_fixed_order() {
    let store = Memory::new();
    let mut session = RemoteSession::new(&store);
    assert!(publish(&mut session, &tx1()).is_ok());
    let want = vec![
        format!("write tx/tx1/manifests/{}.json", SHA),
        format!("write tx/tx1/pointers/{}.json", SHA),
        "write tx/tx1/refs/main".to_string(),
        "write tx/tx1/manifests/HEAD".to_string(),
        "write tx/tx1/pointers/HEAD".to_string(),
        "write tx/STAGED/tx1".to_string(),
        format!("write manifests/{}.json", SHA),
        format!("write pointers/{}.json", SHA),
        format!("exists manifests/{}.json", SHA),
        format!("exists pointers/{}.json", SHA),
        "write refs/main".to_string(),
        "write manifests/HEAD".to_string(),
        "write pointers/HEAD".to_string(),
        "write tx/PUBLISHED/tx1".to_string(),
    ];
    assert_eq!(*store.calls.borrow(), want);
    assert_eq!(store.objects.borrow().get("tx/STAGED/tx1"), Some(&b"staged\n".to_vec()));
    assert_eq!(store.objects.borrow().get("tx/PUBLISHED/tx1"), Some(&b"published\n".to_vec()));
    assert_eq!(transaction_id("sha", 17, "u"), "sha.17.u");
}

#[test]
fn a_failed_staging_leaves_nothing_live() {
    let mut store = Memory::new();
    store.broken = Some("tx/tx1/refs/main".to_string());
    let mut session = RemoteSession::new(&store);
    let r = publish(&mut session, &tx1());
    assert_eq!(r.err().map(|e| e.message), Some("broken".to_string()));
    assert!(store.objects.borrow().keys().all(|k| k.starts_with("tx/tx1/")));

    let mut store = Memory::new();
    store.broken = Some("refs/main".to_string());
    let mut session = RemoteSession::new(&store);
    assert!(publish(&mut session, &tx1()).is_err());
    assert!(store.has(&format!("manifests/{}.json", SHA)));
    assert!(store.has(&format!("pointers/{}.json", SHA)));
    assert!(!store.has("manifests/HEAD"));
    assert!(!store.has("tx/PUBLISHED/tx1"));
}

#[test]
fn refs_wait_for_what_they_name() {
    for payload in [format!("manifests/{}.json", SHA), format!("pointers/{}.json", SHA)] {
        let mut store = Memory::new();
        store.put("refs/main", b"before\n");
        store.lost = Some(payload.clone());
        let mut session = RemoteSession::new(&store);
        assert_eq!(
            publish(&mut session, &tx1()).err().map(|e| e.message),
            Some(format!("refusing to update live refs: {} is not there", payload))
        );
        assert_eq!(store.objects.borrow().get("refs/main"), Some(&b"before\n".to_vec()));
        assert!(!store.has("manifests/HEAD"));
        assert!(!store.has("pointers/HEAD"));
        assert!(!store.has("tx/PUBLISHED/tx1"));
    }
}

#[test]
fn track_updates_gitattributes_without_duplicates() {
    let content = "*.bin filter=xet_ai diff=xet_ai -text\n".to_string();
    let patterns = strings(&["*.bin", "*.parquet"]);
    let (content, added) = track_in_file(content, &patterns);
    assert_eq!(added, vec!["*.parquet".to_string()]);
    assert!(content.contains("*.parquet filter=xet_ai diff=xet_ai -text"));
}

#[test]
fn tracking_twice_is_tracking_once() {
    assert_eq!(track_line("*.x"), "*.x filter=xet_ai diff=xet_ai -text");
    let patterns = strings(&["*.a", "*.b", "*.a"]);
    let (once, added) = track_in_file("# mine\r".to_string(), &patterns);
    assert_eq!(added, strings(&["*.a", "*.b"]));
    assert_eq!(
        once,
        "# mine\r\n*.a filter=xet_ai diff=xet_ai -text\n*.b filter=xet_ai diff=xet_ai -text\n"
    );
    let (twice, added) = track_in_file(once.clone(), &patterns);
    assert_eq!(twice, once);
    assert!(added.is_empty());
    assert!(has_tracked_patterns(&twice));
    assert!(has_tracked_patterns("  *.c filter=xet_ai"));
    assert!(!has_tracked_patterns(""));
    assert!(!has_tracked_patterns("# mine\n  # *.c filter=xet_ai\n*.d filter=other\n"));
    assert_eq!(track(&added), strings(&["no changes"]));
    assert_eq!(
        track(&strings(&["*.a", "*.b"])),
        strings(&["tracked pattern: *.a", "tracked pattern: *.b"])
    );
}

#[test]
fn tx_gc_removes_old_unpublished_only() {
    let store = Memory::new();
    store.put("tx/STAGED/old", b"staged\n");
    store.put("tx/PUBLISHED/new", b"published\n");
    let dir = |name: &str, is_dir: bool, age_secs: Option<u64>| TxDir {
        name: name.to_string(),
        is_dir,
        age_secs,
    };
    let dirs = vec![
        dir("old", true, Some(20)),
        dir("new", true, Some(20)),
        dir("STAGED", true, Some(9999)),
        dir("PUBLISHED", true, Some(9999)),
        dir("file", false, Some(9999)),
        dir("unknown-age", true, None),
    ];
    let mut session = RemoteSession::new(&store);
    let (removed, outcome) = remote_tx_gc(&mut session, &dirs, 0);
    assert!(outcome.is_ok());
    assert!(removed.contains(&"old".to_string()));
    assert!(!removed.contains(&"new".to_string()));
    assert_eq!(removed, strings(&["old"]));
}

#[test]
fn tx_gc_goes_by_minutes() {
    let store = Memory::new();
    let dirs = vec![
        TxDir { name: "a".to_string(), is_dir: true, age_secs: Some(7199) },
        TxDir { name: "b".to_string(), is_dir: true, age_secs: Some(7200) },
    ];
    let mut session = RemoteSession::new(&store);
    let (removed, outcome) = remote_tx_gc(&mut session, &dirs, 120);
    assert!(outcome.is_ok());
    assert_eq!(removed, strings(&["b"]));

    let mut store = Memory::new();
    store.broken = Some("tx/PUBLISHED/b".to_string());
    let mut session = RemoteSession::new(&store);
    let (removed, outcome) = remote_tx_gc(&mut session, &dirs, 0);
    assert_eq!(removed, strings(&["a"]));
    assert_eq!(outcome.err().map(|e| e.message), Some("broken".to_string()));

    let mut store = Memory::new();
    store.caps.supports_list_prefix = false;
    let mut session = RemoteSession::new(&store);
    let (removed, outcome) = remote_tx_gc(&mut session, &dirs, 0);
    assert!(removed.is_empty());
    assert_eq!(
        outcome.err().map(|e| e.message),
        Some("remote backend does not support transaction listing/gc".to_string())
    );
}

#[test]
fn transactions_are_listed_with_their_state() {
    let store = Memory::new();
    store.put("tx/b/manifests/HEAD", b"");
    store.put("tx/a/refs/main", b"");
    store.put("tx/a/manifests/HEAD", b"");
    store.put("tx/c", b"");
    store.put("tx/STAGED/a", b"");
    store.put("tx/STAGED/b", b"");
    store.put("tx/PUBLISHED/b", b"");
    let mut session = RemoteSession::new(&store);
    assert_eq!(
        remote_tx_list(&mut session).ok(),
        Some(strings(&["a\tstaged", "b\tpublished", "c\tunknown"]))
    );
    let stale = stale_transactions(&mut session).ok().unwrap();
    assert_eq!(stale, strings(&["a"]));
    assert_eq!(
        stale_warning(&strings(&["a", "z"])),
        "xet-ai: warning: found staged transactions from previous pushes: a, z"
    );

    let mut store = Memory::new();
    store.caps.supports_list_prefix = false;
    let mut session = RemoteSession::new(&store);
    assert_eq!(
        remote_tx_list(&mut session).err().map(|e| e.message),
        Some("remote backend does not support transaction listing".to_string())
    );
}

#[test]
fn smudge_autopull_guard_attempt_once() {
    let mut shared = ConfigFile::default();
    shared.default_remote = Some("origin".to_string());
    shared.auto_pull_on_smudge = Some(true);
    let cfg = EffectiveConfig::load(Some(shared), None);
    assert_eq!(should_attempt_smudge_autopull(&cfg, false), Some("origin".to_string()));
    assert_eq!(should_attempt_smudge_autopull(&cfg, true), None);
}

#[test]
fn local_configuration_goes_before_shared() {
    let mut shared = ConfigFile::default();
    remote_add(&mut shared, "origin", "/shared");
    remote_add(&mut shared, "other", "rel");
    remote_set_default(&mut shared, "origin");
    shared.auto_pull_on_smudge = Some(true);
    let mut local = ConfigFile::default();
    remote_add(&mut local, "origin", "/local");
    local.auto_pull_on_smudge = Some(false);
    let cfg = EffectiveConfig::load(Some(shared), Some(local));
    assert_eq!(cfg.remotes.get("origin").map(|r| r.path.clone()), Some("/local".to_string()));
    assert_eq!(cfg.remotes.get("other").map(|r| r.path.clone()), Some("rel".to_string()));
    assert_eq!(cfg.default_remote, Some("origin".to_string()));
    assert!(!cfg.auto_pull_on_smudge);
    assert_eq!(
        remote_list(&cfg),
        strings(&["*origin\tfilesystem\t/local", " other\tfilesystem\trel"])
    );

    let none = EffectiveConfig::load(None, None);
    assert!(none.default_remote.is_none());
    assert!(!none.auto_pull_on_smudge);
    assert!(remote_list(&none).is_empty());
    assert_eq!(shared_config_path("/r"), "/r/.xet_ai.toml");
    assert_eq!(local_config_path("/r"), "/r/.xet_ai/config.local.toml");
}

#[test]
fn remotes_are_found_by_name_default_or_order() {
    let mut file = ConfigFile::default();
    assert_eq!(
        resolve_remote_name(None, &EffectiveConfig::load(None, None)).err().map(|e| e.message),
        Some("no remotes configured; run `xet-ai remote add <name> <path>`".to_string())
    );
    remote_add(&mut file, "zeta", "z");
    remote_add(&mut file, "beta", "/b");
    let cfg = EffectiveConfig::load(Some(file), None);
    assert_eq!(resolve_remote_name(Some("x"), &cfg).ok(), Some("x".to_string()));
    assert_eq!(resolve_remote_name(None, &cfg).ok(), Some("beta".to_string()));
    assert_eq!(
        find_remote(&cfg, "x").err().map(|e| e.message),
        Some("remote `x` not found".to_string())
    );
    let mut file = ConfigFile::default();
    remote_add(&mut file, "beta", "/b");
    remote_set_default(&mut file, "zeta");
    let with_default = EffectiveConfig::load(Some(file), None);
    assert_eq!(resolve_remote_name(None, &with_default).ok(), Some("zeta".to_string()));

    let zeta = find_remote(&cfg, "zeta").ok().unwrap();
    let store = fs_remote_store("/repo", zeta, "id").ok().unwrap();
    assert_eq!(store.root(), "/repo/z/id");
    let beta = find_remote(&cfg, "beta").ok().unwrap();
    assert_eq!(fs_remote_store("/repo", beta, "id").ok().unwrap().root(), "/b/id");
    let mut odd = beta.clone();
    odd.kind = "s3".to_string();
    assert_eq!(
        fs_remote_store("/repo", &odd, "id").err().map(|e| e.message),
        Some("unsupported remote type `s3`".to_string())
    );
}

#[test]
fn places_are_below_the_repository() {
    assert_eq!(manifest_dir("/r"), "/r/.xet_ai/manifests");
    assert_eq!(manifest_path("/r", "abc"), "/r/.xet_ai/manifests/abc.json");
    assert_eq!(cas_root("/r"), "/r/.xet_ai/xet");
    assert!(push_mode(true, true) == PushMode::AllCas);
    assert!(push_mode(false, true) == PushMode::MinimalNoValidate);
    assert!(push_mode(false, false) == PushMode::MinimalValidate);
}

fn pointer(path: &str, size: Option<u64>, hash: &str) -> PointerEntry {
    PointerEntry {
        path: path.to_string(),
        file_info: XetFileInfo {
            hash: Some(hash.to_string()),
            cas_hash: None,
            content_hash: None,
            file_size: size,
            sha256: None,
        },
    }
}

#[test]
fn the_largest_file_speaks_for_all() {
    let index = |entries: Vec<PointerEntry>| PointerIndex {
        repo_id: "r".to_string(),
        git_sha: "s".to_string(),
        entries,
    };
    assert!(choose_representative_pointer(&index(Vec::new())).is_none());
    let chosen = choose_representative_pointer(&index(vec![
        pointer("a", Some(3), "small"),
        pointer("c", Some(9), "later"),
        pointer("b", Some(9), "first"),
        pointer("d", None, "unknown"),
        pointer("b", Some(9), "again"),
    ]));
    assert_eq!(chosen.and_then(|i| i.hash), Some("first".to_string()));

    let idx = index(vec![pointer("a", Some(3), "h")]);
    let trial = validate_minimal_plan("/r", "sha", &strings(&["cas/x"]), &idx).unwrap();
    assert_eq!(trial.pointer.hash, Some("h".to_string()));
    assert_eq!(trial.cas, format!("{}/xet", trial.base));
    assert_eq!(
        trial.copies,
        vec![("/r/.xet_ai/xet/cas/x".to_string(), format!("{}/cas/x", trial.cas))]
    );
    assert!(validate_minimal_plan("/r", "sha", &Vec::new(), &index(Vec::new())).is_none());
}

fn small_manifest() -> Manifest {
    Manifest {
        repo_id: "id".to_string(),
        git_sha: SHA.to_string(),
        total_bytes: 5,
        entries: vec![ManifestEntry {
            relpath: "cas/a".to_string(),
            size: 5,
            sha256: sha256_file(b"hello"),
        }],
    }
}

fn publication() -> Publication {
    Publication {
        branch: Some("topic".to_string()),
        unix_ts: 17,
        uuid: "u".to_string(),
        manifest_json: b"the manifest".to_vec(),
        pointer_json: b"the pointers".to_vec(),
    }
}

/// A trial with a pointer that gives the hash.
fn trial(hash: &str) -> Validation {
    Validation {
        pointer: pointer("a", Some(3), hash).file_info,
        base: "/r/trial".to_string(),
        cas: "/r/trial/xet".to_string(),
        copies: Vec::new(),
    }
}

#[test]
fn a_trial_decides_about_its_plan() {
    let broken = || Err(Error::saying("not found"));
    assert_eq!(validation_verdict(&None, &Ok(())).ok(), Some(true));
    assert_eq!(validation_verdict(&None, &broken()).ok(), Some(true));
    assert_eq!(validation_verdict(&Some(trial(MERKLE)), &Ok(())).ok(), Some(true));
    assert_eq!(validation_verdict(&Some(trial(MERKLE)), &broken()).ok(), Some(false));
    for hydrated in [Ok(()), broken()] {
        let verdict = validation_verdict(&Some(trial("no hash")), &hydrated);
        assert_eq!(verdict.err().map(|e| e.message), Some("Xet hash is corrupted".to_string()));
    }
}

struct PushLog {
    asks: Vec<String>,
    notices: Vec<String>,
    outcome: Result<Vec<String>, String>,
    /// Whether the lock was still held when the push was over.
    locked: bool,
}

fn run_push(
    store: &Memory,
    options: PushOptions,
    refname: Option<&str>,
    enough: bool,
    required: usize,
) -> PushLog {
    run_push_missing(store, options, refname, enough, required, 0)
}

/// A push of which the first `missing` required files are not there.
fn run_push_missing(
    store: &Memory,
    options: PushOptions,
    refname: Option<&str>,
    enough: bool,
    required: usize,
    missing: usize,
) -> PushLog {
    let mut session = RemoteSession::new(store);
    let mut step =
        push(options, SHA, "l", refname.map(|s| s.to_string()));
    let planned: Vec<String> = (0..required).map(|i| format!("cas/{}", i)).collect();
    let mut asks = Vec::new();
    let mut said = Vec::new();
    let mut locked = false;
    loop {
        match step {
            PushStep::Ask { ask, notices, then } => {
                said.extend(notices);
                let (name, event) = match ask {
                    PushAsk::Lock => {
                        locked = true;
                        ("lock".to_string(), PushEvent::Locked)
                    }
                    PushAsk::Announce => ("announce".to_string(), PushEvent::Announced),
                    PushAsk::Release => {
                        locked = false;
                        ("release".to_string(), PushEvent::Released)
                    }
                    PushAsk::Plan => {
                        let plan = ReachabilityPlan {
                            git_sha: SHA.to_string(),
                            pointer_paths: strings(&["a", "b"]),
                            required_cas_relpaths: planned.clone(),
                        };
                        let found = planned
                            .iter()
                            .enumerate()
                            .map(|(i, p)| (p.clone(), if i < missing { None } else { Some(5) }))
                            .collect();
                        ("plan".to_string(), PushEvent::Planned { plan, found })
                    }
                    PushAsk::Validate { required } => {
                        assert_eq!(required, planned);
                        let hydrated =
                            if enough { Ok(()) } else { Err(Error::saying("not found")) };
                        let event = PushEvent::Validated { trial: Some(trial(MERKLE)), hydrated };
                        ("validate".to_string(), event)
                    }
                    PushAsk::Build { only } => {
                        let all_cas = only.is_none();
                        assert!(all_cas || only == Some(planned[missing..].to_vec()));
                        let event = PushEvent::Built { manifest: small_manifest() };
                        (format!("build {}", all_cas), event)
                    }
                    PushAsk::Keep { manifest } => {
                        assert_eq!(manifest.entries.len(), 1);
                        assert_eq!(manifest.entries[0].relpath, "cas/a");
                        ("keep".to_string(), PushEvent::Kept { publication: publication() })
                    }
                };
                asks.push(name);
                step = then.next(event, &mut session);
            }
            PushStep::Finished { outcome } => {
                return PushLog {
                    asks,
                    notices: said,
                    outcome: outcome.map_err(|e| e.message),
                    locked,
                }
            }
        }
    }
}

fn options(mode: PushMode, plan_only: bool, validate: bool) -> PushOptions {
    PushOptions { mode, plan_only, validate }
}

#[test]
fn push_publishes_what_it_sent() {
    let store = Memory::new();
    store.local.borrow_mut().insert("l/cas/a".to_string(), b"hello".to_vec());
    store.put("tx/STAGED/older", b"staged\n");
    let log = run_push(
        &store,
        options(PushMode::MinimalValidate, false, false),
        Some("main"),
        true,
        1,
    );
    assert_eq!(log.asks, strings(&["plan", "validate", "build false", "lock", "announce", "keep", "release"]));
    assert_eq!(
        log.notices,
        strings(&[
            "xet-ai: warning: found staged transactions from previous pushes: older"
        ])
    );
    assert_eq!(
        log.outcome,
        Ok(vec![
            "copied 1 files (5 bytes)".to_string(),
            format!("wrote manifest {} with 1 entries (total bytes 5)", SHA),
            "reachability: 2 pointer files, 1 required CAS files".to_string(),
            format!("updated HEAD -> {}", SHA),
        ])
    );
    assert_eq!(store.objects.borrow().get("xet/cas/a"), Some(&b"hello".to_vec()));
    assert!(store.has(&format!("tx/PUBLISHED/{}.17.u", SHA)));
    assert!(store.has("refs/main"));

    let mut session = RemoteSession::new(&store);
    assert_eq!(remote_head(&mut session).ok(), Some(SHA.to_string()));
    assert_eq!(
        remote_refs(&mut session).ok(),
        Some(vec![format!("main\t{}", SHA)])
    );
}

#[test]
fn push_falls_back_to_everything() {
    let store = Memory::new();
    store.local.borrow_mut().insert("l/cas/a".to_string(), b"hello".to_vec());
    let log =
        run_push(&store, options(PushMode::MinimalValidate, false, false), None, false, 1);
    assert_eq!(log.asks, strings(&["plan", "validate", "build true", "lock", "announce", "keep", "release"]));
    assert_eq!(
        log.notices,
        strings(&[
            "xet-ai: warning: minimal reachability validation failed; falling back to --all-cas for this push"
        ])
    );
    assert_eq!(log.outcome.ok().map(|l| l.len()), Some(3));
    assert!(store.has("refs/topic"));

    let log = run_push(&store, options(PushMode::AllCas, false, false), None, true, 1);
    assert_eq!(log.asks, strings(&["plan", "build true", "lock", "announce", "keep", "release"]));
    let log = run_push(&store, options(PushMode::MinimalNoValidate, false, false), None, true, 3);
    assert_eq!(log.asks, strings(&["plan", "build false", "lock", "announce", "keep", "release"]));
    assert_eq!(
        log.notices,
        strings(&[
            "xet-ai: warning: running minimal push without validation (--minimal-no-validate)"
        ])
    );
    assert_eq!(push_refname(&None, &None), "HEAD");
}

#[test]
fn push_does_not_publish_without_what_is_missing() {
    let store = Memory::new();
    store.local.borrow_mut().insert("l/cas/a".to_string(), b"hello".to_vec());
    let minimal = options(PushMode::MinimalNoValidate, false, false);
    let log = run_push_missing(&store, minimal, None, true, 3, 2);
    assert_eq!(
        log.outcome,
        Err("missing required CAS inputs: cas/0, cas/1".to_string())
    );
    assert_eq!(log.asks, strings(&["plan"]));
    assert!(store.calls.borrow().is_empty());
    assert!(store.objects.borrow().is_empty());

    let validated = options(PushMode::MinimalValidate, false, false);
    let log = run_push_missing(&store, validated, None, true, 3, 2);
    assert_eq!(log.asks, strings(&["plan", "build true", "lock", "announce", "keep", "release"]));
    assert_eq!(
        log.notices,
        strings(&[
            "xet-ai: warning: missing required CAS inputs: 2 of 3; falling back to --all-cas for this push"
        ])
    );
    assert!(log.outcome.is_ok());
    assert!(store.has("refs/topic"));

    let everything = options(PushMode::AllCas, false, false);
    let log = run_push_missing(&store, everything, None, true, 3, 2);
    assert!(log.notices.is_empty());
    assert!(log.outcome.is_ok());

    let planned = options(PushMode::MinimalNoValidate, true, false);
    let quiet = Memory::new();
    let log = run_push_missing(&quiet, planned, None, true, 3, 2);
    assert_eq!(log.asks, strings(&["plan", "build false"]));
    assert_eq!(
        log.outcome,
        Ok(vec![
            format!("plan for {}: 1 entries (total bytes 5)", SHA),
            "reachability: 2 pointer files, 3 required CAS files".to_string(),
            "missing required CAS inputs: 2 of 3".to_string(),
            "plan only: the remote was not changed".to_string(),
        ])
    );
    assert!(quiet.calls.borrow().is_empty());
}

#[test]
fn push_gives_the_lock_back() {
    let everything = options(PushMode::AllCas, false, false);
    let store = Memory::new();
    store.local.borrow_mut().insert("l/cas/a".to_string(), b"hello".to_vec());
    let log = run_push(&store, everything, None, true, 1);
    assert!(log.outcome.is_ok());
    assert!(!log.locked);

    let store = Memory::new();
    store.local.borrow_mut().insert("l/cas/a".to_string(), b"hello".to_vec());
    store.put("xet/cas/a", b"another size");
    let log = run_push(&store, everything, None, true, 1);
    assert_eq!(log.asks, strings(&["plan", "build true", "lock", "announce", "release"]));
    assert!(log.outcome.is_err());
    assert!(!log.locked);
    let left: Vec<String> = store.objects.borrow().keys().cloned().collect();
    assert_eq!(left, strings(&["xet/cas/a"]));
    assert!(store.calls.borrow().contains(&"stat xet/cas/a".to_string()));
    assert!(!store.calls.borrow().contains(&"read xet/cas/a".to_string()));

    let mut session = RemoteSession::new(&store);
    let PushStep::Ask { then, .. } = push(everything, SHA, "l", None) else {
        panic!("must ask for the plan");
    };
    let plan = ReachabilityPlan {
        git_sha: SHA.to_string(),
        pointer_paths: Vec::new(),
        required_cas_relpaths: Vec::new(),
    };
    let planned = PushEvent::Planned { plan, found: Vec::new() };
    let PushStep::Ask { then, .. } = then.next(planned, &mut session) else {
        panic!("must ask for the manifest");
    };
    let built = PushEvent::Built { manifest: small_manifest() };
    let PushStep::Ask { ask, then, .. } = then.next(built, &mut session) else {
        panic!("must ask for the lock");
    };
    assert!(matches!(ask, PushAsk::Lock));
    let PushStep::Ask { then, .. } = then.next(PushEvent::Locked, &mut session) else {
        panic!("must go on");
    };
    let failed = then.next(PushEvent::Failed { error: Error::saying("no terminal") }, &mut session);
    let PushStep::Ask { ask, then, .. } = failed else {
        panic!("must give the lock back");
    };
    assert!(matches!(ask, PushAsk::Release));
    match then.next(PushEvent::Failed { error: Error::saying("no release") }, &mut session) {
        PushStep::Finished { outcome } => {
            assert_eq!(outcome.err().map(|e| e.message), Some("no terminal".to_string()))
        }
        PushStep::Ask { .. } => panic!("must be over"),
    }
}

#[test]
fn plan_only_leaves_the_remote_alone() {
    let store = Memory::new();
    let log = run_push(&store, options(PushMode::MinimalValidate, true, false), None, true, 1);
    assert_eq!(log.asks, strings(&["plan", "build false"]));
    assert_eq!(
        log.outcome,
        Ok(vec![
            format!("plan for {}: 1 entries (total bytes 5)", SHA),
            "reachability: 2 pointer files, 1 required CAS files".to_string(),
            "plan only: the remote was not changed".to_string(),
        ])
    );
    assert!(store.calls.borrow().is_empty());
    let log = run_push(&store, options(PushMode::MinimalValidate, true, true), None, false, 1);
    assert_eq!(log.asks, strings(&["plan", "validate", "build true"]));
    assert!(store.calls.borrow().is_empty());
    assert!(store.objects.borrow().is_empty());
}

#[test]
fn push_stops_at_the_first_failure() {
    let mut store = Memory::new();
    store.caps.supports_locking = false;
    let log = run_push(&store, options(PushMode::AllCas, false, false), None, true, 1);
    assert_eq!(
        log.outcome,
        Err("remote backend does not support push locking".to_string())
    );
    let store = Memory::new();
    let log = run_push(&store, options(PushMode::AllCas, false, false), None, true, 1);
    assert_eq!(log.outcome, Err("no such file".to_string()));
    assert_eq!(log.asks, strings(&["plan", "build true", "lock", "announce", "release"]));
    assert!(store.objects.borrow().is_empty());

    let mut session = RemoteSession::new(&store);
    let everything = options(PushMode::AllCas, false, false);
    let PushStep::Ask { then, .. } = push(everything, SHA, "l", None) else {
        panic!("must ask for the plan");
    };
    match then.next(PushEvent::Failed { error: Error::saying("no plan") }, &mut session) {
        PushStep::Finished { outcome } => {
            assert_eq!(outcome.err().map(|e| e.message), Some("no plan".to_string()))
        }
        PushStep::Ask { .. } => panic!("must fail"),
    }
    let PushStep::Ask { then, .. } = push(everything, SHA, "l", None) else {
        panic!("must ask for the plan");
    };
    match then.next(PushEvent::Locked, &mut session) {
        PushStep::Finished { outcome } => assert_eq!(
            outcome.err().map(|e| e.message),
            Some("unexpected event in a push".to_string())
        ),
        PushStep::Ask { .. } => panic!("must fail"),
    }
}

#[test]
fn a_pointer_that_cannot_be_tried_stops_a_push() {
    let store = Memory::new();
    let mut session = RemoteSession::new(&store);
    let validated = options(PushMode::MinimalValidate, false, false);
    let PushStep::Ask { then, .. } = push(validated, SHA, "l", None) else {
        panic!("must ask for the plan");
    };
    let plan = ReachabilityPlan {
        git_sha: SHA.to_string(),
        pointer_paths: strings(&["a"]),
        required_cas_relpaths: strings(&["cas/a"]),
    };
    let planned = PushEvent::Planned { plan, found: vec![("cas/a".to_string(), Some(5))] };
    let PushStep::Ask { ask, then, .. } = then.next(planned, &mut session) else {
        panic!("must ask for a trial");
    };
    assert!(matches!(ask, PushAsk::Validate { .. }));
    let tried = PushEvent::Validated { trial: Some(trial("bad")), hydrated: Ok(()) };
    match then.next(tried, &mut session) {
        PushStep::Finished { outcome } => assert_eq!(
            outcome.err().map(|e| e.message),
            Some("Xet hash is corrupted".to_string())
        ),
        PushStep::Ask { .. } => panic!("must fail"),
    }
    assert!(store.calls.borrow().is_empty());
}

fn pulled(store: &Memory, git_ref: Option<&str>, verbose: bool, all_cas: bool) -> (Vec<String>, Result<Vec<String>, String>) {
    let mut session = RemoteSession::new(store);
    let mut step = pull("/r", git_ref.map(|s| s.to_string()), verbose, all_cas, &mut session);
    let mut asks = Vec::new();
    loop {
        match step {
            PullStep::Ask { ask, then } => {
                let event = match ask {
                    PullAsk::Build { repo_id, sha } => {
                        asks.push(format!("build {} {}", repo_id, sha));
                        PullEvent::Loaded { manifest: small_manifest() }
                    }
                    PullAsk::Parse { sha, bytes } => {
                        asks.push(format!("parse {} {}", sha, String::from_utf8(bytes).unwrap()));
                        PullEvent::Loaded { manifest: small_manifest() }
                    }
                    PullAsk::Fetch { manifest_path, manifest } => {
                        assert_eq!(manifest.git_sha, SHA);
                        assert_eq!(manifest.entries.len(), 1);
                        asks.push(format!("fetch {}", manifest_path));
                        PullEvent::Fetched {
                            summary: SyncSummary {
                                files_copied: 1,
                                bytes_copied: 5,
                                files_verified: 2,
                            },
                        }
                    }
                    PullAsk::KeepPointers { path, bytes } => {
                        asks.push(format!("keep {} {}", path, String::from_utf8(bytes).unwrap()));
                        PullEvent::Kept
                    }
                };
                step = then.next(event, &mut session);
            }
            PullStep::Finished { outcome } => return (asks, outcome.map_err(|e| e.message)),
        }
    }
}

#[test]
fn pull_finds_what_was_pushed() {
    let store = Memory::new();
    store.local.borrow_mut().insert("l/cas/a".to_string(), b"hello".to_vec());
    let log = run_push(&store, options(PushMode::AllCas, false, false), Some("main"), true, 1);
    assert!(log.outcome.is_ok());
    store.calls.borrow_mut().clear();
    let want = vec![
        format!("parse {} the manifest", SHA),
        format!("fetch /r/.xet_ai/manifests/{}.json", SHA),
        format!("keep /r/.xet_ai/pointers/{}.json the pointers", SHA),
    ];
    for git_ref in [None, Some("main"), Some(SHA)] {
        let (asks, outcome) = pulled(&store, git_ref, true, false);
        assert_eq!(asks, want);
        assert_eq!(
            outcome,
            Ok(vec![
                format!("pulled manifest {} (/r/.xet_ai/manifests/{}.json)", SHA, SHA),
                "copied 1 files (5 bytes)".to_string(),
                "verified 2 files".to_string(),
            ])
        );
    }
    assert!(store.calls.borrow().iter().all(|c| c.starts_with("read ")));
    let (asks, outcome) = pulled(&store, None, false, true);
    assert_eq!(asks[0], format!("build all-cas {}", SHA));
    assert_eq!(outcome, Ok(Vec::new()));
}

#[test]
fn pull_says_what_is_not_there() {
    let mut store = Memory::new();
    let failed = |store: &Memory, git_ref: Option<&str>, all_cas: bool| {
        pulled(store, git_ref, true, all_cas).1.err().unwrap()
    };
    assert_eq!(failed(&store, None, false), "remote has no data HEAD; run `xet-ai push` first");
    assert_eq!(failed(&store, Some("x"), false), "remote ref not found: refs/x");
    assert_eq!(failed(&store, Some(SHA), false), format!("manifest missing: {}", SHA));
    store.caps.supports_list_prefix = false;
    assert_eq!(
        failed(&store, Some(SHA), true),
        "remote backend does not support --all-cas pull (list_prefix unavailable)"
    );
    store.put(&format!("manifests/{}.json", SHA), b"m");
    let (asks, outcome) = pulled(&store, Some(SHA), true, false);
    assert_eq!(asks.len(), 2);
    assert!(outcome.is_ok());
    store.put("refs/odd", b" \xff\n");
    let mut session = RemoteSession::new(&store);
    assert_eq!(
        resolve_remote_ref(&mut session, &Some("odd".to_string())).ok(),
        Some("\u{fffd}".to_string())
    );
}

#[test]
fn refs_are_told_by_name() {
    let store = Memory::new();
    store.put("refs/refs/x", b"1\n");
    store.put("refs/main", b"2\n");
    let mut session = RemoteSession::new(&store);
    assert_eq!(remote_refs(&mut session).ok(), Some(strings(&["main\t2", "x\t1"])));
    let mut store = Memory::new();
    store.put("refs/main", b"2\n");
    store.broken = Some("refs/main".to_string());
    let mut session = RemoteSession::new(&store);
    assert_eq!(remote_refs(&mut session).err().map(|e| e.message), Some("broken".to_string()));
}

struct SmudgeLog {
    asks: Vec<String>,
    end: String,
}

fn run_smudge(first: Option<&str>, second: Option<&str>, cfg: EffectiveConfig, attempted: bool, pull_ok: bool) -> SmudgeLog {
    let input = format!("{{\"hash\":\"{}\",\"file_size\":5}}", MERKLE);
    let mut step = smudge(input.as_bytes(), Some("big.bin".to_string()));
    let mut asks = Vec::new();
    let mut cfg = Some(cfg);
    let trouble = |t: Option<&str>| t.map(Error::saying);
    loop {
        match step {
            SmudgeStep::Ask { ask, then } => {
                let event = match ask {
                    SmudgeAsk::Open => SmudgeEvent::Opened,
                    SmudgeAsk::Hydrate { hash } => {
                        assert_eq!(hash, MERKLE);
                        asks.push("hydrate".to_string());
                        SmudgeEvent::Hydrated { trouble: trouble(first) }
                    }
                    SmudgeAsk::Configure => {
                        asks.push("configure".to_string());
                        SmudgeEvent::Configured {
                            effective: cfg.take().unwrap(),
                            already_attempted: attempted,
                        }
                    }
                    SmudgeAsk::Pull { remote } => {
                        asks.push(format!("pull {}", remote));
                        SmudgeEvent::Pulled { ok: pull_ok }
                    }
                    SmudgeAsk::HydrateAgain { hash } => {
                        assert_eq!(hash, MERKLE);
                        asks.push("again".to_string());
                        SmudgeEvent::Hydrated { trouble: trouble(second) }
                    }
                };
                step = then.next(event);
            }
            SmudgeStep::Finished { end } => {
                let end = match end {
                    SmudgeEnd::Written => "written".to_string(),
                    SmudgeEnd::PassThrough { warning } => warning,
                    SmudgeEnd::Error { notice, error } => {
                        format!("{:?} {}", notice, error.message)
                    }
                };
                return SmudgeLog { asks, end };
            }
        }
    }
}

#[test]
fn smudge_pulls_once_and_passes_through() {
    let missing = "xet-ai: warning: missing CAS data; run `xet-ai pull <remote>` then `git checkout -f -- big.bin`";
    let log = run_smudge(None, None, effective(None, true), false, true);
    assert_eq!(log.asks, strings(&["hydrate"]));
    assert_eq!(log.end, "written");
    let log = run_smudge(Some("Not Found"), None, effective(Some("origin"), true), false, true);
    assert_eq!(log.asks, strings(&["hydrate", "configure", "pull origin", "again"]));
    assert_eq!(log.end, "written");
    let log = run_smudge(Some("no such"), Some("bad"), effective(Some("origin"), true), false, true);
    assert_eq!(log.end, missing);
    let log = run_smudge(Some("MISSING"), None, effective(Some("origin"), true), false, false);
    assert_eq!(log.asks, strings(&["hydrate", "configure", "pull origin"]));
    assert_eq!(log.end, missing);
    let log = run_smudge(Some("missing"), None, effective(Some("origin"), true), true, true);
    assert_eq!(log.asks, strings(&["hydrate", "configure"]));
    assert_eq!(log.end, missing);
    let log = run_smudge(Some("missing"), None, effective(Some("origin"), false), false, true);
    assert_eq!(log.asks, strings(&["hydrate", "configure"]));
    let log = run_smudge(Some("denied"), None, effective(None, true), false, true);
    assert_eq!(
        log.end,
        "Some(\"xet-ai: error: failed to hydrate pointer: denied\") denied"
    );
    match smudge(b"hello", None) {
        SmudgeStep::Finished { end: SmudgeEnd::PassThrough { warning } } => assert_eq!(
            warning,
            "xet-ai: warning: input is not a xet pointer; passing through unchanged"
        ),
        _ => panic!("must pass through"),
    }
    match smudge(br#"{"hash":"short"}"#, None) {
        SmudgeStep::Ask { then, .. } => match then.next(SmudgeEvent::Opened) {
            SmudgeStep::Finished { end: SmudgeEnd::Error { notice, error } } => {
                assert!(notice.is_none());
                assert_eq!(error.message, "Xet hash is corrupted");
            }
            _ => panic!("must fail"),
        },
        _ => panic!("must open"),
    }
    match smudge_pointer(None, None) {
        SmudgeStep::Finished { end: SmudgeEnd::PassThrough { .. } } => {}
        _ => panic!("must pass through"),
    }
    match smudge(br#"{"hash":"short"}"#, None) {
        SmudgeStep::Ask { then, .. } => {
            match then.next(SmudgeEvent::Failed { error: Error::saying("no runtime") }) {
                SmudgeStep::Finished { end: SmudgeEnd::Error { notice, error } } => {
                    assert!(notice.is_none());
                    assert_eq!(error.message, "no runtime");
                }
                _ => panic!("must fail"),
            }
        }
        _ => panic!("must hydrate"),
    }
}

#[test]
fn status_tells_what_is_there() {
    let facts = StatusFacts {
        repo_root: "/r".to_string(),
        repo_id: None,
        default_remote: Some("origin".to_string()),
        last_head: Some("abc\n".to_string()),
        cas_exists: true,
        cas_sizes: vec![1, 2, 3],
        head_pointer_cached: false,
    };
    assert_eq!(
        status(&facts),
        strings(&[
            "repo_root: /r",
            "repo_id: <missing>",
            "shared_config: /r/.xet_ai.toml",
            "local_config: /r/.xet_ai/config.local.toml",
            "default_remote: origin",
            "last_pushed_sha: abc",
            "cas_exists: true",
            "cas_bytes_approx: 6",
            "head_pointer_cached: false",
        ])
    );
}

fn healthy_remote() -> RemoteFacts {
    RemoteFacts {
        default_remote: Some("origin".to_string()),
        dir: Some("/remote".to_string()),
        reachable: true,
        cas_root: "/r/.xet_ai/xet".to_string(),
        cas_accessible: true,
        cas_sizes: vec![3, 5],
    }
}

fn healthy() -> DoctorFacts {
    DoctorFacts {
        clean_set: true,
        smudge_set: true,
        required_set: true,
        attributes: "*.bin filter=xet_ai diff=xet_ai -text\n".to_string(),
        has_repo_id: true,
        repo_id_tracked: true,
        repo_root: "/r".to_string(),
        has_shared_config: true,
        configured: Ok(healthy_remote()),
    }
}

#[test]
fn doctor_shows_what_it_found() {
    let report = doctor(&healthy());
    assert_eq!(
        report.findings,
        strings(&[
            "shared_config: /r/.xet_ai.toml (present)",
            "default_remote: origin",
            "cas: 2 files, 8 bytes",
        ])
    );
    let bare = DoctorFacts {
        has_shared_config: false,
        configured: Ok(RemoteFacts {
            default_remote: None,
            cas_sizes: vec![u64::MAX, 1],
            ..healthy_remote()
        }),
        ..healthy()
    };
    assert_eq!(
        doctor(&bare).findings,
        strings(&[
            "shared_config: /r/.xet_ai.toml (missing)",
            "default_remote: <none>",
            "cas: 2 files, 18446744073709551615 bytes",
        ])
    );

    let unread = DoctorFacts {
        smudge_set: false,
        configured: Err(Error::saying("bad config")),
        ..healthy()
    };
    let report = doctor(&unread);
    assert_eq!(report.findings, strings(&["shared_config: /r/.xet_ai.toml (present)"]));
    assert_eq!(report.complaints, strings(&["xet-ai: missing git filter.smudge"]));
    assert_eq!(report.verdict.err().map(|e| e.message), Some("bad config".to_string()));
}

#[test]
fn doctor_complains_about_each_fault() {
    let report = doctor(&healthy());
    assert!(report.complaints.is_empty());
    assert_eq!(report.verdict.ok(), Some("doctor: OK".to_string()));

    let no_default = DoctorFacts {
        configured: Ok(RemoteFacts { default_remote: None, dir: None, ..healthy_remote() }),
        ..healthy()
    };
    let report = doctor(&no_default);
    assert_eq!(report.complaints, strings(&["xet-ai: no default remote set"]));
    assert!(report.verdict.is_ok());

    let sick = DoctorFacts {
        clean_set: false,
        smudge_set: false,
        required_set: false,
        has_repo_id: false,
        configured: Ok(RemoteFacts {
            reachable: false,
            cas_accessible: false,
            ..healthy_remote()
        }),
        ..healthy()
    };
    let report = doctor(&sick);
    assert_eq!(
        report.complaints,
        strings(&[
            "xet-ai: missing git filter.clean",
            "xet-ai: missing git filter.smudge",
            "xet-ai: missing git filter.required",
            "xet-ai: missing .xet_ai_repo_id",
            "xet-ai: default remote path not reachable: /remote",
            "xet-ai: cannot access local CAS root /r/.xet_ai/xet",
        ])
    );
    assert_eq!(
        report.verdict.err().map(|e| e.message),
        Some("doctor found critical issues".to_string())
    );

    let mut fresh = healthy();
    fresh.attributes = "# filter=xet_ai\n*.txt text\n".to_string();
    fresh.repo_id_tracked = false;
    let report = doctor(&fresh);
    assert_eq!(
        report.complaints,
        strings(&[
            "xet-ai: no tracked patterns in .gitattributes",
            "xet-ai: not tracked in git: .xet_ai_repo_id",
        ])
    );
    assert!(report.verdict.is_ok());

    let mut optional = healthy();
    optional.required_set = false;
    let report = doctor(&optional);
    assert_eq!(report.complaints, strings(&["xet-ai: missing git filter.required"]));
    assert!(report.verdict.is_err());

    let mut file = ConfigFile::default();
    remote_add(&mut file, "origin", "rel");
    remote_set_default(&mut file, "origin");
    let cfg = EffectiveConfig::load(Some(file), None);
    assert_eq!(default_remote_dir("/r", &cfg), Some("/r/rel".to_string()));
    assert_eq!(default_remote_dir("/r", &effective(Some("gone"), false)), None);
}

#[test]
fn manifests_are_told() {
    assert_eq!(manifest_list(None), strings(&["no manifests cached"]));
    assert_eq!(
        manifest_list(Some(vec![("b".to_string(), (1, 2)), ("a".to_string(), (3, 4))])),
        strings(&["a\tentries=3\ttotal_bytes=4", "b\tentries=1\ttotal_bytes=2"])
    );
    let mut entries = Vec::new();
    for i in 0..25u64 {
        entries.push(ManifestEntry {
            relpath: format!("cas/{}", i),
            size: i % 5,
            sha256: "h".to_string(),
        });
    }
    let m = Manifest {
        repo_id: "id".to_string(),
        git_sha: "sha".to_string(),
        total_bytes: 50,
        entries,
    };
    let lines = manifest_show(&m);
    assert_eq!(lines.len(), 24);
    assert_eq!(
        lines[..6].to_vec(),
        strings(&[
            "repo_id: id",
            "git_sha: sha",
            "entries: 25",
            "total_bytes: 50",
            "4\th\tcas/4",
            "4\th\tcas/9"
        ])
    );
    assert_eq!(lines[23], "1\th\tcas/21");
    let summary = SyncSummary { files_copied: 0, bytes_copied: 0, files_verified: 25 };
    assert_eq!(manifest_verify(summary, &m), "verified 25 files for manifest sha");
    assert_eq!(
        version("0.1.0", &None),
        strings(&[
            "xet-ai 0.1.0",
            "build_commit: unknown",
            "xet_core_rev: a7661a7e63626466561e88e63113001a193a36ee"
        ])
    );
    assert_eq!(
        debug_cas_tree(&vec![("cas".to_string(), true), ("tmp".to_string(), false)]),
        strings(&["include\tcas", "exclude\ttmp"])
    );
}

#[test]
fn init_plans_what_is_missing() {
    let facts = InitFacts {
        gitignore: "target".to_string(),
        has_repo_id: false,
        gitattributes: String::new(),
        has_shared_config: false,
        shared_config: "/r/.xet_ai.toml".to_string(),
    };
    let plan = init(facts, true, &strings(&["*.bin"]), "the-id");
    assert_eq!(
        plan.git_commands,
        vec![
            strings(&["config", "filter.xet_ai.clean", "xet-ai clean --path %f"]),
            strings(&["config", "filter.xet_ai.smudge", "xet-ai smudge --path %f"]),
            strings(&["config", "filter.xet_ai.required", "true"]),
        ]
    );
    assert_eq!(plan.gitignore, Some("target\n.xet_ai/\n".to_string()));
    assert_eq!(plan.repo_id, Some("the-id\n".to_string()));
    assert_eq!(
        plan.repo_id_notice,
        Some("created .xet_ai_repo_id with repo id the-id; please commit this file so clones share the same identity.".to_string())
    );
    assert_eq!(
        plan.gitattributes,
        Some("*.bin filter=xet_ai diff=xet_ai -text\n".to_string())
    );
    assert!(plan.write_config);
    assert_eq!(
        plan.config_notice,
        Some("created /r/.xet_ai.toml; commit if you want shared remote config".to_string())
    );

    let facts = InitFacts {
        gitignore: " .xet_ai/ \n".to_string(),
        has_repo_id: true,
        gitattributes: String::new(),
        has_shared_config: true,
        shared_config: "/r/.xet_ai.toml".to_string(),
    };
    let plan = init(facts, true, &Vec::new(), "the-id");
    assert!(plan.gitignore.is_none());
    assert!(plan.repo_id.is_none());
    assert!(plan.gitattributes.is_none());
    assert!(!plan.write_config);
    assert!(plan.config_notice.is_none());
}

#[test]
fn clean_reads_the_file_or_its_input() {
    assert_eq!(clean_candidate("/r", &Some("a/b".to_string())), Some("/r/a/b".to_string()));
    assert_eq!(clean_candidate("/r", &Some("/a".to_string())), Some("/a".to_string()));
    assert_eq!(clean_candidate("/r", &None), None);
    let source = prepare_clean_source("/r/.xet_ai", Some("/r/a/b".to_string()), 7);
    assert_eq!(source.path, "/r/a/b");
    assert!(!source.from_stdin);
    assert!(!source.temporary);
    let source = prepare_clean_source("/r/.xet_ai", None, 7);
    assert_eq!(source.path, "/r/.xet_ai/tmp/clean-stdin-7.tmp");
    assert!(source.from_stdin);
    assert!(source.temporary);
    assert!(prepare_clean_source("/r/.xet_ai", Some("/r/./.xet_ai//tmp/x".to_string()), 7).temporary);
}

#[test]
fn places_below_the_own_directory() {
    assert_eq!(own_dir("/r"), "/r/.xet_ai");
    assert_eq!(own_dir("/r/"), "/r/.xet_ai");
    assert_eq!(hash_cache_path("/r"), "/r/.xet_ai/hash_cache.json");
    assert_eq!(removed_line("t.1.u"), "removed stale tx t.1.u");
}

#[test]
fn configuration_is_empty_where_there_is_no_file() {
    let none = load_shared(None);
    assert!(none.remotes.keys().is_empty());
    assert!(none.default_remote.is_none());
    assert!(none.auto_pull_on_smudge.is_none());
    let mut file = ConfigFile::default();
    remote_add(&mut file, "o", "/remote");
    remote_set_default(&mut file, "o");
    let kept = load_local(Some(file));
    assert_eq!(kept.remotes.keys(), vec!["o".to_string()]);
    assert_eq!(kept.default_remote, Some("o".to_string()));
    assert!(load_local(None).default_remote.is_none());
}
