use std::collections::BTreeMap;

use xet_ai::cli::config::{config_path, AppConfig};
use xet_ai::cli::repo::{
    git_current_branch_short as branch_by_git, git_head_sha as sha_by_git,
    repo_root as root_by_git, run_git_capture_stdout, GitOutput,
};
use xet_ai::cli::sync::{copy_missing_recursive, sync_included, Found};
use xet_ai::error::Error;
use xet_ai::git::{head_refname_or_head, head_sha, list_files_at_commit, TreeEntry};
use xet_ai::files::{FileReply, FileRequest, Step};
use xet_ai::pointers::{
    build_pointer_index, cache_pointer_index, index_pointers, json_stem,
    list_cached_pointer_indexes, merkle_hash, pointer_cache_path, pointer_file, read_pointer,
    PointerIndex, XetFileInfo,
};
use xet_ai::reachability::{
    load_or_build_pointer_index, plan_reachable_cas, pointer_can_be_cut, CasFileAccess, CasReader,
    PointerHashHydrator, PointerHydrator,
};
use xet_ai::repo::{
    append_if_missing, git_current_branch_short, git_head_sha, load_repo_id, repo_id_path,
    repo_root, resolve_path, run_git, REPO_ID_FILE,
};

const HASH: &str = "0123456789abcdef0123456789abcdef01234567";

fn info(hash: &str) -> XetFileInfo {
    XetFileInfo {
        hash: Some(hash.to_string()),
        cas_hash: None,
        content_hash: None,
        file_size: Some(123),
        sha256: None,
    }
}

struct Disk {
    files: BTreeMap<String, Vec<u8>>,
}

impl CasReader for Disk {
    fn read_file(&mut self, path: &str) -> Result<(), Error> {
        match self.files.get(path) {
            Some(_) => Ok(()),
            None => Err(Error::saying("no such file")),
        }
    }
}

fn disk(paths: &[&str]) -> Disk {
    Disk { files: paths.iter().map(|p| (p.to_string(), Vec::new())).collect() }
}

struct FakeHydrator;

impl PointerHydrator for FakeHydrator {
    fn hydrate_pointer<C: CasFileAccess>(
        &mut self,
        _pointer: &XetFileInfo,
        cas: &mut C,
    ) -> Result<(), Error> {
        cas.read_cas_relpath("cas/needed-a")?;
        cas.read_cas_relpath("xorbs/needed-b")?;
        Ok(())
    }
}

fn strings(v: &[&str]) -> Vec<String> {
    v.iter().map(|s| s.to_string()).collect()
}

#[test]
fn build_pointer_index_finds_only_pointer_files() {
    let pointer_json: &[u8] =
        br#"{"hash":"0123456789abcdef0123456789abcdef01234567","file_size":123}"#;
    let files = vec![
        ("big.bin".to_string(), pointer_json.to_vec()),
        ("notes.txt".to_string(), b"hello".to_vec()),
    ];
    let idx = build_pointer_index("the-sha", "repo-id", &files);
    assert_eq!(idx.entries.len(), 1);
    assert_eq!(idx.entries[0].path, "big.bin");
    assert_eq!(idx.entries[0].file_info.hash, Some(HASH.to_string()));
    assert_eq!(idx.entries[0].file_info.file_size, Some(123));
    assert_eq!(idx.git_sha, "the-sha");
    assert_eq!(idx.repo_id, "repo-id");
}

#[test]
fn pointer_cache_roundtrip() {
    let pointer_json: &[u8] =
        br#"{"hash":"0123456789abcdef0123456789abcdef01234567","file_size":123}"#;
    let sha = "the-sha";
    let files = vec![("big.bin".to_string(), pointer_json.to_vec())];
    let idx = build_pointer_index(sha, "repo-id", &files);

    let entries: Vec<(String, Option<String>)> =
        idx.entries.iter().map(|e| (e.path.clone(), e.file_info.hash.clone())).collect();
    let json = serde_json::to_string_pretty(&(idx.git_sha.clone(), entries)).expect("json");
    let mut kept: BTreeMap<String, Vec<u8>> = BTreeMap::new();
    let mut step = cache_pointer_index("/root", &idx.git_sha, &json, 7, "s");
    loop {
        match step {
            Step::Ask { request, then } => {
                let reply = match request {
                    FileRequest::CreateDirs { .. } => FileReply::Done,
                    FileRequest::Write { path, bytes } => {
                        kept.insert(path, bytes);
                        FileReply::Done
                    }
                    FileRequest::Rename { from, to } => {
                        let bytes = kept.remove(&from).expect("written");
                        kept.insert(to, bytes);
                        FileReply::Done
                    }
                    _ => FileReply::Failed { error: Error::saying("not asked for") },
                };
                step = then.next(reply);
            }
            Step::Finished { outcome } => {
                assert!(outcome.is_ok());
                break;
            }
        }
    }
    let bytes = kept.get(&pointer_cache_path("/root", sha)).expect("read");
    let (loaded_sha, loaded): (String, Vec<(String, Option<String>)>) =
        serde_json::from_slice(bytes).expect("parse");
    assert_eq!(loaded.len(), 1);
    assert_eq!(loaded_sha, sha);
    assert_eq!(loaded[0], ("big.bin".to_string(), Some(HASH.to_string())));
}

#[test]
fn pointer_files_are_read_as_they_were_written() {
    let text = pointer_file("ab\"\u{e9}", Some(u64::MAX), None).ok().expect("pointer");
    let info = read_pointer(text.as_bytes()).expect("is a pointer");
    assert_eq!(info.hash, Some("ab\"\u{e9}".to_string()));
    assert_eq!(info.file_size, Some(u64::MAX));
    assert!(info.cas_hash.is_none());
    assert!(info.content_hash.is_none());
    let text = pointer_file("h", None, Some("s".to_string())).ok().expect("pointer");
    assert_eq!(text, r#"{"hash":"h","sha256":"s"}"#);
    let info = read_pointer(text.as_bytes()).expect("is a pointer");
    assert_eq!(info.file_size, None);
    assert_eq!(info.sha256, Some("s".to_string()));
    assert!(read_pointer(b"hello").is_none());
    assert!(read_pointer(b"").is_none());
    assert!(read_pointer(b"{\"file_size\":1}").is_none());
    assert!(read_pointer(b"\xff").is_none());
}

#[test]
fn merkle_hashes_are_sixty_four_digits() {
    let good = "0123456789abcdefABCDEF0123456789abcdef0123456789abcdef0123456789";
    assert_eq!(merkle_hash(&info(good)).ok(), Some(good.to_string()));
    for bad in ["", HASH, &good[1..], &format!("{}0", good), &format!("g{}", &good[1..])] {
        assert_eq!(
            merkle_hash(&info(bad)).err().map(|e| e.message),
            Some("Xet hash is corrupted".to_string())
        );
    }
    let mut none = info(good);
    none.hash = None;
    assert!(merkle_hash(&none).is_err());
}

#[test]
fn indexes_are_in_order() {
    let files = vec![
        ("z".to_string(), Some(info("1"))),
        ("a".to_string(), None),
        ("m".to_string(), Some(info("2"))),
    ];
    let idx = index_pointers("s", "r", files);
    let paths: Vec<&str> = idx.entries.iter().map(|e| e.path.as_str()).collect();
    assert_eq!(paths, vec!["m", "z"]);
    assert_eq!(pointer_cache_path("/r", "s"), "/r/.xet_ai/pointers/s.json");

    let named = |sha: &str| PointerIndex {
        repo_id: "r".to_string(),
        git_sha: sha.to_string(),
        entries: Vec::new(),
    };
    let kept = list_cached_pointer_indexes(vec![named("b"), named("a")]);
    assert_eq!(kept[0].git_sha, "a");
    assert_eq!(kept[1].git_sha, "b");
    assert_eq!(json_stem("abc.json"), Some("abc".to_string()));
    assert_eq!(json_stem("a.b.json"), Some("a.b".to_string()));
    assert_eq!(json_stem(".json"), None);
    assert_eq!(json_stem("abc.JSON"), None);
    assert_eq!(json_stem("json"), None);
    for name in ["abc.json", "a.b.json", ".json", "abc.txt", "..json", "x"] {
        let path = std::path::Path::new(name);
        let want = if path.extension().and_then(|s| s.to_str()) == Some("json") {
            path.file_stem().and_then(|s| s.to_str()).map(|s| s.to_string())
        } else {
            None
        };
        assert_eq!(json_stem(name), want, "stem of {:?}", name);
    }

    let (idx, is_new) = load_or_build_pointer_index(Some(named("k")), "s", "r", &Vec::new());
    assert_eq!(idx.git_sha, "k");
    assert!(!is_new);
    let found = vec![("z".to_string(), br#"{"hash":"1"}"#.to_vec())];
    let (idx, is_new) = load_or_build_pointer_index(None, "s", "r", &found);
    assert_eq!(idx.git_sha, "s");
    assert_eq!(idx.entries.len(), 1);
    assert!(is_new);
}

#[test]
fn list_files_at_commit_works() {
    let walk = vec![
        TreeEntry { dir: "".to_string(), name: Some("sub".to_string()), is_blob: false },
        TreeEntry { dir: "sub/".to_string(), name: Some("b.txt".to_string()), is_blob: true },
        TreeEntry { dir: "".to_string(), name: Some("a.txt".to_string()), is_blob: true },
    ];
    let files = list_files_at_commit(walk);
    assert_eq!(files, vec!["a.txt".to_string(), "sub/b.txt".to_string()]);
}

#[test]
fn reachability_plan_traces_only_hydrator_reads() {
    let pointer_json: &[u8] =
        br#"{"hash":"0123456789abcdef0123456789abcdef01234567","file_size":123}"#;
    let files = vec![
        ("big.bin".to_string(), pointer_json.to_vec()),
        ("note.txt".to_string(), b"hello".to_vec()),
    ];
    let sha = "the-sha";
    let idx = build_pointer_index(sha, "repo-id", &files);
    let reader = disk(&["/c/cas/needed-a", "/c/xorbs/needed-b", "/c/cas/ignored"]);

    let mut hydrator = FakeHydrator;
    let plan = plan_reachable_cas(&idx, "/c", sha, reader, &mut hydrator).ok().expect("plan");

    assert_eq!(plan.git_sha, sha);
    assert_eq!(plan.pointer_paths, vec!["big.bin".to_string()]);
    assert_eq!(
        plan.required_cas_relpaths,
        vec!["cas/needed-a".to_string(), "xorbs/needed-b".to_string()]
    );

    let mut hydrator = FakeHydrator;
    let failed = plan_reachable_cas(&idx, "/c", sha, disk(&["/c/cas/needed-a"]), &mut hydrator);
    assert_eq!(failed.err().map(|e| e.message), Some("no such file".to_string()));
}

fn planned(store: &[&str], hashes: &[&str]) -> Vec<String> {
    let files = hashes
        .iter()
        .enumerate()
        .map(|(i, h)| (format!("f{}", i), Some(info(h))))
        .collect();
    let idx = index_pointers("s", "r", files);
    assert!(idx.entries.iter().all(|e| pointer_can_be_cut(&e.file_info)));
    let mut hydrator = PointerHashHydrator::new(strings(store));
    let on_disk: Vec<String> = store.iter().map(|p| format!("/c/{}", p)).collect();
    let reader = disk(&on_disk.iter().map(|s| s.as_str()).collect::<Vec<_>>());
    plan_reachable_cas(&idx, "/c", "s", reader, &mut hydrator)
        .ok()
        .expect("plan")
        .required_cas_relpaths
}

#[test]
fn pointers_need_the_files_that_carry_their_hash() {
    let store = ["xorbs/AB12.x", "cas/other", "xorbs/rest", "tmp/ab12", "shards/0123456789abcdef-s"];
    assert_eq!(planned(&store, &[" ab12 "]), strings(&["xorbs/AB12.x"]));
    assert_eq!(planned(&store, &[HASH]), strings(&["shards/0123456789abcdef-s"]));
    assert_eq!(planned(&store, &["none"]), strings(&["xorbs/AB12.x", "xorbs/rest"]));
    assert_eq!(planned(&store, &["  "]), Vec::<String>::new());
    assert_eq!(
        planned(&store, &["ab12", "other"]),
        strings(&["cas/other", "xorbs/AB12.x"])
    );
    assert!(!pointer_can_be_cut(&info("0123456789abcdeé0")));
    assert!(pointer_can_be_cut(&info("0123456789abcdé0")));
    assert!(pointer_can_be_cut(&info("é")));
    assert_eq!(planned(&["cas/0123456789abcdé", "xorbs/a"], &["0123456789abcdé0"]), strings(&["cas/0123456789abcdé"]));
}

#[test]
fn git_answers_are_taken_as_they_are() {
    assert_eq!(repo_root(Some("/r".to_string())).ok(), Some("/r".to_string()));
    assert_eq!(
        repo_root(None).err().map(|e| e.message),
        Some("bare repositories are not supported".to_string())
    );
    assert_eq!(head_sha(Some("s".to_string())).ok(), Some("s".to_string()));
    assert_eq!(git_head_sha(None).err().map(|e| e.message), Some("invalid HEAD".to_string()));
    assert_eq!(head_refname_or_head(true, Some("main".to_string())), "main");
    assert_eq!(head_refname_or_head(true, None), "HEAD");
    assert_eq!(head_refname_or_head(false, Some("main".to_string())), "HEAD");
    assert_eq!(git_current_branch_short(true, Some("main".to_string())), Some("main".to_string()));
    assert_eq!(git_current_branch_short(false, Some("main".to_string())), None);
    assert!(run_git(true).is_ok());
    assert_eq!(run_git(false).err().map(|e| e.message), Some("git command failed".to_string()));
}

#[test]
fn repository_files_are_read_and_extended() {
    assert_eq!(REPO_ID_FILE, ".xet_ai_repo_id");
    assert_eq!(repo_id_path("/r"), "/r/.xet_ai_repo_id");
    assert_eq!(resolve_path("/r", "a"), "/r/a");
    assert_eq!(resolve_path("/r", "/a"), "/a");
    assert_eq!(load_repo_id(Ok(" id \n".to_string())).ok(), Some("id".to_string()));
    assert_eq!(
        load_repo_id(Ok(" \n".to_string())).err().map(|e| e.message),
        Some(".xet_ai_repo_id is empty".to_string())
    );
    assert_eq!(
        load_repo_id(Err(Error::saying("gone"))).err().map(|e| e.message),
        Some("missing .xet_ai_repo_id; run `xet-ai init`: gone".to_string())
    );
    let once = append_if_missing("a".to_string(), "b").unwrap();
    assert_eq!(once, "a\nb\n");
    assert_eq!(append_if_missing(once, "b"), None);
    assert_eq!(append_if_missing(String::new(), "b"), Some("b\n".to_string()));
}

fn output(success: bool, stdout: &[u8], stderr: &[u8]) -> Result<GitOutput, Error> {
    Ok(GitOutput { success, stdout: stdout.to_vec(), stderr: stderr.to_vec() })
}

#[test]
fn git_output_is_captured() {
    assert_eq!(root_by_git(output(true, b"/r\n", b"")).ok(), Some("/r".to_string()));
    assert_eq!(
        root_by_git(output(false, b"", b"fatal\xff\n")).err().map(|e| e.message),
        Some("not inside a git repository: fatal\u{fffd}\n".to_string())
    );
    assert_eq!(
        run_git_capture_stdout(output(false, b"", b"no")).err().map(|e| e.message),
        Some("git command failed: no".to_string())
    );
    assert_eq!(sha_by_git(output(true, b" s \n", b"")).ok(), Some("s".to_string()));
    assert_eq!(
        sha_by_git(Err(Error::saying("gone"))).err().map(|e| e.message),
        Some("failed to execute git: gone".to_string())
    );
    assert_eq!(
        branch_by_git(output(true, b"main\n", b"")).ok(),
        Some(Some("main".to_string()))
    );
    assert_eq!(branch_by_git(output(false, b"", b"")).ok(), Some(None));
    assert!(branch_by_git(Err(Error::saying("gone"))).is_err());
}

#[test]
fn missing_files_are_copied_as_they_are() {
    assert!(sync_included("xorbs/global_dedup_lookup.db/lock.mdb"));
    assert!(!sync_included("tmp/a"));
    let found = |relpath: &str, size: u64, present: bool| Found {
        relpath: relpath.to_string(),
        size,
        present,
    };
    let files = vec![
        found("cas/a", 3, false),
        found("cas/b", 4, true),
        found("tmp/c", 5, false),
        found("xorbs/d", 6, false),
    ];
    let (copies, summary) = copy_missing_recursive("s", "d", &files);
    assert_eq!(
        copies,
        vec![
            ("s/cas/a".to_string(), "d/cas/a".to_string()),
            ("s/xorbs/d".to_string(), "d/xorbs/d".to_string())
        ]
    );
    assert_eq!(summary.files_copied, 2);
    assert_eq!(summary.bytes_copied, 9);
    assert_eq!(config_path("/r"), "/r/.xet_ai/config.toml");
    assert!(AppConfig::load(None).remotes.keys().is_empty());
}
