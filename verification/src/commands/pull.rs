//! A pull, as a conversation: which commit is meant, where its manifest comes from, and
//! what is kept of it.

use vstd::prelude::*;

use crate::commands::naming::{manifest_at, manifest_path};
use crate::commands::push::{copied_line, copied_line_of, outcome_told, push_goes_on, push_tx, PushEvent, PushMove, PushState};
use crate::commands::transactions::{lemma_publish_is_read_back, reads_back, TxView};
use crate::commands::upkeep::told_texts;
use crate::error::{told_text, Error};
use crate::pointers::{index_file, pointer_cache_path};
use crate::remote::{new_calls, RemoteCall, RemoteSession, RemoteStore};
use crate::sync::manifest::Manifest;
use crate::sync::refs::{is_sha1, is_sha1_hex};
use crate::sync::roundtrip::{kept_after, truthful, Objects};
use crate::sync::transfer::{read_of, SyncSummary};
use crate::sync::world::Files;
use crate::text::{decimal, decimal_text, lossy_text, read_text, texts, trim_text, trimmed};

verus! {

/// What is said of a remote that was never pushed to.
pub open spec fn never_pushed_text() -> Seq<char> {
    "remote has no data HEAD; run `xet-ai push` first"@
}

/// The object that says which commit is meant, and what is said where it is not there.
pub open spec fn ref_object(git_ref: Option<Seq<char>>) -> (Seq<char>, Seq<char>) {
    match git_ref {
        None => ("manifests/HEAD"@, never_pushed_text()),
        Some(v) => ("refs/"@ + v, "remote ref not found: refs/"@ + v),
    }
}

/// The commit is given, and nothing has to be asked for it.
pub open spec fn is_given(git_ref: Option<Seq<char>>) -> bool {
    git_ref matches Some(v) && is_sha1(v)
}

/// How many calls it takes to find out which commit is meant.
pub open spec fn ref_calls(git_ref: Option<Seq<char>>) -> int {
    if is_given(git_ref) {
        0
    } else {
        1
    }
}

/// The calls find out which commit is meant.
pub open spec fn resolved_by(
    calls: Seq<RemoteCall>,
    git_ref: Option<Seq<char>>,
    outcome: Result<Seq<char>, Seq<char>>,
) -> bool {
    if is_given(git_ref) {
        calls.len() == 0 && outcome == Ok::<Seq<char>, Seq<char>>(git_ref->0)
    } else {
        &&& calls.len() == 1
        &&& read_of(calls[0], ref_object(git_ref).0) matches Some(reply)
        &&& outcome == match reply {
            Err(e) => Err::<Seq<char>, Seq<char>>(e),
            Ok(None) => Err(ref_object(git_ref).1),
            Ok(Some(bytes)) => Ok(trim_text(lossy_text(bytes))),
        }
    }
}

/// The commit that a ref, or else the HEAD of the remote, names.
pub fn resolve_remote_ref<S: RemoteStore>(
    store: &mut RemoteSession<S>,
    git_ref: &Option<String>,
) -> (r: Result<String, Error>)
    ensures
        final(store).continues(old(store)),
        old(store).log().is_prefix_of(final(store).log()),
        resolved_by(
            new_calls(old(store).log(), final(store).log()),
            git_ref.deep_view(),
            told_text(r),
        ),
{
    let (object, missing) = match git_ref {
        None => (
            "manifests/HEAD".to_owned(),
            "remote has no data HEAD; run `xet-ai push` first".to_owned(),
        ),
        Some(v) => {
            if is_sha1_hex(v.as_str()) {
                return Ok(v.clone());
            }
            let mut object = "refs/".to_owned();
            object.append(v.as_str());
            let mut missing = "remote ref not found: refs/".to_owned();
            missing.append(v.as_str());
            (object, missing)
        },
    };
    let reply = store.read_bytes(object.as_str());
    match reply {
        Err(e) => Err(e),
        Ok(None) => Err(Error::new(missing)),
        Ok(Some(bytes)) => Ok(trimmed(read_text(bytes.as_slice()).as_str())),
    }
}

/// The commit that the HEAD of a remote names: what `remote head` tells.
pub fn remote_head<S: RemoteStore>(store: &mut RemoteSession<S>) -> (r: Result<String, Error>)
    ensures
        final(store).continues(old(store)),
        old(store).log().is_prefix_of(final(store).log()),
        resolved_by(
            new_calls(old(store).log(), final(store).log()),
            None,
            told_text(r),
        ),
{
    resolve_remote_ref(store, &None)
}

/// What a pull asks for.
pub enum PullAsk {
    /// Build the manifest of everything that the remote keeps, with these as its identity
    /// and its commit.
    Build { repo_id: String, sha: String },
    /// Make a manifest of these bytes.
    Parse { sha: String, bytes: Vec<u8> },
    /// Keep this manifest at this path, and bring the files that it lists.
    Fetch { manifest_path: String, manifest: Manifest },
    /// Keep the index of pointers at this path.
    KeepPointers { path: String, bytes: Vec<u8> },
}

/// What a pull asks for, by view.
pub enum PullWish {
    Build { repo_id: Seq<char>, sha: Seq<char> },
    Parse { sha: Seq<char>, bytes: Seq<u8> },
    Fetch { manifest_path: Seq<char>, manifest: Manifest },
    KeepPointers { path: Seq<char>, bytes: Seq<u8> },
}

impl View for PullAsk {
    type V = PullWish;

    open spec fn view(&self) -> PullWish {
        match *self {
            PullAsk::Build { repo_id, sha } => PullWish::Build {
                repo_id: repo_id@,
                sha: sha@,
            },
            PullAsk::Parse { sha, bytes } => PullWish::Parse { sha: sha@, bytes: bytes@ },
            PullAsk::Fetch { manifest_path, manifest } => PullWish::Fetch {
                manifest_path: manifest_path@,
                manifest,
            },
            PullAsk::KeepPointers { path, bytes } => PullWish::KeepPointers {
                path: path@,
                bytes: bytes@,
            },
        }
    }
}

/// What came of what a pull asked for.
pub enum PullEvent {
    /// This is the manifest.
    Loaded { manifest: Manifest },
    /// The files were brought.
    Fetched { summary: SyncSummary },
    /// The index of pointers was kept.
    Kept,
    Failed { error: Error },
}

/// How far a pull has come.
#[derive(Clone, Copy)]
pub enum PullPhase {
    Loading,
    Fetching,
    Keeping { summary: SyncSummary },
}

/// A pull of a commit.
pub struct Pull {
    repo_root: String,
    verbose: bool,
    sha: String,
    phase: PullPhase,
}

/// A pull of a commit, by view.
pub struct PullAt {
    pub repo_root: Seq<char>,
    pub verbose: bool,
    pub sha: Seq<char>,
    pub at: PullPhase,
}

impl View for Pull {
    type V = PullAt;

    closed spec fn view(&self) -> PullAt {
        PullAt {
            repo_root: self.repo_root@,
            verbose: self.verbose,
            sha: self.sha@,
            at: self.phase,
        }
    }
}

/// How a pull goes on: with something to ask for, or not at all.
pub enum PullStep {
    Ask { ask: PullAsk, then: Pull },
    Finished { outcome: Result<Vec<String>, Error> },
}

/// A step, by view.
pub enum PullMove {
    Ask { ask: PullWish, then: PullAt },
    Finished { outcome: Result<Seq<Seq<char>>, Seq<char>> },
}

impl View for PullStep {
    type V = PullMove;

    open spec fn view(&self) -> PullMove {
        match *self {
            PullStep::Ask { ask, then } => PullMove::Ask { ask: ask@, then: then@ },
            PullStep::Finished { outcome } => PullMove::Finished { outcome: told_texts(outcome) },
        }
    }
}

/// The pull failed.
pub open spec fn pull_fails(e: Seq<char>) -> PullMove {
    PullMove::Finished { outcome: Err(e) }
}

/// Where the remote keeps the manifest of a commit.
pub open spec fn manifest_object(sha: Seq<char>) -> Seq<char> {
    "manifests/"@ + sha + ".json"@
}

/// Where the remote keeps the index of pointers of a commit.
pub open spec fn pointers_object(sha: Seq<char>) -> Seq<char> {
    "pointers/"@ + sha + ".json"@
}

/// The calls find the manifest of a commit, and the pull goes on with it.
pub open spec fn manifest_talk(
    job: PullAt,
    all_cas: bool,
    calls: Seq<RemoteCall>,
    step: PullMove,
) -> bool {
    &&& calls.len() == 1
    &&& if all_cas {
        &&& calls[0] matches RemoteCall::Capabilities { reply: caps }
        &&& step == if caps.supports_list_prefix {
            PullMove::Ask {
                ask: PullWish::Build { repo_id: "all-cas"@, sha: job.sha },
                then: job,
            }
        } else {
            pull_fails(
                "remote backend does not support --all-cas pull (list_prefix unavailable)"@,
            )
        }
    } else {
        &&& read_of(calls[0], manifest_object(job.sha)) matches Some(reply)
        &&& step == match reply {
            Err(e) => pull_fails(e),
            Ok(None) => pull_fails("manifest missing: "@ + job.sha),
            Ok(Some(bytes)) => PullMove::Ask {
                ask: PullWish::Parse { sha: job.sha, bytes },
                then: job,
            },
        }
    }
}

/// The pull begins: the commit is found, then its manifest.
pub open spec fn pull_begun(
    repo_root: Seq<char>,
    git_ref: Option<Seq<char>>,
    verbose: bool,
    all_cas: bool,
    calls: Seq<RemoteCall>,
    step: PullMove,
) -> bool {
    let k = ref_calls(git_ref);
    &&& calls.len() >= k
    &&& exists|o: Result<Seq<char>, Seq<char>>|
        {
            &&& #[trigger] resolved_by(calls.take(k), git_ref, o)
            &&& match o {
                Err(e) => calls.len() == k && step == pull_fails(e),
                Ok(sha) => manifest_talk(
                    PullAt { repo_root, verbose, sha, at: PullPhase::Loading },
                    all_cas,
                    calls.skip(k),
                    step,
                ),
            }
        }
}

/// What a pull tells, if it is to tell anything.
pub open spec fn pull_report(m: PullAt, summary: SyncSummary) -> Seq<Seq<char>> {
    if m.verbose {
        seq![
            "pulled manifest "@ + m.sha + " ("@ + manifest_at(m.repo_root, m.sha) + ")"@,
            copied_line(summary),
            "verified "@ + decimal(summary.files_verified as nat) + " files"@,
        ]
    } else {
        Seq::empty()
    }
}

/// The calls that a pull makes at a step, and how it goes on.
pub open spec fn pull_goes_on(
    m: PullAt,
    event: PullEvent,
    calls: Seq<RemoteCall>,
    step: PullMove,
) -> bool {
    match (m.at, event) {
        (_, PullEvent::Failed { error }) => calls.len() == 0 && step == pull_fails(error@),
        (PullPhase::Loading, PullEvent::Loaded { manifest }) => calls.len() == 0 && step == (
        PullMove::Ask {
            ask: PullWish::Fetch { manifest_path: manifest_at(m.repo_root, m.sha), manifest },
            then: PullAt { at: PullPhase::Fetching, ..m },
        }),
        (PullPhase::Fetching, PullEvent::Fetched { summary }) => {
            &&& calls.len() == 1
            &&& read_of(calls[0], pointers_object(m.sha)) matches Some(reply)
            &&& step == match reply {
                Err(e) => pull_fails(e),
                Ok(None) => PullMove::Finished { outcome: Ok(pull_report(m, summary)) },
                Ok(Some(bytes)) => PullMove::Ask {
                    ask: PullWish::KeepPointers { path: index_file(m.repo_root, m.sha), bytes },
                    then: PullAt { at: PullPhase::Keeping { summary }, ..m },
                },
            }
        },
        (PullPhase::Keeping { summary }, PullEvent::Kept) => calls.len() == 0 && step == (
        PullMove::Finished { outcome: Ok(pull_report(m, summary)) }),
        (_, _) => calls.len() == 0 && step == pull_fails("unexpected event in a pull"@),
    }
}

/// Begins a pull of what `git_ref` names, or else of what the remote has last. With
/// `all_cas`, everything is brought that the remote keeps.
pub fn pull<S: RemoteStore>(
    repo_root: &str,
    git_ref: Option<String>,
    verbose: bool,
    all_cas: bool,
    store: &mut RemoteSession<S>,
) -> (r: PullStep)
    ensures
        final(store).continues(old(store)),
        old(store).log().is_prefix_of(final(store).log()),
        pull_begun(
            repo_root@,
            git_ref.deep_view(),
            verbose,
            all_cas,
            new_calls(old(store).log(), final(store).log()),
            r@,
        ),
{
    let ghost log0 = store.log();
    let ghost wanted = git_ref.deep_view();
    let ghost k = ref_calls(wanted);
    let found = resolve_remote_ref(store, &git_ref);
    let ghost log1 = store.log();
    let ghost o = told_text(found);
    proof {
        assert(resolved_by(new_calls(log0, log1).take(k), wanted, o));
    }
    let sha = match found {
        Err(e) => return PullStep::Finished { outcome: Err(e) },
        Ok(sha) => sha,
    };
    let job = Pull { repo_root: repo_root.to_owned(), verbose, sha, phase: PullPhase::Loading };
    if all_cas {
        let caps = store.capabilities();
        proof {
            let calls = new_calls(log0, store.log());
            assert(resolved_by(calls.take(k), wanted, o));
        }
        if !caps.supports_list_prefix {
            return PullStep::Finished {
                outcome: Err(
                    Error::saying(
                        "remote backend does not support --all-cas pull (list_prefix unavailable)",
                    ),
                ),
            };
        }
        let sha = job.sha.clone();
        return PullStep::Ask {
            ask: PullAsk::Build { repo_id: "all-cas".to_owned(), sha },
            then: job,
        };
    }
    let mut object = "manifests/".to_owned();
    object.append(job.sha.as_str());
    object.append(".json");
    let reply = store.read_bytes(object.as_str());
    proof {
        let calls = new_calls(log0, store.log());
        assert(resolved_by(calls.take(k), wanted, o));
    }
    match reply {
        Err(e) => PullStep::Finished { outcome: Err(e) },
        Ok(None) => {
            let mut m = "manifest missing: ".to_owned();
            m.append(job.sha.as_str());
            PullStep::Finished { outcome: Err(Error::new(m)) }
        },
        Ok(Some(bytes)) => {
            let sha = job.sha.clone();
            PullStep::Ask { ask: PullAsk::Parse { sha, bytes }, then: job }
        },
    }
}

impl Pull {
    fn at(self, phase: PullPhase) -> (r: Pull)
        ensures
            r@ == (PullAt { at: phase, ..self@ }),
    {
        Pull { repo_root: self.repo_root, verbose: self.verbose, sha: self.sha, phase }
    }

    fn report(&self, summary: SyncSummary) -> (r: Vec<String>)
        ensures
            texts(r@) == pull_report(self@, summary),
    {
        let mut out: Vec<String> = Vec::new();
        if self.verbose {
            let mut m = "pulled manifest ".to_owned();
            m.append(self.sha.as_str());
            m.append(" (");
            m.append(manifest_path(self.repo_root.as_str(), self.sha.as_str()).as_str());
            m.append(")");
            out.push(m);
            out.push(copied_line_of(summary));
            let mut m = "verified ".to_owned();
            m.append(decimal_text(summary.files_verified).as_str());
            m.append(" files");
            out.push(m);
        }
        out
    }

    /// Goes on after an event.
    pub fn next<S: RemoteStore>(self, event: PullEvent, store: &mut RemoteSession<S>) -> (r:
        PullStep)
        ensures
            final(store).continues(old(store)),
            old(store).log().is_prefix_of(final(store).log()),
            pull_goes_on(
                self@,
                event,
                new_calls(old(store).log(), final(store).log()),
                r@,
            ),
    {
        match (self.phase, event) {
            (_, PullEvent::Failed { error }) => PullStep::Finished { outcome: Err(error) },
            (PullPhase::Loading, PullEvent::Loaded { manifest }) => {
                let path = manifest_path(self.repo_root.as_str(), self.sha.as_str());
                PullStep::Ask {
                    ask: PullAsk::Fetch { manifest_path: path, manifest },
                    then: self.at(PullPhase::Fetching),
                }
            },
            (PullPhase::Fetching, PullEvent::Fetched { summary }) => {
                let mut object = "pointers/".to_owned();
                object.append(self.sha.as_str());
                object.append(".json");
                let reply = store.read_bytes(object.as_str());
                match reply {
                    Err(e) => PullStep::Finished { outcome: Err(e) },
                    Ok(None) => PullStep::Finished { outcome: Ok(self.report(summary)) },
                    Ok(Some(bytes)) => {
                        let path = pointer_cache_path(self.repo_root.as_str(), self.sha.as_str());
                        PullStep::Ask {
                            ask: PullAsk::KeepPointers { path, bytes },
                            then: self.at(PullPhase::Keeping { summary }),
                        }
                    },
                }
            },
            (PullPhase::Keeping { summary }, PullEvent::Kept) => PullStep::Finished {
                outcome: Ok(self.report(summary)),
            },
            (_, _) => PullStep::Finished {
                outcome: Err(Error::saying("unexpected event in a pull")),
            },
        }
    }
}

/// A pull changes nothing on the remote: whatever it asks, it only reads.
pub proof fn lemma_pull_only_reads(
    m: PullAt,
    event: PullEvent,
    calls: Seq<RemoteCall>,
    step: PullMove,
)
    requires
        pull_goes_on(m, event, calls, step),
    ensures
        forall|i: int| 0 <= i < calls.len() ==> #[trigger] calls[i] is Read,
{
}

/// The same holds of its beginning.
pub proof fn lemma_pull_begins_by_reading(
    repo_root: Seq<char>,
    git_ref: Option<Seq<char>>,
    verbose: bool,
    all_cas: bool,
    calls: Seq<RemoteCall>,
    step: PullMove,
)
    requires
        pull_begun(repo_root, git_ref, verbose, all_cas, calls, step),
    ensures
        forall|i: int|
            0 <= i < calls.len() ==> #[trigger] calls[i] is Read || calls[i] is Capabilities,
{
}

/// A push that ended well left a remote, if it works, whose ref and HEAD name the commit,
/// and whose manifest is the one that was pushed.
pub proof fn lemma_push_is_read_back(
    w: Files,
    r: Objects,
    m: PushState,
    event: PushEvent,
    calls: Seq<RemoteCall>,
    step: PushMove,
)
    requires
        m.at is Keeping,
        event is Kept,
        push_goes_on(m, event, calls, step),
        outcome_told(step) matches Some(outcome) && outcome is Ok,
        truthful(w, r, calls),
        is_sha1(m.git_sha),
    ensures
        reads_back(kept_after(w, r, calls), push_tx(m, event->publication)),
{
    let tx = push_tx(m, event->publication);
    lemma_publish_is_read_back(w, r, calls, tx);
}

/// Where a remote has what a transaction published, a pull finds it: under its ref, under
/// the HEAD, and under its commit, it is the manifest of the transaction that the pull
/// goes on with.
pub proof fn lemma_pull_finds_what_was_pushed(
    w: Files,
    r: Objects,
    tx: TxView,
    repo_root: Seq<char>,
    git_ref: Option<Seq<char>>,
    verbose: bool,
    calls: Seq<RemoteCall>,
    step: PullMove,
)
    requires
        reads_back(r, tx),
        is_sha1(tx.git_sha),
        git_ref == None::<Seq<char>> || git_ref == Some(tx.git_sha) || (git_ref == Some(tx.refname)
            && !is_sha1(tx.refname)),
        truthful(w, r, calls),
        pull_begun(repo_root, git_ref, verbose, false, calls, step),
    ensures
        step matches PullMove::Ask { ask, then } && ask == (PullWish::Parse {
            sha: tx.git_sha,
            bytes: tx.manifest_json,
        }) && then.sha == tx.git_sha,
{
    reveal_with_fuel(truthful, 3);
}

} // verus!
