//! Verified transfer from a remote: a local file that is already there is held to the size
//! and the hash that the manifest gives, and so is one that was just copied.

use vstd::prelude::*;

use crate::error::told;
use crate::files::{misfit, misfit_text, FileAnswer, FileOp, FileReply, FileRequest, Move, Step};
use crate::paths::{join, join_path};
use crate::remote::{new_calls, RemoteCall, RemoteSession, RemoteStore};
use crate::sync::local::over;
use crate::sync::manifest::{entry_views, EntryView, Manifest};
use crate::sync::runs::{counted, remote_missing, remote_missing_text};
use crate::sync::transfer::{
    add_file, fits, hash_mismatch, hash_mismatch_text, lemma_total_of_part, no_transfer,
    not_materialized, not_materialized_text, object_path, object_path_of, size_mismatch, size_mismatch_text, tally, SyncSummary,
    VerifyPolicy, HASH_VERIFY_LIMIT,
};
use crate::text::same_text;

verus! {

/// What a job wants of the remote before it goes on.
pub enum RemoteAsk {
    /// Nothing.
    Nothing,
    /// Is there such an object?
    Exists { path: Seq<char> },
    /// Copy the object to a local file.
    CopyOut { path: Seq<char>, local: Seq<char> },
}

/// The calls are what the job wants of the remote, and `reply` is what it was told.
pub open spec fn answered(
    ask: RemoteAsk,
    calls: Seq<RemoteCall>,
    reply: Result<bool, Seq<char>>,
) -> bool {
    match ask {
        RemoteAsk::Nothing => calls.len() == 0,
        RemoteAsk::Exists { path } => calls == seq![RemoteCall::Exists { path, reply }],
        RemoteAsk::CopyOut { path, local } => calls == seq![
            RemoteCall::CopyOut {
                path,
                local,
                reply: match reply {
                    Ok(_) => Ok(()),
                    Err(e) => Err(e),
                },
            },
        ],
    }
}

/// Whether a job that checks a file is at its size or at its hash, and whether the file
/// was copied by then.
#[derive(Clone, Copy)]
pub enum FetchPhase {
    /// Is there a local file?
    CheckingBefore,
    /// The local file that is there is being hashed.
    HashingBefore,
    /// Is there a local file, now that it was copied?
    CheckingAfter,
    /// The copied file is being hashed.
    HashingAfter,
}

/// A job that brings a remote object to a local file, unless that is there already, and
/// verifies what is then there.
pub struct FetchJob {
    remote: String,
    local: String,
    size: u64,
    sha256: String,
    limit: u64,
    phase: FetchPhase,
}

/// A fetch, by view.
pub struct FetchState {
    pub remote: Seq<char>,
    pub local: Seq<char>,
    pub size: u64,
    pub sha256: Seq<char>,
    pub limit: u64,
    pub at: FetchPhase,
}

impl View for FetchJob {
    type V = FetchState;

    closed spec fn view(&self) -> FetchState {
        FetchState {
            remote: self.remote@,
            local: self.local@,
            size: self.size,
            sha256: self.sha256@,
            limit: self.limit,
            at: self.phase,
        }
    }
}

/// What the job wants of the remote when it gets a reply: the object, if there is no
/// local file.
pub open spec fn fetch_ask(m: FetchState, reply: FileAnswer) -> RemoteAsk {
    if m.at is CheckingBefore && reply is Missing {
        RemoteAsk::CopyOut { path: m.remote, local: m.local }
    } else {
        RemoteAsk::Nothing
    }
}

/// What a check is judged by: a file that is there must have the size and, up to the
/// limit, the hash.
pub open spec fn judged(
    m: FetchState,
    bytes: u64,
    hashing: FetchPhase,
    good: u64,
) -> Move<FetchState, u64> {
    if bytes != m.size {
        over(Err(size_mismatch_text(m.local, bytes as nat, m.size)))
    } else if m.size <= m.limit {
        Move::Ask {
            op: FileOp::Sha256 { path: m.local },
            then: FetchState { at: hashing, ..m },
        }
    } else {
        over(Ok(good))
    }
}

/// How the job goes on after a reply, and after what the remote said.
pub open spec fn fetch_next(
    m: FetchState,
    reply: FileAnswer,
    remote: Result<bool, Seq<char>>,
) -> Move<FetchState, u64> {
    match (m.at, reply) {
        (_, FileAnswer::Failed { error }) => over(Err(error)),
        (FetchPhase::CheckingBefore, FileAnswer::Missing) => match remote {
            Err(e) => over(Err(e)),
            Ok(_) => Move::Ask {
                op: FileOp::Stat { path: m.local },
                then: FetchState { at: FetchPhase::CheckingAfter, ..m },
            },
        },
        (FetchPhase::CheckingBefore, FileAnswer::Size { bytes }) => judged(
            m,
            bytes,
            FetchPhase::HashingBefore,
            0,
        ),
        (FetchPhase::HashingBefore, FileAnswer::Hash { sha256 }) => if sha256 == m.sha256 {
            over(Ok(0))
        } else {
            over(Err(hash_mismatch_text(m.local, m.sha256, sha256)))
        },
        (FetchPhase::CheckingAfter, FileAnswer::Missing) => over(
            Err(not_materialized_text(m.local)),
        ),
        (FetchPhase::CheckingAfter, FileAnswer::Size { bytes }) => judged(
            m,
            bytes,
            FetchPhase::HashingAfter,
            m.size,
        ),
        (FetchPhase::HashingAfter, FileAnswer::Hash { sha256 }) => if sha256 == m.sha256 {
            over(Ok(m.size))
        } else {
            over(Err(hash_mismatch_text(m.local, m.sha256, sha256)))
        },
        (_, _) => over(Err(misfit_text())),
    }
}

/// A fetch succeeds only on a local file that was found and verified: it has the size, and
/// the hash too where the size is within the limit. Up to the limit a file is hashed only
/// once its size was found right, and what is told to be copied is the whole file or, where
/// it was there, nothing.
pub proof fn lemma_fetch_verifies(
    m: FetchState,
    reply: FileAnswer,
    remote: Result<bool, Seq<char>>,
)
    ensures
        match fetch_next(m, reply, remote) {
            Move::Finished { outcome: Ok(copied) } => {
                &&& match reply {
                    FileAnswer::Size { bytes } => bytes == m.size && m.size > m.limit,
                    FileAnswer::Hash { sha256 } => sha256 == m.sha256 && (m.at is HashingBefore
                        || m.at is HashingAfter),
                    _ => false,
                }
                &&& copied == if m.at is CheckingBefore || m.at is HashingBefore {
                    0
                } else {
                    m.size
                }
            },
            Move::Ask { op, then } => match then.at {
                FetchPhase::HashingBefore => {
                    &&& m.at is CheckingBefore
                    &&& reply == (FileAnswer::Size { bytes: m.size })
                    &&& op == (FileOp::Sha256 { path: m.local })
                },
                FetchPhase::HashingAfter => {
                    &&& m.at is CheckingAfter
                    &&& reply == (FileAnswer::Size { bytes: m.size })
                    &&& op == (FileOp::Sha256 { path: m.local })
                },
                _ => true,
            },
            _ => true,
        },
{
}

impl FetchJob {
    fn at(self, phase: FetchPhase) -> (r: FetchJob)
        ensures
            r@ == (FetchState { at: phase, ..self@ }),
    {
        FetchJob {
            remote: self.remote,
            local: self.local,
            size: self.size,
            sha256: self.sha256,
            limit: self.limit,
            phase,
        }
    }

    fn judge(self, bytes: u64, hashing: FetchPhase, good: u64) -> (r: Step<FetchJob, u64>)
        ensures
            r@ == judged(self@, bytes, hashing, good),
    {
        if bytes != self.size {
            let e = size_mismatch(self.local.as_str(), bytes, self.size);
            Step::Finished { outcome: Err(e) }
        } else if self.size <= self.limit {
            let path = self.local.clone();
            Step::Ask { request: FileRequest::Sha256 { path }, then: self.at(hashing) }
        } else {
            Step::Finished { outcome: Ok(good) }
        }
    }

    fn judge_hash(self, sha256: String, good: u64) -> (r: Step<FetchJob, u64>)
        ensures
            r@ == if sha256@ == self@.sha256 {
                over::<FetchState, u64>(Ok(good))
            } else {
                over(Err(hash_mismatch_text(self@.local, self@.sha256, sha256@)))
            },
    {
        if same_text(sha256.as_str(), self.sha256.as_str()) {
            Step::Finished { outcome: Ok(good) }
        } else {
            let e = hash_mismatch(self.local.as_str(), self.sha256.as_str(), sha256.as_str());
            Step::Finished { outcome: Err(e) }
        }
    }

    /// Goes on after a reply. Finishes with the number of bytes that were copied.
    pub fn next<S: RemoteStore>(
        self,
        reply: FileReply,
        remote_store: &mut RemoteSession<S>,
    ) -> (r: Step<FetchJob, u64>)
        ensures
            final(remote_store).continues(old(remote_store)),
            old(remote_store).log().is_prefix_of(final(remote_store).log()),
            exists|said: Result<bool, Seq<char>>|
                {
                    &&& #[trigger] answered(
                        fetch_ask(self@, reply@),
                        new_calls(old(remote_store).log(), final(remote_store).log()),
                        said,
                    )
                    &&& r@ == fetch_next(self@, reply@, said)
                },
    {
        let ghost log0 = remote_store.log();
        let ghost ask = fetch_ask(self@, reply@);
        let ghost no_calls = new_calls(log0, log0);
        let ghost quiet = Ok::<bool, Seq<char>>(true);
        match (self.phase, reply) {
            (FetchPhase::CheckingBefore, FileReply::Missing) => {
                let copied = remote_store.copy_to_local_atomic(
                    self.remote.as_str(),
                    self.local.as_str(),
                );
                let ghost said: Result<bool, Seq<char>> = match told(copied) {
                    Ok(_) => Ok(true),
                    Err(e) => Err(e),
                };
                proof {
                    assert(new_calls(log0, remote_store.log()) =~= seq![
                        remote_store.log().last(),
                    ]);
                    assert(answered(ask, new_calls(log0, remote_store.log()), said));
                }
                match copied {
                    Err(e) => Step::Finished { outcome: Err(e) },
                    Ok(_) => {
                        let path = self.local.clone();
                        Step::Ask {
                            request: FileRequest::Stat { path },
                            then: self.at(FetchPhase::CheckingAfter),
                        }
                    },
                }
            },
            (phase, reply) => {
                proof {
                    assert(answered(ask, no_calls, quiet));
                }
                match (phase, reply) {
                    (_, FileReply::Failed { error }) => Step::Finished { outcome: Err(error) },
                    (FetchPhase::CheckingBefore, FileReply::Size { bytes }) => self.judge(
                        bytes,
                        FetchPhase::HashingBefore,
                        0,
                    ),
                    (FetchPhase::HashingBefore, FileReply::Hash { sha256 }) => self.judge_hash(
                        sha256,
                        0,
                    ),
                    (FetchPhase::CheckingAfter, FileReply::Missing) => Step::Finished {
                        outcome: Err(not_materialized(self.local.as_str())),
                    },
                    (FetchPhase::CheckingAfter, FileReply::Size { bytes }) => {
                        let size = self.size;
                        self.judge(bytes, FetchPhase::HashingAfter, size)
                    },
                    (FetchPhase::HashingAfter, FileReply::Hash { sha256 }) => {
                        let size = self.size;
                        self.judge_hash(sha256, size)
                    },
                    (_, _) => Step::Finished { outcome: Err(misfit()) },
                }
            },
        }
    }
}

/// A fetch before its first reply.
pub open spec fn fetch_job(
    remote: Seq<char>,
    local: Seq<char>,
    size: u64,
    sha256: Seq<char>,
    limit: u64,
) -> FetchState {
    FetchState { remote, local, size, sha256, limit, at: FetchPhase::CheckingBefore }
}

/// How a fetch begins.
pub open spec fn fetch_start(job: FetchState) -> Move<FetchState, u64> {
    Move::Ask { op: FileOp::Stat { path: job.local }, then: job }
}

/// Begins to bring a remote object to a local file.
pub fn copy_remote_to_local_atomic_verified(
    remote_relpath: &str,
    local_path: &str,
    expected_size: u64,
    expected_sha256: &str,
    policy: VerifyPolicy,
) -> (r: Step<FetchJob, u64>)
    ensures
        r@ == fetch_start(
            fetch_job(
                remote_relpath@,
                local_path@,
                expected_size,
                expected_sha256@,
                policy.hash_verify_limit,
            ),
        ),
{
    Step::Ask {
        request: FileRequest::Stat { path: local_path.to_owned() },
        then: FetchJob {
            remote: remote_relpath.to_owned(),
            local: local_path.to_owned(),
            size: expected_size,
            sha256: expected_sha256.to_owned(),
            limit: policy.hash_verify_limit,
            phase: FetchPhase::CheckingBefore,
        },
    }
}

/// A job that brings the files of a manifest from a remote to a local content store.
pub struct PullRun<'m> {
    manifest: &'m Manifest,
    root: String,
    at: usize,
    summary: SyncSummary,
    job: FetchJob,
}

/// What stays the same while the files of a manifest are brought.
pub struct PullPlan {
    pub entries: Seq<EntryView>,
    pub root: Seq<char>,
}

/// A pull of a manifest's files, by view.
pub struct PullState {
    pub plan: PullPlan,
    /// The entry that is being worked on.
    pub at: int,
    /// What was done for the entries before it.
    pub summary: SyncSummary,
    pub job: FetchState,
}

impl<'m> View for PullRun<'m> {
    type V = PullState;

    closed spec fn view(&self) -> PullState {
        PullState {
            plan: PullPlan { entries: entry_views(self.manifest.entries@), root: self.root@ },
            at: self.at as int,
            summary: self.summary,
            job: self.job@,
        }
    }
}

/// The fetch of one entry.
pub open spec fn entry_fetch(plan: PullPlan, at: int) -> FetchState {
    let e = plan.entries[at];
    fetch_job(
        object_path(e.relpath),
        join(plan.root, e.relpath),
        e.size,
        e.sha256,
        HASH_VERIFY_LIMIT,
    )
}

/// What is wanted of the remote where work on the entry at `at` begins.
pub open spec fn begin_ask(plan: PullPlan, at: int) -> RemoteAsk {
    if at >= plan.entries.len() {
        RemoteAsk::Nothing
    } else {
        RemoteAsk::Exists { path: object_path(plan.entries[at].relpath) }
    }
}

/// Work on the entry at `at` begins, or there is none and the pull is over.
pub open spec fn pull_begin(
    plan: PullPlan,
    at: int,
    summary: SyncSummary,
    remote: Result<bool, Seq<char>>,
) -> Move<PullState, SyncSummary> {
    if at >= plan.entries.len() {
        over(Ok(summary))
    } else {
        match remote {
            Err(e) => over(Err(e)),
            Ok(false) => over(Err(remote_missing_text(object_path(plan.entries[at].relpath)))),
            Ok(true) => Move::Ask {
                op: FileOp::Stat { path: entry_fetch(plan, at).local },
                then: PullState { plan, at, summary, job: entry_fetch(plan, at) },
            },
        }
    }
}

/// What is wanted of the remote after a reply.
pub open spec fn pull_ask(m: PullState, reply: FileAnswer) -> RemoteAsk {
    match fetch_ask(m.job, reply) {
        RemoteAsk::Nothing => match fetch_next(m.job, reply, Ok(true)) {
            Move::Finished { outcome: Ok(_) } => begin_ask(m.plan, m.at + 1),
            _ => RemoteAsk::Nothing,
        },
        ask => ask,
    }
}

/// How a pull goes on after a reply, and after what the remote said.
pub open spec fn pull_next(
    m: PullState,
    reply: FileAnswer,
    remote: Result<bool, Seq<char>>,
) -> Move<PullState, SyncSummary> {
    match fetch_next(m.job, reply, remote) {
        Move::Ask { op, then } => Move::Ask { op, then: PullState { job: then, ..m } },
        Move::Finished { outcome } => match outcome {
            Err(e) => over(Err(e)),
            Ok(copied) => pull_begin(m.plan, m.at + 1, tally(m.summary, copied), remote),
        },
    }
}

/// The job is the fetch of the entry, at any point of it.
spec fn fetches_entry(m: PullState) -> bool {
    m.job == (FetchState { at: m.job.at, ..entry_fetch(m.plan, m.at) })
}

impl<'m> PullRun<'m> {
    #[verifier::type_invariant]
    spec fn valid(&self) -> bool {
        let v = self@;
        &&& fits(v.plan.entries)
        &&& counted(v.plan.entries, v.at, v.summary)
        &&& v.at < v.plan.entries.len()
        &&& fetches_entry(v)
    }

    fn begin<S: RemoteStore>(
        manifest: &'m Manifest,
        root: String,
        at: usize,
        summary: SyncSummary,
        remote_store: &mut RemoteSession<S>,
    ) -> (r: Step<PullRun<'m>, SyncSummary>)
        requires
            fits(entry_views(manifest.entries@)),
            counted(entry_views(manifest.entries@), at as int, summary),
        ensures
            final(remote_store).continues(old(remote_store)),
            old(remote_store).log().is_prefix_of(final(remote_store).log()),
            ({
                let plan = PullPlan { entries: entry_views(manifest.entries@), root: root@ };
                exists|said: Result<bool, Seq<char>>|
                    {
                        &&& #[trigger] answered(
                            begin_ask(plan, at as int),
                            new_calls(old(remote_store).log(), final(remote_store).log()),
                            said,
                        )
                        &&& r@ == pull_begin(plan, at as int, summary, said)
                    }
            }),
    {
        let ghost plan = PullPlan { entries: entry_views(manifest.entries@), root: root@ };
        let ghost log0 = remote_store.log();
        if at >= manifest.entries.len() {
            proof {
                assert(answered(begin_ask(plan, at as int), new_calls(log0, log0), Ok(true)));
            }
            return Step::Finished { outcome: Ok(summary) };
        }
        let entry = &manifest.entries[at];
        let object = object_path_of(entry.relpath.as_str());
        let there = remote_store.has_object(object.as_str());
        proof {
            assert(new_calls(log0, remote_store.log()) =~= seq![remote_store.log().last()]);
            assert(answered(
                begin_ask(plan, at as int),
                new_calls(log0, remote_store.log()),
                told(there),
            ));
        }
        match there {
            Err(e) => Step::Finished { outcome: Err(e) },
            Ok(false) => Step::Finished { outcome: Err(remote_missing(object.as_str())) },
            Ok(true) => {
                let local = join_path(root.as_str(), entry.relpath.as_str());
                let step = copy_remote_to_local_atomic_verified(
                    object.as_str(),
                    local.as_str(),
                    entry.size,
                    entry.sha256.as_str(),
                    VerifyPolicy::default(),
                );
                match step {
                    Step::Ask { request, then: job } => Step::Ask {
                        request,
                        then: PullRun { manifest, root, at, summary, job },
                    },
                    Step::Finished { outcome: _ } => {
                        Step::Finished { outcome: Ok(summary) }
                    },
                }
            },
        }
    }

    /// Goes on after a reply.
    pub fn next<S: RemoteStore>(
        self,
        reply: FileReply,
        remote_store: &mut RemoteSession<S>,
    ) -> (r: Step<PullRun<'m>, SyncSummary>)
        ensures
            final(remote_store).continues(old(remote_store)),
            old(remote_store).log().is_prefix_of(final(remote_store).log()),
            exists|said: Result<bool, Seq<char>>|
                {
                    &&& #[trigger] answered(
                        pull_ask(self@, reply@),
                        new_calls(old(remote_store).log(), final(remote_store).log()),
                        said,
                    )
                    &&& r@ == pull_next(self@, reply@, said)
                },
    {
        proof {
            use_type_invariant(&self);
        }
        let ghost m = self@;
        let ghost answer = reply@;
        let ghost log0 = remote_store.log();
        let PullRun { manifest, root, at, summary, job } = self;
        let step = job.next(reply, remote_store);
        let ghost log1 = remote_store.log();
        proof {
            if fetch_ask(m.job, answer) is Nothing {
                assert(log1 =~= log0);
            }
        }
        match step {
            Step::Ask { request, then: job } => {
                Step::Ask { request, then: PullRun { manifest, root, at, summary, job } }
            },
            Step::Finished { outcome } => match outcome {
                Err(e) => Step::Finished { outcome: Err(e) },
                Ok(copied) => {
                    let total: usize = manifest.entries.len();
                    proof {
                        assert(at < total);
                        lemma_total_of_part(entry_views(manifest.entries@), at as int);
                    }
                    let summary = add_file(summary, copied);
                    Self::begin(manifest, root, at + 1, summary, remote_store)
                },
            },
        }
    }
}

/// Begins to bring the files of a manifest from a remote to a local content store.
pub fn pull_from_manifest_store<'m, S: RemoteStore>(
    remote_store: &mut RemoteSession<S>,
    local_cas_root: &str,
    manifest: &'m Manifest,
) -> (r: Step<PullRun<'m>, SyncSummary>)
    requires
        fits(entry_views(manifest.entries@)),
    ensures
        final(remote_store).continues(old(remote_store)),
        old(remote_store).log().is_prefix_of(final(remote_store).log()),
        ({
            let plan = PullPlan {
                entries: entry_views(manifest.entries@),
                root: local_cas_root@,
            };
            exists|said: Result<bool, Seq<char>>|
                {
                    &&& #[trigger] answered(
                        begin_ask(plan, 0),
                        new_calls(old(remote_store).log(), final(remote_store).log()),
                        said,
                    )
                    &&& r@ == pull_begin(plan, 0, no_transfer(), said)
                }
        }),
{
    PullRun::begin(manifest, local_cas_root.to_owned(), 0, SyncSummary::default(), remote_store)
}

} // verus!
