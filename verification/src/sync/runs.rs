//! Whole manifests, entry by entry: copying between local directories, and verifying a
//! local content store.

use vstd::prelude::*;

use crate::error::Error;
use crate::files::{misfit, misfit_text, FileAnswer, FileOp, FileReply, FileRequest, Move, Step};
use crate::paths::{join, join_path};
use crate::sync::local::{
    copy_file_atomic_verified, copy_job, copy_next, over, CopyState, VerifiedCopy,
};
use crate::sync::manifest::{entry_views, total_size, EntryView, Manifest};
use crate::sync::transfer::{
    add_file, fits, lemma_total_of_part, no_transfer, tally, SyncSummary, HASH_VERIFY_LIMIT,
};
use crate::text::{decimal, decimal_text, same_text};

verus! {

/// What is said of a file that the manifest lists and the remote lacks.
pub open spec fn remote_missing_text(path: Seq<char>) -> Seq<char> {
    "remote CAS file referenced by manifest is missing: "@ + path
}

/// The error for a file that the manifest lists and the remote lacks.
pub fn remote_missing(path: &str) -> (r: Error)
    ensures
        r@ == remote_missing_text(path@),
{
    let mut m = "remote CAS file referenced by manifest is missing: ".to_owned();
    m.append(path);
    Error::new(m)
}

/// What is being done about an entry.
pub enum CopyStage {
    /// Is the file there that is to be copied?
    CheckingSource,
    /// The file is being copied.
    Copying { job: VerifiedCopy },
}

/// What is being done about an entry, by view.
pub enum StageAt {
    CheckingSource,
    Copying { job: CopyState },
}

impl View for CopyStage {
    type V = StageAt;

    open spec fn view(&self) -> StageAt {
        match *self {
            CopyStage::CheckingSource => StageAt::CheckingSource,
            CopyStage::Copying { job } => StageAt::Copying { job: job@ },
        }
    }
}

/// A job that copies the files of a manifest from one directory to another, verified.
pub struct CopyRun<'m> {
    manifest: &'m Manifest,
    from: String,
    to: String,
    pid: u32,
    check_source: bool,
    at: usize,
    summary: SyncSummary,
    stage: CopyStage,
}

/// What stays the same while the files of a manifest are copied.
pub struct RunPlan {
    pub entries: Seq<EntryView>,
    pub from: Seq<char>,
    pub to: Seq<char>,
    pub pid: u32,
    pub check_source: bool,
}

/// A copy of a manifest's files, by view.
pub struct RunState {
    pub plan: RunPlan,
    /// The entry that is being worked on.
    pub at: int,
    /// What was done for the entries before it.
    pub summary: SyncSummary,
    pub stage: StageAt,
}

impl<'m> View for CopyRun<'m> {
    type V = RunState;

    closed spec fn view(&self) -> RunState {
        RunState {
            plan: RunPlan {
                entries: entry_views(self.manifest.entries@),
                from: self.from@,
                to: self.to@,
                pid: self.pid,
                check_source: self.check_source,
            },
            at: self.at as int,
            summary: self.summary,
            stage: self.stage@,
        }
    }
}

/// The copy of one entry begins.
pub open spec fn run_copying(
    plan: RunPlan,
    at: int,
    summary: SyncSummary,
    suffix: Seq<char>,
) -> Move<RunState, SyncSummary> {
    let e = plan.entries[at];
    let job = copy_job(
        join(plan.from, e.relpath),
        join(plan.to, e.relpath),
        e.size,
        Some(e.sha256),
        plan.pid,
        suffix,
    );
    Move::Ask {
        op: FileOp::Stat { path: job.dst },
        then: RunState { plan, at, summary, stage: StageAt::Copying { job } },
    }
}

/// Work on the entry at `at` begins, or there is none and the run is over.
pub open spec fn run_begin(
    plan: RunPlan,
    at: int,
    summary: SyncSummary,
    suffix: Seq<char>,
) -> Move<RunState, SyncSummary> {
    if at >= plan.entries.len() {
        over(Ok(summary))
    } else if plan.check_source {
        Move::Ask {
            op: FileOp::Stat { path: join(plan.from, plan.entries[at].relpath) },
            then: RunState { plan, at, summary, stage: StageAt::CheckingSource },
        }
    } else {
        run_copying(plan, at, summary, suffix)
    }
}

/// How the run goes on after a reply.
pub open spec fn run_next(m: RunState, reply: FileAnswer, suffix: Seq<char>) -> Move<
    RunState,
    SyncSummary,
> {
    match m.stage {
        StageAt::CheckingSource => match reply {
            FileAnswer::Missing => over(
                Err(remote_missing_text(join(m.plan.from, m.plan.entries[m.at].relpath))),
            ),
            FileAnswer::Size { .. } => run_copying(m.plan, m.at, m.summary, suffix),
            FileAnswer::Failed { error } => over(Err(error)),
            _ => over(Err(misfit_text())),
        },
        StageAt::Copying { job } => match copy_next(job, reply) {
            Move::Ask { op, then } => Move::Ask {
                op,
                then: RunState { stage: StageAt::Copying { job: then }, ..m },
            },
            Move::Finished { outcome } => match outcome {
                Err(e) => over(Err(e)),
                Ok(copied) => run_begin(m.plan, m.at + 1, tally(m.summary, copied), suffix),
            },
        },
    }
}

/// What was counted is no more than the entries so far amount to.
pub open spec fn counted(entries: Seq<EntryView>, at: int, summary: SyncSummary) -> bool {
    &&& 0 <= at <= entries.len()
    &&& summary.files_verified == at
    &&& summary.files_copied <= at
    &&& summary.bytes_copied <= total_size(entries.take(at))
}

impl<'m> CopyRun<'m> {
    #[verifier::type_invariant]
    spec fn valid(&self) -> bool {
        let v = self@;
        &&& fits(v.plan.entries)
        &&& counted(v.plan.entries, v.at, v.summary)
        &&& v.at < v.plan.entries.len()
        &&& v.stage matches StageAt::Copying { job } ==> job.size == v.plan.entries[v.at].size
    }

    /// Begins the copy of the entry at `at`.
    fn copying(
        manifest: &'m Manifest,
        from: String,
        to: String,
        pid: u32,
        check_source: bool,
        at: usize,
        summary: SyncSummary,
        suffix: &str,
    ) -> (r: Step<CopyRun<'m>, SyncSummary>)
        requires
            fits(entry_views(manifest.entries@)),
            counted(entry_views(manifest.entries@), at as int, summary),
            at < manifest.entries@.len(),
        ensures
            r@ == run_copying(
                RunPlan {
                    entries: entry_views(manifest.entries@),
                    from: from@,
                    to: to@,
                    pid,
                    check_source,
                },
                at as int,
                summary,
                suffix@,
            ),
    {
        let entry = &manifest.entries[at];
        let src = join_path(from.as_str(), entry.relpath.as_str());
        let dst = join_path(to.as_str(), entry.relpath.as_str());
        let step = copy_file_atomic_verified(
            src.as_str(),
            dst.as_str(),
            entry.size,
            Some(entry.sha256.clone()),
            pid,
            suffix,
        );
        match step {
            Step::Ask { request, then: job } => Step::Ask {
                request,
                then: CopyRun {
                    manifest,
                    from,
                    to,
                    pid,
                    check_source,
                    at,
                    summary,
                    stage: CopyStage::Copying { job },
                },
            },
            Step::Finished { outcome } => {
                Step::Finished { outcome: Ok(summary) }
            },
        }
    }

    /// Begins work on the entry at `at`, if there is one.
    fn begin(
        manifest: &'m Manifest,
        from: String,
        to: String,
        pid: u32,
        check_source: bool,
        at: usize,
        summary: SyncSummary,
        suffix: &str,
    ) -> (r: Step<CopyRun<'m>, SyncSummary>)
        requires
            fits(entry_views(manifest.entries@)),
            counted(entry_views(manifest.entries@), at as int, summary),
        ensures
            r@ == run_begin(
                RunPlan {
                    entries: entry_views(manifest.entries@),
                    from: from@,
                    to: to@,
                    pid,
                    check_source,
                },
                at as int,
                summary,
                suffix@,
            ),
    {
        if at >= manifest.entries.len() {
            return Step::Finished { outcome: Ok(summary) };
        }
        if check_source {
            let path = join_path(from.as_str(), manifest.entries[at].relpath.as_str());
            return Step::Ask {
                request: FileRequest::Stat { path },
                then: CopyRun {
                    manifest,
                    from,
                    to,
                    pid,
                    check_source,
                    at,
                    summary,
                    stage: CopyStage::CheckingSource,
                },
            };
        }
        Self::copying(manifest, from, to, pid, check_source, at, summary, suffix)
    }

    /// Goes on after a reply. `suffix` is for the temporary file of the next copy, should
    /// one begin.
    pub fn next(self, reply: FileReply, suffix: &str) -> (r: Step<CopyRun<'m>, SyncSummary>)
        ensures
            r@ == run_next(self@, reply@, suffix@),
    {
        proof {
            use_type_invariant(&self);
        }
        let CopyRun { manifest, from, to, pid, check_source, at, summary, stage } = self;
        match stage {
            CopyStage::CheckingSource => match reply {
                FileReply::Missing => {
                    let path = join_path(from.as_str(), manifest.entries[at].relpath.as_str());
                    Step::Finished { outcome: Err(remote_missing(path.as_str())) }
                },
                FileReply::Size { bytes: _ } => Self::copying(
                    manifest,
                    from,
                    to,
                    pid,
                    check_source,
                    at,
                    summary,
                    suffix,
                ),
                FileReply::Failed { error } => Step::Finished { outcome: Err(error) },
                _ => Step::Finished { outcome: Err(misfit()) },
            },
            CopyStage::Copying { job } => match job.next(reply) {
                Step::Ask { request, then } => Step::Ask {
                    request,
                    then: CopyRun {
                        manifest,
                        from,
                        to,
                        pid,
                        check_source,
                        at,
                        summary,
                        stage: CopyStage::Copying { job: then },
                    },
                },
                Step::Finished { outcome } => match outcome {
                    Err(e) => Step::Finished { outcome: Err(e) },
                    Ok(copied) => {
                        let total: usize = manifest.entries.len();
                        proof {
                            assert(at < total);
                            lemma_total_of_part(entry_views(manifest.entries@), at as int);
                        }
                        let summary = add_file(summary, copied);
                        Self::begin(
                            manifest,
                            from,
                            to,
                            pid,
                            check_source,
                            at + 1,
                            summary,
                            suffix,
                        )
                    },
                },
            },
        }
    }
}

/// Begins to copy the files of a manifest from the local content store to a remote one.
pub fn push_with_manifest<'m>(
    local_cas_root: &str,
    remote_cas_root: &str,
    manifest: &'m Manifest,
    pid: u32,
    suffix: &str,
) -> (r: Step<CopyRun<'m>, SyncSummary>)
    requires
        fits(entry_views(manifest.entries@)),
    ensures
        r@ == run_begin(
            RunPlan {
                entries: entry_views(manifest.entries@),
                from: local_cas_root@,
                to: remote_cas_root@,
                pid,
                check_source: false,
            },
            0,
            no_transfer(),
            suffix@,
        ),
{
    CopyRun::begin(
        manifest,
        local_cas_root.to_owned(),
        remote_cas_root.to_owned(),
        pid,
        false,
        0,
        SyncSummary::default(),
        suffix,
    )
}

/// Begins to copy the files of a manifest from a remote content store to the local one.
/// Each is first looked for on the remote.
pub fn pull_from_manifest<'m>(
    remote_cas_root: &str,
    local_cas_root: &str,
    manifest: &'m Manifest,
    pid: u32,
    suffix: &str,
) -> (r: Step<CopyRun<'m>, SyncSummary>)
    requires
        fits(entry_views(manifest.entries@)),
    ensures
        r@ == run_begin(
            RunPlan {
                entries: entry_views(manifest.entries@),
                from: remote_cas_root@,
                to: local_cas_root@,
                pid,
                check_source: true,
            },
            0,
            no_transfer(),
            suffix@,
        ),
{
    CopyRun::begin(
        manifest,
        remote_cas_root.to_owned(),
        local_cas_root.to_owned(),
        pid,
        true,
        0,
        SyncSummary::default(),
        suffix,
    )
}

/// What `verify` says of a file that is not there.
pub open spec fn verify_missing_text(path: Seq<char>) -> Seq<char> {
    "manifest verify failed: missing local file "@ + path
}

fn verify_missing(path: &str) -> (r: Error)
    ensures
        r@ == verify_missing_text(path@),
{
    let mut m = "manifest verify failed: missing local file ".to_owned();
    m.append(path);
    Error::new(m)
}

/// What `verify` says of a file with a wrong size.
pub open spec fn verify_size_text(path: Seq<char>, want: u64, got: u64) -> Seq<char> {
    "manifest verify failed: size mismatch for "@ + path + " (expected "@ + decimal(want as nat)
        + ", got "@ + decimal(got as nat) + ")"@
}

fn verify_size(path: &str, want: u64, got: u64) -> (r: Error)
    ensures
        r@ == verify_size_text(path@, want, got),
{
    let mut m = "manifest verify failed: size mismatch for ".to_owned();
    m.append(path);
    m.append(" (expected ");
    m.append(decimal_text(want).as_str());
    m.append(", got ");
    m.append(decimal_text(got).as_str());
    m.append(")");
    Error::new(m)
}

/// What `verify` says of a file with a wrong hash.
pub open spec fn verify_hash_text(path: Seq<char>, want: Seq<char>, got: Seq<char>) -> Seq<char> {
    "manifest verify failed: hash mismatch for "@ + path + " (expected "@ + want + ", got "@ + got
        + ")"@
}

fn verify_hash(path: &str, want: &str, got: &str) -> (r: Error)
    ensures
        r@ == verify_hash_text(path@, want@, got@),
{
    let mut m = "manifest verify failed: hash mismatch for ".to_owned();
    m.append(path);
    m.append(" (expected ");
    m.append(want);
    m.append(", got ");
    m.append(got);
    m.append(")");
    Error::new(m)
}

/// A job that holds the files of a local content store to a manifest.
pub struct VerifyRun<'m> {
    manifest: &'m Manifest,
    root: String,
    at: usize,
    hashing: bool,
}

/// A verification, by view.
pub struct VerifyState {
    pub entries: Seq<EntryView>,
    pub root: Seq<char>,
    /// The entry that is being verified.
    pub at: int,
    /// The size was right; the hash is being computed.
    pub hashing: bool,
}

impl<'m> View for VerifyRun<'m> {
    type V = VerifyState;

    closed spec fn view(&self) -> VerifyState {
        VerifyState {
            entries: entry_views(self.manifest.entries@),
            root: self.root@,
            at: self.at as int,
            hashing: self.hashing,
        }
    }
}

/// The summary once `n` files were verified.
pub open spec fn verified_files(n: int) -> SyncSummary {
    SyncSummary { files_copied: 0, bytes_copied: 0, files_verified: n as u64 }
}

/// The file of the entry that is being verified.
pub open spec fn verify_path(m: VerifyState) -> Seq<char> {
    join(m.root, m.entries[m.at].relpath)
}

/// The entry at `at` is verified next, or all were.
pub open spec fn verify_begin(entries: Seq<EntryView>, root: Seq<char>, at: int) -> Move<
    VerifyState,
    SyncSummary,
> {
    if at >= entries.len() {
        over(Ok(verified_files(entries.len() as int)))
    } else {
        Move::Ask {
            op: FileOp::Stat { path: join(root, entries[at].relpath) },
            then: VerifyState { entries, root, at, hashing: false },
        }
    }
}

/// How a verification goes on after a reply.
pub open spec fn verify_next(m: VerifyState, reply: FileAnswer) -> Move<VerifyState, SyncSummary> {
    let e = m.entries[m.at];
    match reply {
        FileAnswer::Failed { error } => over(Err(error)),
        FileAnswer::Missing => if m.hashing {
            over(Err(misfit_text()))
        } else {
            over(Err(verify_missing_text(verify_path(m))))
        },
        FileAnswer::Size { bytes } => if m.hashing {
            over(Err(misfit_text()))
        } else if bytes != e.size {
            over(Err(verify_size_text(verify_path(m), e.size, bytes)))
        } else if e.size <= HASH_VERIFY_LIMIT {
            Move::Ask {
                op: FileOp::Sha256 { path: verify_path(m) },
                then: VerifyState { hashing: true, ..m },
            }
        } else {
            verify_begin(m.entries, m.root, m.at + 1)
        },
        FileAnswer::Hash { sha256 } => if !m.hashing {
            over(Err(misfit_text()))
        } else if sha256 != e.sha256 {
            over(Err(verify_hash_text(verify_path(m), e.sha256, sha256)))
        } else {
            verify_begin(m.entries, m.root, m.at + 1)
        },
        FileAnswer::Done => over(Err(misfit_text())),
    }
}

impl<'m> VerifyRun<'m> {
    #[verifier::type_invariant]
    spec fn valid(&self) -> bool {
        self.at < self.manifest.entries@.len()
    }

    fn begin(manifest: &'m Manifest, root: String, at: usize) -> (r: Step<
        VerifyRun<'m>,
        SyncSummary,
    >)
        ensures
            r@ == verify_begin(entry_views(manifest.entries@), root@, at as int),
    {
        if at >= manifest.entries.len() {
            return Step::Finished {
                outcome: Ok(
                    SyncSummary {
                        files_copied: 0,
                        bytes_copied: 0,
                        files_verified: manifest.entries.len() as u64,
                    },
                ),
            };
        }
        let path = join_path(root.as_str(), manifest.entries[at].relpath.as_str());
        Step::Ask {
            request: FileRequest::Stat { path },
            then: VerifyRun { manifest, root, at, hashing: false },
        }
    }

    /// Goes on after a reply.
    pub fn next(self, reply: FileReply) -> (r: Step<VerifyRun<'m>, SyncSummary>)
        ensures
            r@ == verify_next(self@, reply@),
    {
        proof {
            use_type_invariant(&self);
        }
        let VerifyRun { manifest, root, at, hashing } = self;
        let e = &manifest.entries[at];
        let total: usize = manifest.entries.len();
        assert(at < total);
        let path = join_path(root.as_str(), e.relpath.as_str());
        match reply {
            FileReply::Failed { error } => Step::Finished { outcome: Err(error) },
            FileReply::Missing => if hashing {
                Step::Finished { outcome: Err(misfit()) }
            } else {
                Step::Finished { outcome: Err(verify_missing(path.as_str())) }
            },
            FileReply::Size { bytes } => if hashing {
                Step::Finished { outcome: Err(misfit()) }
            } else if bytes != e.size {
                Step::Finished { outcome: Err(verify_size(path.as_str(), e.size, bytes)) }
            } else if e.size <= HASH_VERIFY_LIMIT {
                Step::Ask {
                    request: FileRequest::Sha256 { path },
                    then: VerifyRun { manifest, root, at, hashing: true },
                }
            } else {
                Self::begin(manifest, root, at + 1)
            },
            FileReply::Hash { sha256 } => if !hashing {
                Step::Finished { outcome: Err(misfit()) }
            } else if !same_text(sha256.as_str(), e.sha256.as_str()) {
                let error = verify_hash(path.as_str(), e.sha256.as_str(), sha256.as_str());
                Step::Finished { outcome: Err(error) }
            } else {
                Self::begin(manifest, root, at + 1)
            },
            FileReply::Done => Step::Finished { outcome: Err(misfit()) },
        }
    }
}

/// Begins to hold the files of a local content store to a manifest.
pub fn verify_manifest_local<'m>(local_cas_root: &str, manifest: &'m Manifest) -> (r: Step<
    VerifyRun<'m>,
    SyncSummary,
>)
    ensures
        r@ == verify_begin(entry_views(manifest.entries@), local_cas_root@, 0),
{
    VerifyRun::begin(manifest, local_cas_root.to_owned(), 0)
}

} // verus!
