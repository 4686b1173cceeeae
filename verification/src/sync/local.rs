//! Verified copying between local directories: a destination that exists is never
//! overwritten, and a copy becomes visible only once it was verified.

use vstd::prelude::*;

use crate::error::Error;
use crate::files::{
    misfit, misfit_text, no_parent, no_parent_text, temp_path, temp_path_for, FileAnswer, FileOp,
    FileReply, FileRequest, Move, Step,
};
use crate::paths::{parent, parent_of};
use crate::sync::transfer::{
    hash_mismatch, hash_mismatch_text, size_mismatch, size_mismatch_text, HASH_VERIFY_LIMIT,
};
use crate::text::{decimal, decimal_text, same_text};

verus! {

/// What is said of a copy with a wrong size.
pub open spec fn copied_size_text(tmp: Seq<char>, want: u64, got: u64) -> Seq<char> {
    "copied file has incorrect size: "@ + tmp + " expected "@ + decimal(want as nat) + " got "@
        + decimal(got as nat)
}

fn copied_size(tmp: &str, want: u64, got: u64) -> (r: Error)
    ensures
        r@ == copied_size_text(tmp@, want, got),
{
    let mut m = "copied file has incorrect size: ".to_owned();
    m.append(tmp);
    m.append(" expected ");
    m.append(decimal_text(want).as_str());
    m.append(" got ");
    m.append(decimal_text(got).as_str());
    Error::new(m)
}

/// What is said of a copy with a wrong hash.
pub open spec fn copied_hash_text(tmp: Seq<char>, want: Seq<char>, got: Seq<char>) -> Seq<char> {
    "copied file has incorrect hash: "@ + tmp + " expected "@ + want + " got "@ + got
}

fn copied_hash(tmp: &str, want: &str, got: &str) -> (r: Error)
    ensures
        r@ == copied_hash_text(tmp@, want@, got@),
{
    let mut m = "copied file has incorrect hash: ".to_owned();
    m.append(tmp);
    m.append(" expected ");
    m.append(want);
    m.append(" got ");
    m.append(got);
    Error::new(m)
}

/// What is said of a source that is not there.
pub open spec fn source_missing_text(src: Seq<char>) -> Seq<char> {
    "source missing: "@ + src
}

fn source_missing(src: &str) -> (r: Error)
    ensures
        r@ == source_missing_text(src@),
{
    let mut m = "source missing: ".to_owned();
    m.append(src);
    Error::new(m)
}

/// How far a verified copy has come.
pub enum CopyPhase {
    /// Is there a destination?
    CheckingDst,
    /// The destination is being hashed.
    HashingDst,
    /// The directory of the destination is being made.
    MakingDir,
    /// Is there a source?
    CheckingSrc,
    /// The source is being copied to the temporary file.
    Copying,
    /// What size has the copy?
    MeasuringTmp,
    /// The copy is being hashed.
    HashingTmp,
    /// The copy is being moved to its place.
    Renaming,
    /// The copy is being deleted, because of a failure.
    CleaningUp { why: Error },
}

/// Where a verified copy stands, by view.
pub enum CopyAt {
    CheckingDst,
    HashingDst,
    MakingDir,
    CheckingSrc,
    Copying,
    MeasuringTmp,
    HashingTmp,
    Renaming,
    CleaningUp { why: Seq<char> },
}

impl View for CopyPhase {
    type V = CopyAt;

    open spec fn view(&self) -> CopyAt {
        match *self {
            CopyPhase::CheckingDst => CopyAt::CheckingDst,
            CopyPhase::HashingDst => CopyAt::HashingDst,
            CopyPhase::MakingDir => CopyAt::MakingDir,
            CopyPhase::CheckingSrc => CopyAt::CheckingSrc,
            CopyPhase::Copying => CopyAt::Copying,
            CopyPhase::MeasuringTmp => CopyAt::MeasuringTmp,
            CopyPhase::HashingTmp => CopyAt::HashingTmp,
            CopyPhase::Renaming => CopyAt::Renaming,
            CopyPhase::CleaningUp { why } => CopyAt::CleaningUp { why: why@ },
        }
    }
}

/// A job that copies a file to a place where there is none, and verifies the copy before
/// it becomes visible there.
pub struct VerifiedCopy {
    src: String,
    dst: String,
    dir: Option<String>,
    tmp: String,
    size: u64,
    sha256: Option<String>,
    phase: CopyPhase,
}

/// A verified copy, by view.
pub struct CopyState {
    pub src: Seq<char>,
    pub dst: Seq<char>,
    pub dir: Option<Seq<char>>,
    pub tmp: Seq<char>,
    pub size: u64,
    pub sha256: Option<Seq<char>>,
    pub at: CopyAt,
}

impl View for VerifiedCopy {
    type V = CopyState;

    closed spec fn view(&self) -> CopyState {
        CopyState {
            src: self.src@,
            dst: self.dst@,
            dir: self.dir.deep_view(),
            tmp: self.tmp@,
            size: self.size,
            sha256: self.sha256.deep_view(),
            at: self.phase@,
        }
    }
}

/// The file must be held to its hash.
pub open spec fn owes_hash(m: CopyState) -> bool {
    m.sha256 is Some && m.size <= HASH_VERIFY_LIMIT
}

/// A verified copy before its first request is answered.
pub open spec fn copy_job(
    src: Seq<char>,
    dst: Seq<char>,
    size: u64,
    sha256: Option<Seq<char>>,
    pid: u32,
    suffix: Seq<char>,
) -> CopyState {
    CopyState {
        src,
        dst,
        dir: parent(dst),
        tmp: match parent(dst) {
            Some(dir) => temp_path(""@, dir, dst, pid, suffix),
            None => ""@,
        },
        size,
        sha256,
        at: CopyAt::CheckingDst,
    }
}

/// How a verified copy begins.
pub open spec fn copy_start(job: CopyState) -> Move<CopyState, u64> {
    Move::Ask { op: FileOp::Stat { path: job.dst }, then: job }
}

/// Delete the copy, then fail.
pub open spec fn copy_cleanup(m: CopyState, why: Seq<char>) -> Move<CopyState, u64> {
    Move::Ask {
        op: FileOp::Remove { path: m.tmp },
        then: CopyState { at: CopyAt::CleaningUp { why }, ..m },
    }
}

/// Make the copy visible.
pub open spec fn copy_publish(m: CopyState) -> Move<CopyState, u64> {
    Move::Ask {
        op: FileOp::Rename { from: m.tmp, to: m.dst },
        then: CopyState { at: CopyAt::Renaming, ..m },
    }
}

/// The job is over.
pub open spec fn over<M, T>(outcome: Result<T, Seq<char>>) -> Move<M, T> {
    Move::Finished { outcome }
}

/// How a verified copy goes on after a reply.
pub open spec fn copy_next(m: CopyState, reply: FileAnswer) -> Move<CopyState, u64> {
    match (m.at, reply) {
        (CopyAt::CheckingDst, FileAnswer::Missing) => match m.dir {
            None => over(Err(no_parent_text(m.dst))),
            Some(dir) => Move::Ask {
                op: FileOp::CreateDirs { path: dir },
                then: CopyState { at: CopyAt::MakingDir, ..m },
            },
        },
        (CopyAt::CheckingDst, FileAnswer::Size { bytes }) => if bytes != m.size {
            over(Err(size_mismatch_text(m.dst, bytes as nat, m.size)))
        } else if owes_hash(m) {
            Move::Ask {
                op: FileOp::Sha256 { path: m.dst },
                then: CopyState { at: CopyAt::HashingDst, ..m },
            }
        } else {
            over(Ok(0))
        },
        (CopyAt::HashingDst, FileAnswer::Hash { sha256 }) => if m.sha256 == Some(sha256) {
            over(Ok(0))
        } else {
            over(Err(hash_mismatch_text(m.dst, m.sha256->0, sha256)))
        },
        (CopyAt::MakingDir, FileAnswer::Done) => Move::Ask {
            op: FileOp::Stat { path: m.src },
            then: CopyState { at: CopyAt::CheckingSrc, ..m },
        },
        (CopyAt::CheckingSrc, FileAnswer::Missing) => over(Err(source_missing_text(m.src))),
        (CopyAt::CheckingSrc, FileAnswer::Size { .. }) => Move::Ask {
            op: FileOp::Copy { from: m.src, to: m.tmp },
            then: CopyState { at: CopyAt::Copying, ..m },
        },
        (CopyAt::Copying, FileAnswer::Done) => Move::Ask {
            op: FileOp::Measure { path: m.tmp },
            then: CopyState { at: CopyAt::MeasuringTmp, ..m },
        },
        (CopyAt::Copying, FileAnswer::Failed { error }) => copy_cleanup(m, error),
        (CopyAt::MeasuringTmp, FileAnswer::Size { bytes }) => if bytes != m.size {
            copy_cleanup(m, copied_size_text(m.tmp, m.size, bytes))
        } else if owes_hash(m) {
            Move::Ask {
                op: FileOp::Sha256 { path: m.tmp },
                then: CopyState { at: CopyAt::HashingTmp, ..m },
            }
        } else {
            copy_publish(m)
        },
        (CopyAt::HashingTmp, FileAnswer::Hash { sha256 }) => if m.sha256 == Some(sha256) {
            copy_publish(m)
        } else {
            copy_cleanup(m, copied_hash_text(m.tmp, m.sha256->0, sha256))
        },
        (CopyAt::Renaming, FileAnswer::Done) => over(Ok(m.size)),
        (CopyAt::Renaming, FileAnswer::Failed { error }) => copy_cleanup(m, error),
        (CopyAt::CleaningUp { why }, _) => over(Err(why)),
        (_, FileAnswer::Failed { error }) => over(Err(error)),
        (_, _) => over(Err(misfit_text())),
    }
}

/// The hash is known where it is needed.
pub open spec fn copy_valid(m: CopyState) -> bool {
    m.at is HashingDst || m.at is HashingTmp ==> m.sha256 is Some
}

impl VerifiedCopy {
    #[verifier::type_invariant]
    spec fn hash_is_known(&self) -> bool {
        copy_valid(self@)
    }

    fn at(self, phase: CopyPhase) -> (r: VerifiedCopy)
        requires
            copy_valid(CopyState { at: phase@, ..self@ }),
        ensures
            r@ == (CopyState { at: phase@, ..self@ }),
    {
        VerifiedCopy {
            src: self.src,
            dst: self.dst,
            dir: self.dir,
            tmp: self.tmp,
            size: self.size,
            sha256: self.sha256,
            phase,
        }
    }

    fn clean_up(self, why: Error) -> (r: Step<VerifiedCopy, u64>)
        ensures
            r@ == copy_cleanup(self@, why@),
    {
        let path = self.tmp.clone();
        Step::Ask {
            request: FileRequest::Remove { path },
            then: self.at(CopyPhase::CleaningUp { why }),
        }
    }

    fn publish(self) -> (r: Step<VerifiedCopy, u64>)
        ensures
            r@ == copy_publish(self@),
    {
        let request = FileRequest::Rename { from: self.tmp.clone(), to: self.dst.clone() };
        Step::Ask { request, then: self.at(CopyPhase::Renaming) }
    }

    fn hash_owed(&self) -> (r: bool)
        ensures
            r == owes_hash(self@),
    {
        self.sha256.is_some() && self.size <= HASH_VERIFY_LIMIT
    }

    /// Goes on after a reply. Finishes with the number of bytes that were copied.
    pub fn next(self, reply: FileReply) -> (r: Step<VerifiedCopy, u64>)
        ensures
            r@ == copy_next(self@, reply@),
    {
        proof {
            use_type_invariant(&self);
        }
        match (&self.phase, reply) {
            (CopyPhase::CheckingDst, FileReply::Missing) => match &self.dir {
                None => Step::Finished { outcome: Err(no_parent(self.dst.as_str())) },
                Some(dir) => {
                    let path = dir.clone();
                    Step::Ask {
                        request: FileRequest::CreateDirs { path },
                        then: self.at(CopyPhase::MakingDir),
                    }
                },
            },
            (CopyPhase::CheckingDst, FileReply::Size { bytes }) => {
                if bytes != self.size {
                    let e = size_mismatch(self.dst.as_str(), bytes, self.size);
                    Step::Finished { outcome: Err(e) }
                } else if self.hash_owed() {
                    let path = self.dst.clone();
                    Step::Ask {
                        request: FileRequest::Sha256 { path },
                        then: self.at(CopyPhase::HashingDst),
                    }
                } else {
                    Step::Finished { outcome: Ok(0) }
                }
            },
            (CopyPhase::HashingDst, FileReply::Hash { sha256 }) => {
                if let Some(want) = &self.sha256 {
                    if same_text(want.as_str(), sha256.as_str()) {
                        Step::Finished { outcome: Ok(0) }
                    } else {
                        let e = hash_mismatch(self.dst.as_str(), want.as_str(), sha256.as_str());
                        Step::Finished { outcome: Err(e) }
                    }
                } else {
                    Step::Finished { outcome: Err(misfit()) }
                }
            },
            (CopyPhase::MakingDir, FileReply::Done) => {
                let path = self.src.clone();
                Step::Ask {
                    request: FileRequest::Stat { path },
                    then: self.at(CopyPhase::CheckingSrc),
                }
            },
            (CopyPhase::CheckingSrc, FileReply::Missing) => {
                Step::Finished { outcome: Err(source_missing(self.src.as_str())) }
            },
            (CopyPhase::CheckingSrc, FileReply::Size { bytes: _ }) => {
                let request = FileRequest::Copy { from: self.src.clone(), to: self.tmp.clone() };
                Step::Ask { request, then: self.at(CopyPhase::Copying) }
            },
            (CopyPhase::Copying, FileReply::Done) => {
                let path = self.tmp.clone();
                Step::Ask {
                    request: FileRequest::Measure { path },
                    then: self.at(CopyPhase::MeasuringTmp),
                }
            },
            (CopyPhase::Copying, FileReply::Failed { error }) => self.clean_up(error),
            (CopyPhase::MeasuringTmp, FileReply::Size { bytes }) => {
                if bytes != self.size {
                    let e = copied_size(self.tmp.as_str(), self.size, bytes);
                    self.clean_up(e)
                } else if self.hash_owed() {
                    let path = self.tmp.clone();
                    Step::Ask {
                        request: FileRequest::Sha256 { path },
                        then: self.at(CopyPhase::HashingTmp),
                    }
                } else {
                    self.publish()
                }
            },
            (CopyPhase::HashingTmp, FileReply::Hash { sha256 }) => {
                let wrong = match &self.sha256 {
                    Some(want) => if same_text(want.as_str(), sha256.as_str()) {
                        None
                    } else {
                        Some(copied_hash(self.tmp.as_str(), want.as_str(), sha256.as_str()))
                    },
                    None => Some(misfit()),
                };
                match wrong {
                    None => self.publish(),
                    Some(e) => self.clean_up(e),
                }
            },
            (CopyPhase::Renaming, FileReply::Done) => Step::Finished { outcome: Ok(self.size) },
            (CopyPhase::Renaming, FileReply::Failed { error }) => self.clean_up(error),
            (CopyPhase::CleaningUp { why }, _) => Step::Finished { outcome: Err(why.clone()) },
            (_, FileReply::Failed { error }) => Step::Finished { outcome: Err(error) },
            (_, _) => Step::Finished { outcome: Err(misfit()) },
        }
    }
}

/// Begins to copy `src` to `dst`, which are held to a size and, up to the limit, to a
/// hash where one is given.
pub fn copy_file_atomic_verified(
    src: &str,
    dst: &str,
    expected_size: u64,
    expected_sha256: Option<String>,
    pid: u32,
    suffix: &str,
) -> (r: Step<VerifiedCopy, u64>)
    ensures
        r@ == copy_start(
            copy_job(src@, dst@, expected_size, expected_sha256.deep_view(), pid, suffix@),
        ),
{
    let dir = parent_of(dst);
    let tmp = match &dir {
        Some(dir) => temp_path_for("", dir.as_str(), dst, pid, suffix),
        None => "".to_owned(),
    };
    Step::Ask {
        request: FileRequest::Stat { path: dst.to_owned() },
        then: VerifiedCopy {
            src: src.to_owned(),
            dst: dst.to_owned(),
            dir,
            tmp,
            size: expected_size,
            sha256: expected_sha256,
            phase: CopyPhase::CheckingDst,
        },
    }
}

/// The copy is made visible only where its size, and its hash if it is owed, were just
/// found to be right. No request but this one puts anything at the destination.
pub proof fn lemma_copy_publishes_verified(m: CopyState, reply: FileAnswer)
    ensures
        copy_next(m, reply) matches Move::Ask { op, then } ==> {
            &&& then == (CopyState { at: then.at, ..m })
            &&& (op is Rename ==> op == (FileOp::Rename { from: m.tmp, to: m.dst }) && {
                ||| m.at is MeasuringTmp && !owes_hash(m) && reply == (FileAnswer::Size {
                    bytes: m.size,
                })
                ||| m.at is HashingTmp && m.sha256 is Some && reply == (FileAnswer::Hash {
                    sha256: m.sha256->0,
                })
            })
            &&& (op is Copy ==> op == (FileOp::Copy { from: m.src, to: m.tmp }))
            &&& (op is Remove ==> op == (FileOp::Remove { path: m.tmp }))
            &&& !(op is Write)
        },
{
}

/// A destination that exists is left as it is: whatever it turns out to be, all that is
/// asked for is its hash.
pub proof fn lemma_copy_leaves_existing_alone(job: CopyState, bytes: u64, then: FileAnswer)
    requires
        job.at is CheckingDst,
    ensures
        match copy_next(job, FileAnswer::Size { bytes }) {
            Move::Finished { .. } => true,
            Move::Ask { op, then: hashing } => op == (FileOp::Sha256 { path: job.dst })
                && copy_next(hashing, then) is Finished,
        },
{
}

/// The replies take a job from `step` to its end, with `outcome`.
pub open spec fn copy_ends(
    step: Move<CopyState, u64>,
    replies: Seq<FileAnswer>,
    outcome: Result<u64, Seq<char>>,
) -> bool
    decreases replies.len(),
{
    match step {
        Move::Finished { outcome: o } => replies.len() == 0 && o == outcome,
        Move::Ask { op, then } => replies.len() > 0 && copy_ends(
            copy_next(then, replies[0]),
            replies.drop_first(),
            outcome,
        ),
    }
}

/// The replies say that the destination was there and is what it should be.
pub open spec fn found_in_order(job: CopyState, replies: Seq<FileAnswer>) -> bool {
    &&& replies.len() == if owes_hash(job) {
        2int
    } else {
        1int
    }
    &&& replies[0] == FileAnswer::Size { bytes: job.size }
    &&& (owes_hash(job) ==> replies[1] == FileAnswer::Hash { sha256: job.sha256->0 })
}

/// The replies say that there was no destination, that the source was copied, that the
/// copy is what it should be and that it was moved to its place.
pub open spec fn copied_in_order(job: CopyState, replies: Seq<FileAnswer>) -> bool {
    &&& replies.len() == if owes_hash(job) {
        7int
    } else {
        6int
    }
    &&& replies[0] is Missing
    &&& replies[1] is Done
    &&& replies[2] is Size
    &&& replies[3] is Done
    &&& replies[4] == FileAnswer::Size { bytes: job.size }
    &&& (owes_hash(job) ==> replies[5] == FileAnswer::Hash { sha256: job.sha256->0 })
    &&& replies.last() is Done
}

/// A copy that succeeds either found the destination in order, and copied nothing, or
/// there was none and a verified copy now is in its place.
pub proof fn lemma_copy_success(job: CopyState, replies: Seq<FileAnswer>, copied: u64)
    requires
        job.at is CheckingDst,
        copy_ends(copy_start(job), replies, Ok(copied)),
    ensures
        (copied == 0 && found_in_order(job, replies)) || (copied == job.size && copied_in_order(
            job,
            replies,
        )),
{
    reveal_with_fuel(copy_ends, 9);
}

} // verus!
