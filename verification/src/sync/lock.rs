//! The push lock: a file on the remote that keeps two pushes apart.

use vstd::prelude::*;
use vstd::utf8::*;

use crate::error::{in_context, Error};
use crate::files::{misfit, misfit_text};
use crate::paths::{join, join_path, parent, parent_of};
use crate::text::{bytes_of, decimal, decimal_text};

verus! {

/// A lock that is older than this, in seconds, was left behind.
pub const STALE_SECS: u64 = 30 * 60;

/// Where the lock of a remote is.
pub open spec fn lock_file(root: Seq<char>) -> Seq<char> {
    join(join(root, "locks"@), "push.lock"@)
}

/// What a lock says of its holder.
pub open spec fn lock_content(pid: u32, host: Seq<char>, unix_ts: u64) -> Seq<char> {
    "pid="@ + decimal(pid as nat) + "\nhost="@ + host + "\nunix_ts="@ + decimal(unix_ts as nat)
        + "\n"@
}

fn lock_content_of(pid: u32, host: &str, unix_ts: u64) -> (r: String)
    ensures
        r@ == lock_content(pid, host@, unix_ts),
{
    let mut c = "pid=".to_owned();
    c.append(decimal_text(pid as u64).as_str());
    c.append("\nhost=");
    c.append(host);
    c.append("\nunix_ts=");
    c.append(decimal_text(unix_ts).as_str());
    c.append("\n");
    c
}

/// What the taking of a lock asks for.
pub enum LockRequest {
    /// Make a directory and those above it.
    CreateDirs { path: String },
    /// Is there a lock, and how long ago was it written?
    Look { path: String },
    /// Say this to the person at the terminal, then delete the lock.
    Break { warning: String, path: String },
    /// Make the lock, which must not be there.
    CreateNew { path: String },
    /// Write this into the lock that was made.
    Fill { path: String, bytes: Vec<u8> },
}

/// What came of a request.
pub enum LockReply {
    /// There is no lock.
    Absent,
    /// There is a lock, of this age in seconds if that is known.
    Present { age_secs: Option<u64> },
    /// The request was carried out.
    Done,
    /// The request failed.
    Failed { error: Error },
}

/// A request, by view.
pub enum LockOp {
    CreateDirs { path: Seq<char> },
    Look { path: Seq<char> },
    Break { warning: Seq<char>, path: Seq<char> },
    CreateNew { path: Seq<char> },
    Fill { path: Seq<char>, bytes: Seq<u8> },
}

/// A reply, by view.
pub enum LockAnswer {
    Absent,
    Present { age_secs: Option<u64> },
    Done,
    Failed { error: Seq<char> },
}

impl View for LockRequest {
    type V = LockOp;

    open spec fn view(&self) -> LockOp {
        match *self {
            LockRequest::CreateDirs { path } => LockOp::CreateDirs { path: path@ },
            LockRequest::Look { path } => LockOp::Look { path: path@ },
            LockRequest::Break { warning, path } => LockOp::Break {
                warning: warning@,
                path: path@,
            },
            LockRequest::CreateNew { path } => LockOp::CreateNew { path: path@ },
            LockRequest::Fill { path, bytes } => LockOp::Fill { path: path@, bytes: bytes@ },
        }
    }
}

impl View for LockReply {
    type V = LockAnswer;

    open spec fn view(&self) -> LockAnswer {
        match *self {
            LockReply::Absent => LockAnswer::Absent,
            LockReply::Present { age_secs } => LockAnswer::Present { age_secs },
            LockReply::Done => LockAnswer::Done,
            LockReply::Failed { error } => LockAnswer::Failed { error: error@ },
        }
    }
}

/// A lock that is held. Whoever holds it deletes the file in the end.
pub struct PushLockGuard {
    lock_path: String,
}

impl View for PushLockGuard {
    type V = Seq<char>;

    /// The file of the lock.
    closed spec fn view(&self) -> Seq<char> {
        self.lock_path@
    }
}

impl PushLockGuard {
    /// The file of the lock.
    pub fn lock_path(&self) -> (r: &str)
        ensures
            r@ == self@,
    {
        self.lock_path.as_str()
    }

    /// Gives the lock up: the file that is to be deleted.
    pub fn release(self) -> (r: String)
        ensures
            r@ == self@,
    {
        self.lock_path
    }
}

/// How far the taking of a lock has come.
#[derive(Clone, Copy)]
pub enum LockPhase {
    MakingDir,
    Looking,
    Breaking,
    Creating,
    Filling,
}

/// A push that is about to take the lock.
pub struct Locking {
    path: String,
    content: Vec<u8>,
    force: bool,
    phase: LockPhase,
}

/// The taking of a lock, by view.
pub struct LockState {
    pub path: Seq<char>,
    pub content: Seq<u8>,
    pub force: bool,
    pub at: LockPhase,
}

impl View for Locking {
    type V = LockState;

    closed spec fn view(&self) -> LockState {
        LockState {
            path: self.path@,
            content: self.content@,
            force: self.force,
            at: self.phase,
        }
    }
}

/// How the taking of a lock goes on: with a request, or not at all.
pub enum LockStep {
    Ask { request: LockRequest, then: Locking },
    Finished { outcome: Result<PushLockGuard, Error> },
}

/// A step, by view.
pub enum LockMove {
    Ask { op: LockOp, then: LockState },
    Finished { outcome: Result<Seq<char>, Seq<char>> },
}

impl View for LockStep {
    type V = LockMove;

    open spec fn view(&self) -> LockMove {
        match *self {
            LockStep::Ask { request, then } => LockMove::Ask { op: request@, then: then@ },
            LockStep::Finished { outcome } => LockMove::Finished {
                outcome: match outcome {
                    Ok(guard) => Ok(guard@),
                    Err(e) => Err(e@),
                },
            },
        }
    }
}

/// A lock that is there may be broken: by force, or because it was left behind.
pub open spec fn may_break(force: bool, age_secs: Option<u64>) -> bool {
    force || (age_secs matches Some(age) && age > STALE_SECS)
}

/// What is said where a lock is broken.
pub open spec fn breaking_text(path: Seq<char>) -> Seq<char> {
    "xet-ai: warning: breaking existing push lock at "@ + path
}

/// What is said where another push holds the lock.
pub open spec fn busy_text(path: Seq<char>) -> Seq<char> {
    "another push appears to be in progress; lock exists at "@ + path
}

/// What is said where the lock cannot be made.
pub open spec fn not_acquired_text(path: Seq<char>) -> Seq<char> {
    "failed to acquire push lock at "@ + path
}

/// Make the lock.
pub open spec fn lock_create(m: LockState) -> LockMove {
    LockMove::Ask {
        op: LockOp::CreateNew { path: m.path },
        then: LockState { at: LockPhase::Creating, ..m },
    }
}

/// Look for a lock.
pub open spec fn lock_look(m: LockState) -> LockMove {
    LockMove::Ask {
        op: LockOp::Look { path: m.path },
        then: LockState { at: LockPhase::Looking, ..m },
    }
}

/// The taking of a lock before its first reply.
pub open spec fn lock_job(
    root: Seq<char>,
    force: bool,
    pid: u32,
    host: Option<Seq<char>>,
    unix_ts: u64,
) -> LockState {
    LockState {
        path: lock_file(root),
        content: encode_utf8(
            lock_content(
                pid,
                match host {
                    Some(h) => h,
                    None => "unknown-host"@,
                },
                unix_ts,
            ),
        ),
        force,
        at: LockPhase::MakingDir,
    }
}

/// How the taking of a lock begins.
pub open spec fn lock_start(job: LockState) -> LockMove {
    match parent(job.path) {
        Some(dir) => LockMove::Ask { op: LockOp::CreateDirs { path: dir }, then: job },
        None => lock_look(job),
    }
}

/// How the taking of a lock goes on after a reply.
pub open spec fn lock_next(m: LockState, reply: LockAnswer) -> LockMove {
    match (m.at, reply) {
        (LockPhase::MakingDir, LockAnswer::Done) => lock_look(m),
        (LockPhase::Looking, LockAnswer::Absent) => lock_create(m),
        (LockPhase::Looking, LockAnswer::Present { age_secs }) => if may_break(m.force, age_secs) {
            LockMove::Ask {
                op: LockOp::Break { warning: breaking_text(m.path), path: m.path },
                then: LockState { at: LockPhase::Breaking, ..m },
            }
        } else {
            LockMove::Finished { outcome: Err(busy_text(m.path)) }
        },
        (LockPhase::Breaking, _) => lock_create(m),
        (LockPhase::Creating, LockAnswer::Done) => LockMove::Ask {
            op: LockOp::Fill { path: m.path, bytes: m.content },
            then: LockState { at: LockPhase::Filling, ..m },
        },
        (LockPhase::Filling, LockAnswer::Done) => LockMove::Finished { outcome: Ok(m.path) },
        (LockPhase::Creating, LockAnswer::Failed { error }) => LockMove::Finished {
            outcome: Err(in_context(not_acquired_text(m.path), error)),
        },
        (_, LockAnswer::Failed { error }) => LockMove::Finished { outcome: Err(error) },
        (_, _) => LockMove::Finished { outcome: Err(misfit_text()) },
    }
}

impl Locking {
    fn at(self, phase: LockPhase) -> (r: Locking)
        ensures
            r@ == (LockState { at: phase, ..self@ }),
    {
        Locking { path: self.path, content: self.content, force: self.force, phase }
    }

    fn look(self) -> (r: LockStep)
        ensures
            r@ == lock_look(self@),
    {
        let path = self.path.clone();
        LockStep::Ask { request: LockRequest::Look { path }, then: self.at(LockPhase::Looking) }
    }

    fn create(self) -> (r: LockStep)
        ensures
            r@ == lock_create(self@),
    {
        let path = self.path.clone();
        LockStep::Ask { request: LockRequest::CreateNew { path }, then: self.at(LockPhase::Creating) }
    }

    fn broken(&self) -> (r: String)
        ensures
            r@ == breaking_text(self@.path),
    {
        let mut m = "xet-ai: warning: breaking existing push lock at ".to_owned();
        m.append(self.path.as_str());
        m
    }

    /// Goes on after a reply.
    pub fn next(self, reply: LockReply) -> (r: LockStep)
        ensures
            r@ == lock_next(self@, reply@),
    {
        match (self.phase, reply) {
            (LockPhase::MakingDir, LockReply::Done) => self.look(),
            (LockPhase::Looking, LockReply::Absent) => self.create(),
            (LockPhase::Looking, LockReply::Present { age_secs }) => {
                let stale = match age_secs {
                    Some(age) => age > STALE_SECS,
                    None => false,
                };
                if self.force || stale {
                    let path = self.path.clone();
                    let warning = self.broken();
                    LockStep::Ask {
                        request: LockRequest::Break { warning, path },
                        then: self.at(LockPhase::Breaking),
                    }
                } else {
                    let mut m = "another push appears to be in progress; lock exists at ".to_owned();
                    m.append(self.path.as_str());
                    LockStep::Finished { outcome: Err(Error::new(m)) }
                }
            },
            (LockPhase::Breaking, _) => self.create(),
            (LockPhase::Creating, LockReply::Done) => {
                let path = self.path.clone();
                let bytes = self.content.clone();
                LockStep::Ask {
                    request: LockRequest::Fill { path, bytes },
                    then: self.at(LockPhase::Filling),
                }
            },
            (LockPhase::Filling, LockReply::Done) => LockStep::Finished {
                outcome: Ok(PushLockGuard { lock_path: self.path }),
            },
            (LockPhase::Creating, LockReply::Failed { error }) => {
                let mut m = "failed to acquire push lock at ".to_owned();
                m.append(self.path.as_str());
                LockStep::Finished { outcome: Err(error.context(m.as_str())) }
            },
            (_, LockReply::Failed { error }) => LockStep::Finished { outcome: Err(error) },
            (_, _) => LockStep::Finished { outcome: Err(misfit()) },
        }
    }
}

/// Begins to take the lock of a remote. `host` is the name of this machine, where it is
/// known.
pub fn acquire_push_lock(
    remote_repo_root: &str,
    force_lock: bool,
    pid: u32,
    host: Option<String>,
    unix_ts: u64,
) -> (r: LockStep)
    ensures
        r@ == lock_start(
            lock_job(remote_repo_root@, force_lock, pid, host.deep_view(), unix_ts),
        ),
{
    let dir = join_path(remote_repo_root, "locks");
    let path = join_path(dir.as_str(), "push.lock");
    let host = match host {
        Some(h) => h,
        None => "unknown-host".to_owned(),
    };
    let content = bytes_of(lock_content_of(pid, host.as_str(), unix_ts).as_str());
    let above = parent_of(path.as_str());
    let job = Locking { path, content, force: force_lock, phase: LockPhase::MakingDir };
    match above {
        Some(dir) => LockStep::Ask { request: LockRequest::CreateDirs { path: dir }, then: job },
        None => job.look(),
    }
}

/// Whether there is a lock, and its age.
pub type LockThere = Option<Option<u64>>;

/// What is answered to a request where the file system works.
pub open spec fn lock_answer(there: LockThere, op: LockOp) -> LockAnswer {
    match op {
        LockOp::CreateDirs { .. } => LockAnswer::Done,
        LockOp::Look { .. } => match there {
            None => LockAnswer::Absent,
            Some(age_secs) => LockAnswer::Present { age_secs },
        },
        LockOp::Break { .. } => LockAnswer::Done,
        LockOp::CreateNew { .. } => if there is None {
            LockAnswer::Done
        } else {
            LockAnswer::Failed { error: "file exists"@ }
        },
        LockOp::Fill { .. } => LockAnswer::Done,
    }
}

/// Whether there is a lock after a request. One that was just made is new.
pub open spec fn lock_after(there: LockThere, op: LockOp) -> LockThere {
    match op {
        LockOp::Break { .. } => None,
        LockOp::CreateNew { .. } => if there is None {
            Some(Some(0u64))
        } else {
            there
        },
        _ => there,
    }
}

/// Whether there is a lock once the taking of it is over, and how that ended.
pub open spec fn lock_run(there: LockThere, step: LockMove) -> (
    LockThere,
    Result<Seq<char>, Seq<char>>,
)
    decreases (match step {
        LockMove::Ask { then, .. } => match then.at {
            LockPhase::MakingDir => 5nat,
            LockPhase::Looking => 4nat,
            LockPhase::Breaking => 3nat,
            LockPhase::Creating => 2nat,
            LockPhase::Filling => 1nat,
        },
        LockMove::Finished { .. } => 0nat,
    }),
{
    match step {
        LockMove::Finished { outcome } => (there, outcome),
        LockMove::Ask { op, then } => lock_run(
            lock_after(there, op),
            lock_next(then, lock_answer(there, op)),
        ),
    }
}

/// The lock is taken exactly where there is none, or the one that is there may be broken.
/// Otherwise the push is refused, and the lock that is there stays.
pub proof fn lemma_lock_excludes(there: LockThere, job: LockState)
    requires
        job.at is MakingDir,
    ensures
        lock_run(there, lock_start(job)) == if there matches Some(age) && !may_break(
            job.force,
            age,
        ) {
            (there, Err::<Seq<char>, Seq<char>>(busy_text(job.path)))
        } else {
            (Some(Some(0u64)), Ok(job.path))
        },
{
    reveal_with_fuel(lock_run, 7);
}

/// Of two pushes, one after the other and neither by force, the second is refused while
/// the first holds the lock, up to the age at which a lock counts as left behind.
pub proof fn lemma_second_push_waits(first: LockState, second: LockState, age: u64)
    requires
        first.at is MakingDir,
        second.at is MakingDir,
        !second.force,
        age <= STALE_SECS,
    ensures
        lock_run(None, lock_start(first)).1 is Ok,
        lock_run(None, lock_start(first)).0 is Some,
        lock_run(Some(Some(age)), lock_start(second)).1 == Err::<Seq<char>, Seq<char>>(
            busy_text(second.path),
        ),
{
    lemma_lock_excludes(None, first);
    lemma_lock_excludes(Some(Some(age)), second);
}

} // verus!
