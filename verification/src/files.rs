//! Work on local files, as a conversation: a job asks for one operation on the file
//! system at a time, is told how it went, and asks for the next or finishes.

use vstd::prelude::*;
use vstd::utf8::*;

use crate::error::{told, Error};
use crate::hash::is_lower_hex;
use crate::paths::{file_name, file_name_of, join, join_path, parent, parent_of};
use crate::text::{bytes_of, decimal, decimal_text};

verus! {

/// An operation on the local file system.
pub enum FileRequest {
    /// Whether there is a file at `path`, and its size.
    Stat { path: String },
    /// The size of the file at `path`, which is expected to be there.
    Measure { path: String },
    /// The SHA-256 of the file at `path`.
    Sha256 { path: String },
    /// Make the directory `path` and those above it.
    CreateDirs { path: String },
    /// Write a new file and flush it to disk.
    Write { path: String, bytes: Vec<u8> },
    /// Copy a file.
    Copy { from: String, to: String },
    /// Move a file in place of whatever is at `to`.
    Rename { from: String, to: String },
    /// Delete a file.
    Remove { path: String },
}

/// What came of an operation.
pub enum FileReply {
    /// There is no file.
    Missing,
    /// There is a file of this many bytes.
    Size { bytes: u64 },
    /// The file has this SHA-256.
    Hash { sha256: String },
    /// The operation succeeded and has nothing to tell.
    Done,
    /// The operation failed.
    Failed { error: Error },
}

/// An operation, with its arguments taken by view.
pub enum FileOp {
    Stat { path: Seq<char> },
    Measure { path: Seq<char> },
    Sha256 { path: Seq<char> },
    CreateDirs { path: Seq<char> },
    Write { path: Seq<char>, bytes: Seq<u8> },
    Copy { from: Seq<char>, to: Seq<char> },
    Rename { from: Seq<char>, to: Seq<char> },
    Remove { path: Seq<char> },
}

/// A reply, taken by view.
pub enum FileAnswer {
    Missing,
    Size { bytes: u64 },
    Hash { sha256: Seq<char> },
    Done,
    Failed { error: Seq<char> },
}

impl View for FileRequest {
    type V = FileOp;

    open spec fn view(&self) -> FileOp {
        match *self {
            FileRequest::Stat { path } => FileOp::Stat { path: path@ },
            FileRequest::Measure { path } => FileOp::Measure { path: path@ },
            FileRequest::Sha256 { path } => FileOp::Sha256 { path: path@ },
            FileRequest::CreateDirs { path } => FileOp::CreateDirs { path: path@ },
            FileRequest::Write { path, bytes } => FileOp::Write { path: path@, bytes: bytes@ },
            FileRequest::Copy { from, to } => FileOp::Copy { from: from@, to: to@ },
            FileRequest::Rename { from, to } => FileOp::Rename { from: from@, to: to@ },
            FileRequest::Remove { path } => FileOp::Remove { path: path@ },
        }
    }
}

impl View for FileReply {
    type V = FileAnswer;

    open spec fn view(&self) -> FileAnswer {
        match *self {
            FileReply::Missing => FileAnswer::Missing,
            FileReply::Size { bytes } => FileAnswer::Size { bytes },
            FileReply::Hash { sha256 } => FileAnswer::Hash { sha256: sha256@ },
            FileReply::Done => FileAnswer::Done,
            FileReply::Failed { error } => FileAnswer::Failed { error: error@ },
        }
    }
}

/// How a job goes on: with a request and the job that waits for the reply, or not at all.
pub enum Step<M, T> {
    Ask { request: FileRequest, then: M },
    Finished { outcome: Result<T, Error> },
}

/// A step, taken by view.
pub enum Move<M, T> {
    Ask { op: FileOp, then: M },
    Finished { outcome: Result<T, Seq<char>> },
}

impl<M: View, T> View for Step<M, T> {
    type V = Move<M::V, T>;

    open spec fn view(&self) -> Move<M::V, T> {
        match *self {
            Step::Ask { request, then } => Move::Ask { op: request@, then: then@ },
            Step::Finished { outcome } => Move::Finished { outcome: told(outcome) },
        }
    }
}

/// What is said of a reply that does not answer the request.
pub open spec fn misfit_text() -> Seq<char> {
    "unexpected reply to a file request"@
}

/// The error for a reply that does not answer the request.
pub fn misfit() -> (r: Error)
    ensures
        r@ == misfit_text(),
{
    Error::saying("unexpected reply to a file request")
}

/// What is said where a destination has no directory to put it in.
pub open spec fn no_parent_text(dest: Seq<char>) -> Seq<char> {
    "destination has no parent: "@ + dest
}

/// The error for a destination without a directory.
pub fn no_parent(dest: &str) -> (r: Error)
    ensures
        r@ == no_parent_text(dest@),
{
    let mut m = "destination has no parent: ".to_owned();
    m.append(dest);
    Error::new(m)
}

/// The textual form of a random UUID: lowercase hexadecimal digits in groups of 8, 4,
/// 4, 4 and 12, with the version and the variant of a random one.
pub open spec fn is_random_uuid(s: Seq<char>) -> bool {
    &&& s.len() == 36
    &&& forall|i: int|
        0 <= i < 36 ==> if i == 8 || i == 13 || i == 18 || i == 23 {
            #[trigger] s[i] == '-'
        } else {
            is_lower_hex(s[i])
        }
    &&& s[14] == '4'
    &&& (s[19] == '8' || s[19] == '9' || s[19] == 'a' || s[19] == 'b')
}

/// `Uuid::new_v4` of the crate `uuid`, as text: the bits are random but for the version
/// and the variant, and the text has the hyphenated lowercase form. Which UUID it is, is
/// left to chance.
#[verifier::external_body]
fn new_uuid() -> (r: String)
    ensures
        is_random_uuid(r@),
{
    uuid::Uuid::new_v4().to_string()
}

/// A suffix that no other temporary file has: a fresh random UUID.
pub fn random_suffix() -> (r: String)
    ensures
        is_random_uuid(r@),
{
    new_uuid()
}

/// The name of a temporary file beside `name`.
pub open spec fn temp_name(
    lead: Seq<char>,
    name: Option<Seq<char>>,
    pid: u32,
    suffix: Seq<char>,
) -> Seq<char> {
    let shown = match name {
        Some(n) => n,
        None => Seq::empty(),
    };
    lead + shown + ".tmp."@ + decimal(pid as nat) + "."@ + suffix
}

/// The temporary file beside `dest`, in `dir`.
pub open spec fn temp_path(
    lead: Seq<char>,
    dir: Seq<char>,
    dest: Seq<char>,
    pid: u32,
    suffix: Seq<char>,
) -> Seq<char> {
    join(dir, temp_name(lead, file_name(dest), pid, suffix))
}

/// The temporary file beside `dest`, in `dir`.
pub fn temp_path_for(lead: &str, dir: &str, dest: &str, pid: u32, suffix: &str) -> (r: String)
    ensures
        r@ == temp_path(lead@, dir@, dest@, pid, suffix@),
{
    let mut name = lead.to_owned();
    let shown = file_name_of(dest);
    match shown {
        Some(n) => name.append(n.as_str()),
        None => name.append(""),
    }
    proof {
        reveal_strlit("");
    }
    name.append(".tmp.");
    name.append(decimal_text(pid as u64).as_str());
    name.append(".");
    name.append(suffix);
    join_path(dir, name.as_str())
}

/// What a new file is filled with.
pub enum Payload {
    /// These bytes.
    Bytes { bytes: Vec<u8> },
    /// The content of the file at this path.
    File { path: String },
}

/// A payload, taken by view.
pub enum Filling {
    Bytes { bytes: Seq<u8> },
    File { path: Seq<char> },
}

impl View for Payload {
    type V = Filling;

    open spec fn view(&self) -> Filling {
        match *self {
            Payload::Bytes { bytes } => Filling::Bytes { bytes: bytes@ },
            Payload::File { path } => Filling::File { path: path@ },
        }
    }
}

/// How far an atomic put has come.
pub enum PutPhase {
    /// The directory is being made.
    MakingDir { payload: Payload },
    /// The temporary file is being filled.
    Filling,
    /// The temporary file is being moved to its place.
    Renaming,
    /// The temporary file is being deleted, because of a failure.
    CleaningUp { why: Error },
}

/// Where an atomic put stands, taken by view.
pub enum PutAt {
    MakingDir { payload: Filling },
    Filling,
    Renaming,
    CleaningUp { why: Seq<char> },
}

impl View for PutPhase {
    type V = PutAt;

    open spec fn view(&self) -> PutAt {
        match *self {
            PutPhase::MakingDir { payload } => PutAt::MakingDir { payload: payload@ },
            PutPhase::Filling => PutAt::Filling,
            PutPhase::Renaming => PutAt::Renaming,
            PutPhase::CleaningUp { why } => PutAt::CleaningUp { why: why@ },
        }
    }
}

/// A job that puts a file in its place at once: it fills a temporary file in the same
/// directory and then renames it.
pub struct AtomicPut {
    dest: String,
    tmp: String,
    phase: PutPhase,
}

/// An atomic put, taken by view.
pub struct PutState {
    pub dest: Seq<char>,
    pub tmp: Seq<char>,
    pub at: PutAt,
}

impl View for AtomicPut {
    type V = PutState;

    closed spec fn view(&self) -> PutState {
        PutState { dest: self.dest@, tmp: self.tmp@, at: self.phase@ }
    }
}

/// The operation that fills the temporary file.
pub open spec fn fill_op(payload: Filling, tmp: Seq<char>) -> FileOp {
    match payload {
        Filling::Bytes { bytes } => FileOp::Write { path: tmp, bytes },
        Filling::File { path } => FileOp::Copy { from: path, to: tmp },
    }
}

/// How an atomic put begins.
pub open spec fn put_start(
    dest: Seq<char>,
    payload: Filling,
    pid: u32,
    suffix: Seq<char>,
) -> Move<PutState, ()> {
    match parent(dest) {
        None => Move::Finished { outcome: Err(no_parent_text(dest)) },
        Some(dir) => Move::Ask {
            op: FileOp::CreateDirs { path: dir },
            then: PutState {
                dest,
                tmp: temp_path("."@, dir, dest, pid, suffix),
                at: PutAt::MakingDir { payload },
            },
        },
    }
}

/// Delete the temporary file, then fail.
pub open spec fn put_cleanup(m: PutState, why: Seq<char>) -> Move<PutState, ()> {
    Move::Ask {
        op: FileOp::Remove { path: m.tmp },
        then: PutState { at: PutAt::CleaningUp { why }, ..m },
    }
}

/// How an atomic put goes on after a reply.
pub open spec fn put_next(m: PutState, reply: FileAnswer) -> Move<PutState, ()> {
    match m.at {
        PutAt::MakingDir { payload } => match reply {
            FileAnswer::Done => Move::Ask {
                op: fill_op(payload, m.tmp),
                then: PutState { at: PutAt::Filling, ..m },
            },
            FileAnswer::Failed { error } => Move::Finished { outcome: Err(error) },
            _ => Move::Finished { outcome: Err(misfit_text()) },
        },
        PutAt::Filling => match reply {
            FileAnswer::Done => Move::Ask {
                op: FileOp::Rename { from: m.tmp, to: m.dest },
                then: PutState { at: PutAt::Renaming, ..m },
            },
            FileAnswer::Failed { error } => put_cleanup(m, error),
            _ => put_cleanup(m, misfit_text()),
        },
        PutAt::Renaming => match reply {
            FileAnswer::Done => Move::Finished { outcome: Ok(()) },
            FileAnswer::Failed { error } => put_cleanup(m, error),
            _ => put_cleanup(m, misfit_text()),
        },
        PutAt::CleaningUp { why } => Move::Finished { outcome: Err(why) },
    }
}

impl AtomicPut {
    /// Begins to put `payload` at `dest`.
    fn start(dest: &str, payload: Payload, pid: u32, suffix: &str) -> (r: Step<AtomicPut, ()>)
        ensures
            r@ == put_start(dest@, payload@, pid, suffix@),
    {
        match parent_of(dest) {
            None => Step::Finished { outcome: Err(no_parent(dest)) },
            Some(dir) => {
                let tmp = temp_path_for(".", dir.as_str(), dest, pid, suffix);
                Step::Ask {
                    request: FileRequest::CreateDirs { path: dir },
                    then: AtomicPut {
                        dest: dest.to_owned(),
                        tmp,
                        phase: PutPhase::MakingDir { payload },
                    },
                }
            },
        }
    }

    fn clean_up(self, why: Error) -> (r: Step<AtomicPut, ()>)
        ensures
            r@ == put_cleanup(self@, why@),
    {
        let path = self.tmp.clone();
        Step::Ask {
            request: FileRequest::Remove { path },
            then: AtomicPut {
                dest: self.dest,
                tmp: self.tmp,
                phase: PutPhase::CleaningUp { why },
            },
        }
    }

    /// Goes on after a reply.
    pub fn next(self, reply: FileReply) -> (r: Step<AtomicPut, ()>)
        ensures
            r@ == put_next(self@, reply@),
    {
        let AtomicPut { dest, tmp, phase } = self;
        match phase {
            PutPhase::MakingDir { payload } => match reply {
                FileReply::Done => {
                    let path = tmp.clone();
                    let request = match payload {
                        Payload::Bytes { bytes } => FileRequest::Write { path, bytes },
                        Payload::File { path: from } => FileRequest::Copy { from, to: path },
                    };
                    Step::Ask { request, then: AtomicPut { dest, tmp, phase: PutPhase::Filling } }
                },
                FileReply::Failed { error } => Step::Finished { outcome: Err(error) },
                _ => Step::Finished { outcome: Err(misfit()) },
            },
            PutPhase::Filling => match reply {
                FileReply::Done => {
                    let request = FileRequest::Rename { from: tmp.clone(), to: dest.clone() };
                    Step::Ask { request, then: AtomicPut { dest, tmp, phase: PutPhase::Renaming } }
                },
                FileReply::Failed { error } => AtomicPut {
                    dest,
                    tmp,
                    phase: PutPhase::Filling,
                }.clean_up(error),
                _ => AtomicPut { dest, tmp, phase: PutPhase::Filling }.clean_up(misfit()),
            },
            PutPhase::Renaming => match reply {
                FileReply::Done => Step::Finished { outcome: Ok(()) },
                FileReply::Failed { error } => AtomicPut {
                    dest,
                    tmp,
                    phase: PutPhase::Renaming,
                }.clean_up(error),
                _ => AtomicPut { dest, tmp, phase: PutPhase::Renaming }.clean_up(misfit()),
            },
            PutPhase::CleaningUp { why } => Step::Finished { outcome: Err(why) },
        }
    }
}

/// Begins to write `bytes` to `dest`, at once.
pub fn atomic_write_bytes(dest: &str, bytes: Vec<u8>, pid: u32, suffix: &str) -> (r: Step<
    AtomicPut,
    (),
>)
    ensures
        r@ == put_start(dest@, Filling::Bytes { bytes: bytes@ }, pid, suffix@),
{
    AtomicPut::start(dest, Payload::Bytes { bytes }, pid, suffix)
}

/// Begins to write a text to `dest` as UTF-8, at once.
pub fn atomic_write_string(dest: &str, content: &str, pid: u32, suffix: &str) -> (r: Step<
    AtomicPut,
    (),
>)
    ensures
        r@ == put_start(dest@, Filling::Bytes { bytes: encode_utf8(content@) }, pid, suffix@),
{
    atomic_write_bytes(dest, bytes_of(content), pid, suffix)
}

/// Begins to copy the file `src` to `dst`, at once.
pub fn copy_file_atomic(src: &str, dst: &str, pid: u32, suffix: &str) -> (r: Step<AtomicPut, ()>)
    ensures
        r@ == put_start(dst@, Filling::File { path: src@ }, pid, suffix@),
{
    AtomicPut::start(dst, Payload::File { path: src.to_owned() }, pid, suffix)
}

/// The destination is named by one request alone, the rename of the temporary file, and
/// that is asked for only once the temporary file has been filled. All other requests
/// are about the temporary file.
pub proof fn lemma_put_publishes_whole_files(m: PutState, reply: FileAnswer)
    ensures
        put_next(m, reply) matches Move::Ask { op, then } ==> {
            &&& then.dest == m.dest && then.tmp == m.tmp
            &&& (op is Rename ==> m.at is Filling && reply is Done && op == (FileOp::Rename {
                from: m.tmp,
                to: m.dest,
            }))
            &&& (op is Remove ==> op == (FileOp::Remove { path: m.tmp }))
            &&& (!(op is Rename) && !(op is Remove) ==> m.at is MakingDir && op == fill_op(
                m.at->payload,
                m.tmp,
            ))
        },
        put_next(m, reply) == (Move::<PutState, ()>::Finished { outcome: Ok(()) }) ==> m.at is Renaming
            && reply is Done,
{
}

/// Once the temporary file may exist, a failure is reported only after it was asked to
/// be deleted.
pub proof fn lemma_put_cleans_up(m: PutState, reply: FileAnswer)
    requires
        m.at is Filling || m.at is Renaming,
        !(reply is Done),
    ensures
        put_next(m, reply) matches Move::Ask { op, then } && op == (FileOp::Remove { path: m.tmp })
            && then.at is CleaningUp,
        forall|again: FileAnswer|
            #![trigger put_next(put_next(m, reply)->then, again)]
            put_next(put_next(m, reply)->then, again) == (Move::<PutState, ()>::Finished {
                outcome: Err(put_next(m, reply)->then.at->why),
            }),
{
}

} // verus!
