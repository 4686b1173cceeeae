//! Laws of copying between local content stores, and of verifying one: a copy is seen only
//! once it was held to its size and, up to a limit, to its hash.

use vstd::prelude::*;

use crate::error::Error;
use crate::files::{temp_path, FileReply, FileRequest, Step};
use crate::laws::store::{bytes_in, lemma_bytes_in};
use crate::paths::{join, parent_of};
use crate::sync::local::{copy_file_atomic_verified, CopyAt, VerifiedCopy};
use crate::sync::manifest::{entry_views, EntryView, Manifest};
use crate::sync::runs::{
    pull_from_manifest, push_with_manifest, verify_manifest_local, CopyRun, StageAt, VerifyRun,
};
use crate::sync::transfer::{tally, SyncSummary};
use crate::text::decimal;

verus! {

/// The copy is over, with this error.
pub open spec fn copy_fails(r: Step<VerifiedCopy, u64>, why: Seq<char>) -> bool {
    r matches Step::Finished { outcome } && (outcome matches Err(e) && e@ == why)
}

/// The copy is over, and this many bytes were copied.
pub open spec fn copy_succeeds(r: Step<VerifiedCopy, u64>, copied: u64) -> bool {
    r matches Step::Finished { outcome } && outcome == Ok::<u64, Error>(copied)
}

/// The temporary file is deleted, and then the copy is over with this error.
pub open spec fn copy_cleans_up(
    m: VerifiedCopy,
    r: Step<VerifiedCopy, u64>,
    why: Seq<char>,
) -> bool {
    r matches Step::Ask { request, then } && same_copy(m, then) && then@.at == (
    CopyAt::CleaningUp { why }) && (request matches FileRequest::Remove { path } && path@ == m@.tmp)
}

/// The temporary file takes its place.
pub open spec fn copy_takes_place(m: VerifiedCopy, r: Step<VerifiedCopy, u64>) -> bool {
    r matches Step::Ask { request, then } && same_copy(m, then) && then@.at is Renaming && (
    request matches FileRequest::Rename { from, to } && from@ == m@.tmp && to@ == m@.dst)
}

/// The job is about the same files.
pub open spec fn same_copy(m: VerifiedCopy, then: VerifiedCopy) -> bool {
    then@.src == m@.src && then@.dst == m@.dst && then@.dir == m@.dir && then@.tmp == m@.tmp
        && then@.size == m@.size && then@.sha256 == m@.sha256
}

/// A hash is given, and the file is not too large to be held to it.
pub open spec fn is_to_be_hashed(m: VerifiedCopy) -> bool {
    m@.sha256 is Some && m@.size <= 8388608
}

/// A copy begins by looking for the file that is to be there, and goes by way of a file
/// beside it.
pub proof fn law_copy_begins(
    src: &str,
    dst: &str,
    size: u64,
    sha256: Option<String>,
    pid: u32,
    suffix: &str,
    r: Step<VerifiedCopy, u64>,
    up: Option<String>,
)
    requires
        call_ensures(copy_file_atomic_verified, (src, dst, size, sha256, pid, suffix), r),
        call_ensures(parent_of, (dst,), up),
    ensures
        r matches Step::Ask { request, then } && (request matches FileRequest::Stat { path } && path@
            == dst@) && then@.at is CheckingDst && then@.src == src@ && then@.dst == dst@
            && then@.size == size && match sha256 {
            Some(h) => then@.sha256 == Some(h@),
            None => then@.sha256 is None,
        } && match up {
            Some(dir) => then@.dir == Some(dir@) && then@.tmp == temp_path(
                Seq::empty(),
                dir@,
                dst@,
                pid,
                suffix@,
            ),
            None => then@.dir is None,
        },
{
    reveal_strlit("");
    assert(""@ =~= Seq::empty());
}

/// A file that is there already is held to its size and its hash, and left as it is.
pub proof fn law_copy_finds(
    m: VerifiedCopy,
    bytes: u64,
    r: Step<VerifiedCopy, u64>,
    n: VerifiedCopy,
    sha256: String,
    r2: Step<VerifiedCopy, u64>,
)
    requires
        call_ensures(VerifiedCopy::next, (m, FileReply::Size { bytes }), r),
        m@.at is CheckingDst,
        call_ensures(VerifiedCopy::next, (n, FileReply::Hash { sha256 }), r2),
        n@.at is HashingDst,
        n@.sha256 is Some,
    ensures
        bytes != m@.size ==> copy_fails(
            r,
            "destination corruption detected: "@ + m@.dst + " has size "@ + decimal(bytes as nat)
                + ", expected "@ + decimal(m@.size as nat),
        ),
        bytes == m@.size && is_to_be_hashed(m) ==> (r matches Step::Ask { request, then }
            && same_copy(m, then) && then@.at is HashingDst && (
        request matches FileRequest::Sha256 { path } && path@ == m@.dst)),
        bytes == m@.size && !is_to_be_hashed(m) ==> copy_succeeds(r, 0),
        sha256@ == n@.sha256->0 ==> copy_succeeds(r2, 0),
        sha256@ != n@.sha256->0 ==> copy_fails(
            r2,
            "destination hash mismatch: "@ + n@.dst + " expected "@ + n@.sha256->0 + " got "@
                + sha256@,
        ),
{
}

/// A file that is not there is copied: its directory is made, the source is looked for, and
/// copied to the temporary file.
pub proof fn law_copy_copies(
    m: VerifiedCopy,
    missing: Step<VerifiedCopy, u64>,
    done: Step<VerifiedCopy, u64>,
    bytes: u64,
    found: Step<VerifiedCopy, u64>,
)
    requires
        call_ensures(VerifiedCopy::next, (m, FileReply::Missing), missing),
        call_ensures(VerifiedCopy::next, (m, FileReply::Done), done),
        call_ensures(VerifiedCopy::next, (m, FileReply::Size { bytes }), found),
    ensures
        m@.at is CheckingDst && m@.dir is None ==> copy_fails(
            missing,
            "destination has no parent: "@ + m@.dst,
        ),
        m@.at is CheckingDst && m@.dir is Some ==> (missing matches Step::Ask { request, then }
            && same_copy(m, then) && then@.at is MakingDir && (
        request matches FileRequest::CreateDirs { path } && path@ == m@.dir->0)),
        m@.at is MakingDir ==> (done matches Step::Ask { request, then } && same_copy(m, then)
            && then@.at is CheckingSrc && (request matches FileRequest::Stat { path } && path@
            == m@.src)),
        m@.at is CheckingSrc ==> copy_fails(missing, "source missing: "@ + m@.src),
        m@.at is CheckingSrc ==> (found matches Step::Ask { request, then } && same_copy(m, then)
            && then@.at is Copying && (request matches FileRequest::Copy { from, to } && from@
            == m@.src && to@ == m@.tmp)),
        m@.at is Copying ==> (done matches Step::Ask { request, then } && same_copy(m, then)
            && then@.at is MeasuringTmp && (request matches FileRequest::Measure { path } && path@
            == m@.tmp)),
        m@.at is Renaming ==> copy_succeeds(done, m@.size),
{
}

/// The temporary file is held to the size and the hash before it takes its place; where it is
/// not right, it is deleted, and the file that was to be there is not touched.
pub proof fn law_copy_verifies(
    m: VerifiedCopy,
    bytes: u64,
    r: Step<VerifiedCopy, u64>,
    n: VerifiedCopy,
    sha256: String,
    r2: Step<VerifiedCopy, u64>,
)
    requires
        call_ensures(VerifiedCopy::next, (m, FileReply::Size { bytes }), r),
        m@.at is MeasuringTmp,
        call_ensures(VerifiedCopy::next, (n, FileReply::Hash { sha256 }), r2),
        n@.at is HashingTmp,
        n@.sha256 is Some,
    ensures
        bytes != m@.size ==> copy_cleans_up(
            m,
            r,
            "copied file has incorrect size: "@ + m@.tmp + " expected "@ + decimal(m@.size as nat)
                + " got "@ + decimal(bytes as nat),
        ),
        bytes == m@.size && is_to_be_hashed(m) ==> (r matches Step::Ask { request, then }
            && same_copy(m, then) && then@.at is HashingTmp && (
        request matches FileRequest::Sha256 { path } && path@ == m@.tmp)),
        bytes == m@.size && !is_to_be_hashed(m) ==> copy_takes_place(m, r),
        sha256@ == n@.sha256->0 ==> copy_takes_place(n, r2),
        sha256@ != n@.sha256->0 ==> copy_cleans_up(
            n,
            r2,
            "copied file has incorrect hash: "@ + n@.tmp + " expected "@ + n@.sha256->0 + " got "@
                + sha256@,
        ),
{
}

/// A step that fails ends the copy with that error, and where a temporary file may be there,
/// that is deleted first.
pub proof fn law_copy_fails(
    m: VerifiedCopy,
    error: Error,
    r: Step<VerifiedCopy, u64>,
    reply: FileReply,
    r2: Step<VerifiedCopy, u64>,
)
    requires
        call_ensures(VerifiedCopy::next, (m, FileReply::Failed { error }), r),
        call_ensures(VerifiedCopy::next, (m, reply), r2),
    ensures
        m@.at is Copying || m@.at is Renaming ==> copy_cleans_up(m, r, error@),
        m@.at is CheckingDst || m@.at is HashingDst || m@.at is MakingDir || m@.at is CheckingSrc
            || m@.at is MeasuringTmp || m@.at is HashingTmp ==> copy_fails(r, error@),
        m@.at matches CopyAt::CleaningUp { why } ==> copy_fails(r2, why),
{
}

/// The copy of a manifest's files is at the given one, and looks for it in the store that it
/// is copied to.
pub open spec fn run_is_copying(
    r: Step<CopyRun, SyncSummary>,
    from: Seq<char>,
    to: Seq<char>,
    e: EntryView,
    at: int,
) -> bool {
    r matches Step::Ask { request, then } && then@.at == at && (request matches FileRequest::Stat {
        path,
    } && path@ == join(to, e.relpath)) && (then@.stage matches StageAt::Copying { job } && job.src
        == join(from, e.relpath) && job.dst == join(to, e.relpath) && job.size == e.size
        && job.sha256 == Some(e.sha256) && job.at is CheckingDst)
}

/// The copy of a manifest's files is at the given one, and looks for it in the store that it
/// comes from.
pub open spec fn run_is_looking(
    r: Step<CopyRun, SyncSummary>,
    from: Seq<char>,
    e: EntryView,
    at: int,
) -> bool {
    r matches Step::Ask { request, then } && then@.at == at && (request matches FileRequest::Stat {
        path,
    } && path@ == join(from, e.relpath)) && then@.stage is CheckingSource
}

/// Nothing was there to be copied.
pub open spec fn run_is_empty(r: Step<CopyRun, SyncSummary>) -> bool {
    r matches Step::Finished { outcome } && (outcome matches Ok(summary) && summary.files_copied == 0
        && summary.bytes_copied == 0 && summary.files_verified == 0)
}

/// The files of a manifest are copied from the local store to the other, or from the other to
/// the local one; then each is looked for first where it comes from.
pub proof fn law_runs_begin<'m>(
    local: &str,
    remote: &str,
    manifest: &'m Manifest,
    pid: u32,
    suffix: &str,
    r: Step<CopyRun<'m>, SyncSummary>,
    r2: Step<CopyRun<'m>, SyncSummary>,
)
    requires
        call_ensures(push_with_manifest, (local, remote, manifest, pid, suffix), r),
        call_ensures(pull_from_manifest, (remote, local, manifest, pid, suffix), r2),
        bytes_in(manifest.entries@) <= u64::MAX,
    ensures
        manifest.entries@.len() == 0 ==> run_is_empty(r) && run_is_empty(r2),
        manifest.entries@.len() > 0 ==> {
            let e = manifest.entries@[0]@;
            &&& run_is_copying(r, local@, remote@, e, 0)
            &&& run_is_looking(r2, remote@, e, 0)
            &&& r matches Step::Ask { then, .. } && !then@.plan.check_source && then@.plan.from
                == local@ && then@.plan.to == remote@ && then@.plan.entries == entry_views(
                manifest.entries@,
            )
            &&& r2 matches Step::Ask { then, .. } && then@.plan.check_source && then@.plan.from
                == remote@ && then@.plan.to == local@ && then@.plan.entries == entry_views(
                manifest.entries@,
            )
        },
{
    lemma_bytes_in(manifest.entries@);
    if manifest.entries@.len() > 0 {
        assert(entry_views(manifest.entries@)[0] == manifest.entries@[0]@);
    }
}

/// A file that is not where it should come from is an error; one that is there is copied.
pub proof fn law_run_looks<'m>(
    m: CopyRun<'m>,
    suffix: &str,
    missing: Step<CopyRun<'m>, SyncSummary>,
    bytes: u64,
    found: Step<CopyRun<'m>, SyncSummary>,
    error: Error,
    failed: Step<CopyRun<'m>, SyncSummary>,
)
    requires
        m@.stage is CheckingSource,
        call_ensures(CopyRun::next, (m, FileReply::Failed { error }, suffix), failed),
        call_ensures(CopyRun::next, (m, FileReply::Missing, suffix), missing),
        call_ensures(CopyRun::next, (m, FileReply::Size { bytes }, suffix), found),
    ensures
        missing matches Step::Finished { outcome } && (outcome matches Err(e) && e@
            == "remote CAS file referenced by manifest is missing: "@ + join(
            m@.plan.from,
            m@.plan.entries[m@.at].relpath,
        )),
        failed matches Step::Finished { outcome } && (outcome matches Err(e) && e@ == error@),
        run_is_copying(found, m@.plan.from, m@.plan.to, m@.plan.entries[m@.at], m@.at),
        found matches Step::Ask { then, .. } && then@.plan == m@.plan && then@.summary == m@.summary,
{
}

/// What holds of the copy of one file holds of that of a manifest's; once it is done it is
/// counted, and the next file is up; the last one ends it.
pub proof fn law_run_goes_on<'m>(
    m: CopyRun<'m>,
    reply: FileReply,
    suffix: &str,
    r: Step<CopyRun<'m>, SyncSummary>,
    job: VerifiedCopy,
    one: Step<VerifiedCopy, u64>,
)
    requires
        m@.stage == (StageAt::Copying { job: job@ }),
        0 <= m@.at < m@.plan.entries.len(),
        call_ensures(CopyRun::next, (m, reply, suffix), r),
        call_ensures(VerifiedCopy::next, (job, reply), one),
    ensures
        match one {
            Step::Ask { request, then } => r matches Step::Ask { request: q, then: next } && q@
                == request@ && next@.at == m@.at && next@.stage == (StageAt::Copying { job: then@ })
                && next@.summary == m@.summary && next@.plan == m@.plan,
            Step::Finished { outcome: Err(e) } => r matches Step::Finished { outcome } && (
            outcome matches Err(why) && why@ == e@),
            Step::Finished { outcome: Ok(copied) } => {
                let n = m@.at + 1;
                let entries = m@.plan.entries;
                let sum = tally(m@.summary, copied);
                &&& n == entries.len() ==> r == Step::Finished::<CopyRun<'m>, SyncSummary> {
                    outcome: Ok(sum),
                }
                &&& n < entries.len() ==> {
                    &&& m@.plan.check_source ==> run_is_looking(r, m@.plan.from, entries[n], n)
                    &&& !m@.plan.check_source ==> run_is_copying(
                        r,
                        m@.plan.from,
                        m@.plan.to,
                        entries[n],
                        n,
                    )
                    &&& r matches Step::Ask { then, .. } && then@.summary == sum && then@.plan
                        == m@.plan
                }
            },
        },
{
}

/// The verification is at the given file, and looks for it.
pub open spec fn verify_is_at(
    r: Step<VerifyRun, SyncSummary>,
    root: Seq<char>,
    e: EntryView,
    at: int,
) -> bool {
    r matches Step::Ask { request, then } && then@.at == at && !then@.hashing && then@.root == root
        && (request matches FileRequest::Stat { path } && path@ == join(root, e.relpath))
}

/// The verification is over: this many files are right, and nothing was copied.
pub open spec fn verify_succeeds(r: Step<VerifyRun, SyncSummary>, files: nat) -> bool {
    r matches Step::Finished { outcome } && (outcome matches Ok(summary) && summary.files_copied == 0
        && summary.bytes_copied == 0 && summary.files_verified == files as u64)
}

/// The verification is over, with this error.
pub open spec fn verify_fails(r: Step<VerifyRun, SyncSummary>, why: Seq<char>) -> bool {
    r matches Step::Finished { outcome } && (outcome matches Err(e) && e@ == why)
}

/// The next file is up, or the verification is over.
pub open spec fn verify_goes_on(m: VerifyRun, r: Step<VerifyRun, SyncSummary>) -> bool {
    let n = m@.at + 1;
    &&& n == m@.entries.len() ==> verify_succeeds(r, m@.entries.len())
    &&& n < m@.entries.len() ==> verify_is_at(r, m@.root, m@.entries[n], n) && (
    r matches Step::Ask { then, .. } && then@.entries == m@.entries)
}

/// A manifest is verified file by file, from the first.
pub proof fn law_verify_begins<'m>(
    root: &str,
    manifest: &'m Manifest,
    r: Step<VerifyRun<'m>, SyncSummary>,
)
    requires
        call_ensures(verify_manifest_local, (root, manifest), r),
    ensures
        manifest.entries@.len() == 0 ==> verify_succeeds(r, 0),
        manifest.entries@.len() > 0 ==> verify_is_at(r, root@, manifest.entries@[0]@, 0) && (
        r matches Step::Ask { then, .. } && then@.entries == entry_views(manifest.entries@)),
{
    if manifest.entries@.len() > 0 {
        assert(entry_views(manifest.entries@)[0] == manifest.entries@[0]@);
    }
}

/// Each file must be there, with its size and, up to the limit, with its hash. The first that
/// is not ends the verification, and is told.
pub proof fn law_verify_goes_on<'m>(
    m: VerifyRun<'m>,
    missing: Step<VerifyRun<'m>, SyncSummary>,
    bytes: u64,
    sized: Step<VerifyRun<'m>, SyncSummary>,
    sha256: String,
    hashed: Step<VerifyRun<'m>, SyncSummary>,
    error: Error,
    failed: Step<VerifyRun<'m>, SyncSummary>,
)
    requires
        0 <= m@.at < m@.entries.len(),
        call_ensures(VerifyRun::next, (m, FileReply::Missing), missing),
        call_ensures(VerifyRun::next, (m, FileReply::Size { bytes }), sized),
        call_ensures(VerifyRun::next, (m, FileReply::Hash { sha256 }), hashed),
        call_ensures(VerifyRun::next, (m, FileReply::Failed { error }), failed),
    ensures
        ({
            let e = m@.entries[m@.at];
            let path = join(m@.root, e.relpath);
            &&& verify_fails(failed, error@)
            &&& !m@.hashing ==> {
                &&& verify_fails(missing, "manifest verify failed: missing local file "@ + path)
                &&& bytes != e.size ==> verify_fails(
                    sized,
                    "manifest verify failed: size mismatch for "@ + path + " (expected "@ + decimal(
                        e.size as nat,
                    ) + ", got "@ + decimal(bytes as nat) + ")"@,
                )
                &&& bytes == e.size && e.size > 8388608 ==> verify_goes_on(m, sized)
                &&& bytes == e.size && e.size <= 8388608 ==> (sized matches Step::Ask {
                    request,
                    then,
                } && then@.at == m@.at && then@.hashing && then@.entries == m@.entries && then@.root
                    == m@.root && (request matches FileRequest::Sha256 { path: p } && p@ == path))
            }
            &&& m@.hashing ==> {
                &&& sha256@ == e.sha256 ==> verify_goes_on(m, hashed)
                &&& sha256@ != e.sha256 ==> verify_fails(
                    hashed,
                    "manifest verify failed: hash mismatch for "@ + path + " (expected "@ + e.sha256
                        + ", got "@ + sha256@ + ")"@,
                )
            }
        }),
{
}

} // verus!
