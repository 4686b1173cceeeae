//! Laws of moving files: to a remote, from one, and between local content stores, always
//! held to their size and, up to a limit, to their hash.

use vstd::prelude::*;

use crate::error::Error;
use crate::files::{FileReply, FileRequest, Step};
use crate::hash::sha256_text;
use crate::laws::store::{bytes_in, lemma_bytes_in};
use crate::paths::join;
use crate::remote::{new_calls, RemoteCall, RemoteSession, RemoteStore};
use crate::sync::fetch::{
    copy_remote_to_local_atomic_verified, pull_from_manifest_store, FetchJob, FetchPhase, PullRun,
};
use crate::sync::manifest::{entry_views, total_size, EntryView, Manifest};
use crate::sync::roundtrip::{
    kept_after, keeps, lemma_push_keeps_everything, lemma_push_succeeds, lemma_truthful_split,
    truthful, Objects,
};
use crate::sync::runs::remote_missing;
use crate::sync::transfer::{
    add_file, copy_local_to_remote_atomic_verified, entry_uploaded, hash_mismatch, no_transfer,
    not_materialized, object_path_of, push_with_manifest_store, pushed, size_mismatch, sizes_fit,
    tally, verify_existing_remote, SyncSummary, VerifyPolicy,
};
use crate::sync::world::Files;
use crate::text::decimal;

verus! {

/// Files of up to eight mebibytes are held to their hash, unless it is said otherwise.
pub proof fn law_verify_limit(p: VerifyPolicy, s: SyncSummary)
    requires
        call_ensures(VerifyPolicy::default, (), p),
        call_ensures(SyncSummary::default, (), s),
    ensures
        p.hash_verify_limit == 8388608,
        s.files_copied == 0 && s.bytes_copied == 0 && s.files_verified == 0,
{
}

/// The object for a file of the content store bears its path, below `xet/`.
pub proof fn law_object_path(relpath: &str, r: String)
    requires
        call_ensures(object_path_of, (relpath,), r),
    ensures
        r@ == "xet/"@ + relpath@,
{
}

/// Every file counts as verified. One of which bytes were copied counts as copied, and so do
/// its bytes.
pub proof fn law_add_file(s: SyncSummary, copied: u64, r: SyncSummary)
    requires
        call_ensures(add_file, (s, copied), r),
        s.files_copied < u64::MAX,
        s.files_verified < u64::MAX,
        s.bytes_copied + copied <= u64::MAX,
    ensures
        r.files_verified == s.files_verified + 1,
        copied > 0 ==> r.files_copied == s.files_copied + 1 && r.bytes_copied == s.bytes_copied
            + copied,
        copied == 0 ==> r.files_copied == s.files_copied && r.bytes_copied == s.bytes_copied,
{
}

/// The sizes in a manifest fit exactly if their sum is a number of sixty-four bits.
pub proof fn law_sizes_fit(manifest: &Manifest, r: bool)
    requires
        call_ensures(sizes_fit, (manifest,), r),
    ensures
        r <==> bytes_in(manifest.entries@) <= 0xffff_ffff_ffff_ffff,
{
    lemma_bytes_in(manifest.entries@);
}

/// What is said of a file that is not what it should be names it, and both sizes or both
/// hashes; what is said of one that is not there names it.
pub proof fn law_complaints(
    path: &str,
    got: u64,
    want: u64,
    got_hash: &str,
    want_hash: &str,
    a: Error,
    b: Error,
    c: Error,
    d: Error,
)
    requires
        call_ensures(size_mismatch, (path, got, want), a),
        call_ensures(hash_mismatch, (path, want_hash, got_hash), b),
        call_ensures(not_materialized, (path,), c),
        call_ensures(remote_missing, (path,), d),
    ensures
        a@ == "destination corruption detected: "@ + path@ + " has size "@ + decimal(got as nat)
            + ", expected "@ + decimal(want as nat),
        b@ == "destination hash mismatch: "@ + path@ + " expected "@ + want_hash@ + " got "@
            + got_hash@,
        c@ == "remote copy failed to materialize "@ + path@,
        d@ == "remote CAS file referenced by manifest is missing: "@ + path@,
{
}

/// The content has this size and, up to the limit, this hash.
pub open spec fn is_as_said(bytes: Seq<u8>, size: u64, sha256: Seq<char>, limit: u64) -> bool {
    bytes.len() == size && (size <= limit ==> sha256_text(bytes) == sha256)
}

/// What is said of content that is not as it should be.
pub open spec fn mismatch(path: Seq<char>, bytes: Seq<u8>, size: u64, sha256: Seq<char>) -> Seq<
    char,
> {
    if bytes.len() != size {
        "destination corruption detected: "@ + path + " has size "@ + decimal(bytes.len())
            + ", expected "@ + decimal(size as nat)
    } else {
        "destination hash mismatch: "@ + path + " expected "@ + sha256 + " got "@ + sha256_text(
            bytes,
        )
    }
}

/// On a remote that works, a look at an object tells whether it is there, and fails exactly
/// if it is there and is not what it should be. Nothing changes.
pub proof fn law_verify_existing_remote<S: RemoteStore>(
    s: &mut RemoteSession<S>,
    path: &str,
    size: u64,
    sha256: &str,
    policy: VerifyPolicy,
    r: Result<bool, Error>,
    w: Files,
    objects: Objects,
)
    requires
        call_ensures(verify_existing_remote::<S>, (s, path, size, sha256, policy), r),
        truthful(w, objects, new_calls(old(s).log(), final(s).log())),
    ensures
        !objects.contains_key(path@) ==> (r matches Ok(there) && !there),
        objects.contains_key(path@) && is_as_said(
            objects[path@],
            size,
            sha256@,
            policy.hash_verify_limit,
        ) ==> (r matches Ok(there) && there),
        objects.contains_key(path@) && !is_as_said(
            objects[path@],
            size,
            sha256@,
            policy.hash_verify_limit,
        ) ==> (r matches Err(e) && e@ == mismatch(path@, objects[path@], size, sha256@)),
        kept_after(w, objects, new_calls(old(s).log(), final(s).log())) == objects,
{
    reveal_with_fuel(truthful, 3);
    reveal_with_fuel(kept_after, 3);
}

/// Bringing a local file to a remote that works: where the object is there, it is held to
/// what it should be, and left as it is. Where it is not, it gets the content of the local
/// file, if there is one, and is held to what it should be then. How many bytes were copied
/// is told.
pub proof fn law_copy_local_to_remote<S: RemoteStore>(
    local: &str,
    s: &mut RemoteSession<S>,
    path: &str,
    size: u64,
    sha256: &str,
    policy: VerifyPolicy,
    r: Result<u64, Error>,
    w: Files,
    objects: Objects,
)
    requires
        call_ensures(
            copy_local_to_remote_atomic_verified::<S>,
            (local, s, path, size, sha256, policy),
            r,
        ),
        truthful(w, objects, new_calls(old(s).log(), final(s).log())),
    ensures
        ({
            let after = kept_after(w, objects, new_calls(old(s).log(), final(s).log()));
            let limit = policy.hash_verify_limit;
            if objects.contains_key(path@) {
                &&& after == objects
                &&& is_as_said(objects[path@], size, sha256@, limit) ==> r == Ok::<u64, Error>(0)
                &&& !is_as_said(objects[path@], size, sha256@, limit) ==> (r matches Err(e) && e@
                    == mismatch(path@, objects[path@], size, sha256@))
            } else if w.contains_key(local@) {
                &&& after == objects.insert(path@, w[local@])
                &&& is_as_said(w[local@], size, sha256@, limit) ==> r == Ok::<u64, Error>(size)
                &&& !is_as_said(w[local@], size, sha256@, limit) ==> (r matches Err(e) && e@
                    == mismatch(path@, w[local@], size, sha256@))
            } else {
                after == objects && r is Err
            }
        }),
{
    reveal_with_fuel(truthful, 6);
    reveal_with_fuel(kept_after, 6);
}

/// The bytes and the files that the calls bring to a remote.
pub open spec fn brought_to(w: Files, calls: Seq<RemoteCall>) -> (nat, nat)
    decreases calls.len(),
{
    if calls.len() == 0 {
        (0, 0)
    } else {
        let (bytes, files) = brought_to(w, calls.drop_first());
        match calls[0] {
            RemoteCall::CopyIn { local, .. } => (
                bytes + w[local].len(),
                files + if w[local].len() > 0 {
                    1
                } else {
                    0nat
                },
            ),
            _ => (bytes, files),
        }
    }
}

proof fn lemma_brought_split(w: Files, calls: Seq<RemoteCall>, k: int)
    requires
        0 <= k <= calls.len(),
    ensures
        brought_to(w, calls).0 == brought_to(w, calls.take(k)).0 + brought_to(w, calls.skip(k)).0,
        brought_to(w, calls).1 == brought_to(w, calls.take(k)).1 + brought_to(w, calls.skip(k)).1,
    decreases k,
{
    if k == 0 {
        assert(calls.skip(0) =~= calls);
    } else {
        lemma_brought_split(w, calls.drop_first(), k - 1);
        assert(calls.take(k).drop_first() =~= calls.drop_first().take(k - 1));
        assert(calls.drop_first().skip(k - 1) =~= calls.skip(k));
    }
}

proof fn lemma_upload_counts(
    w: Files,
    r: Objects,
    calls: Seq<RemoteCall>,
    root: Seq<char>,
    e: EntryView,
    copied: u64,
)
    requires
        entry_uploaded(calls, root, e, Ok(copied)),
        truthful(w, r, calls),
    ensures
        brought_to(w, calls).0 == copied,
        brought_to(w, calls).1 == if copied > 0 {
            1
        } else {
            0nat
        },
        copied <= e.size,
{
    reveal_with_fuel(truthful, 6);
    reveal_with_fuel(kept_after, 6);
    reveal_with_fuel(brought_to, 6);
}

/// A transfer that succeeded has counted every file, and what it brought.
pub proof fn lemma_push_counts(
    w: Files,
    r: Objects,
    root: Seq<char>,
    entries: Seq<EntryView>,
    done: SyncSummary,
    calls: Seq<RemoteCall>,
    summary: SyncSummary,
)
    requires
        pushed(root, entries, done, calls, Ok(summary)),
        truthful(w, r, calls),
        done.bytes_copied + total_size(entries) <= u64::MAX,
        done.files_copied + entries.len() <= u64::MAX,
        done.files_verified + entries.len() <= u64::MAX,
    ensures
        summary.bytes_copied == done.bytes_copied + brought_to(w, calls).0,
        summary.files_copied == done.files_copied + brought_to(w, calls).1,
        summary.files_verified == done.files_verified + entries.len(),
    decreases entries.len(),
{
    if entries.len() > 0 {
        let (k, o) = choose|k: int, o: Result<u64, Seq<char>>|
            {
                &&& 0 <= k <= calls.len()
                &&& #[trigger] entry_uploaded(calls.take(k), root, entries[0], o)
                &&& match o {
                    Err(e) => k == calls.len() && Ok::<SyncSummary, Seq<char>>(summary) == Err::<
                        SyncSummary,
                        Seq<char>,
                    >(e),
                    Ok(copied) => pushed(
                        root,
                        entries.drop_first(),
                        tally(done, copied),
                        calls.skip(k),
                        Ok(summary),
                    ),
                }
            };
        let copied = o->Ok_0;
        lemma_truthful_split(w, r, calls, k);
        lemma_brought_split(w, calls, k);
        lemma_upload_counts(w, r, calls.take(k), root, entries[0], copied);
        let rest = entries.drop_first();
        assert(entries =~= seq![entries[0]] + rest);
        crate::laws::store::lemma_total_in_parts(seq![entries[0]], rest);
        assert(total_size(seq![entries[0]]) == entries[0].size) by {
            reveal_with_fuel(total_size, 2);
            assert(seq![entries[0]].drop_last() =~= Seq::<EntryView>::empty());
        }
        lemma_push_counts(
            w,
            kept_after(w, r, calls.take(k)),
            root,
            rest,
            tally(done, copied),
            calls.skip(k),
            summary,
        );
    }
}

/// The remote has the object of an entry, and it is what the entry says.
pub open spec fn has_entry_object(
    r: Objects,
    relpath: Seq<char>,
    size: u64,
    sha256: Seq<char>,
) -> bool {
    r.contains_key("xet/"@ + relpath) && is_as_said(r["xet/"@ + relpath], size, sha256, 8388608)
}

/// The files of a manifest on a remote that works: where the transfer succeeds, the object of
/// every entry is there, and is what the entry says; every entry counts as verified, and what
/// was copied counts as copied. Whether or not it succeeds, no object is changed or lost. It
/// does succeed where each object either is right already, or is not there and the local file
/// is right.
pub proof fn law_push_with_manifest_store<S: RemoteStore>(
    root: &str,
    s: &mut RemoteSession<S>,
    manifest: &Manifest,
    r: Result<SyncSummary, Error>,
    w: Files,
    objects: Objects,
    i: int,
    path: Seq<char>,
)
    requires
        call_ensures(push_with_manifest_store::<S>, (root, s, manifest), r),
        bytes_in(manifest.entries@) <= u64::MAX,
        manifest.entries@.len() <= u64::MAX,
        truthful(w, objects, new_calls(old(s).log(), final(s).log())),
    ensures
        ({
            let calls = new_calls(old(s).log(), final(s).log());
            let after = kept_after(w, objects, calls);
            let entries = manifest.entries@;
            &&& r is Ok && 0 <= i < entries.len() ==> has_entry_object(
                after,
                entries[i].relpath@,
                entries[i].size,
                entries[i].sha256@,
            )
            &&& r matches Ok(summary) ==> {
                &&& summary.files_verified == entries.len()
                &&& summary.bytes_copied == brought_to(w, calls).0
                &&& summary.files_copied == brought_to(w, calls).1
            }
            &&& objects.contains_key(path) ==> after.contains_key(path) && after[path]
                == objects[path]
            &&& (forall|j: int|
                0 <= j < entries.len() ==> {
                    let e = #[trigger] entries[j];
                    let from = join(root@, e.relpath@);
                    if objects.contains_key("xet/"@ + e.relpath@) {
                        has_entry_object(objects, e.relpath@, e.size, e.sha256@)
                    } else {
                        w.contains_key(from) && is_as_said(w[from], e.size, e.sha256@, 8388608)
                    }
                }) ==> r is Ok
        }),
{
    let calls = new_calls(old(s).log(), final(s).log());
    let views = entry_views(manifest.entries@);
    let entries = manifest.entries@;
    lemma_bytes_in(entries);
    lemma_push_keeps_everything(w, objects, root@, views, calls, crate::error::told(r));
    assert forall|j: int| 0 <= j < entries.len() implies (#[trigger] views[j])
        == entries[j]@ by {}
    if r is Ok && 0 <= i < entries.len() {
        assert(keeps(kept_after(w, objects, calls), views[i]));
    }
    if let Ok(summary) = r {
        lemma_push_counts(w, objects, root@, views, no_transfer(), calls, summary);
    }
    if forall|j: int|
        0 <= j < entries.len() ==> {
            let e = #[trigger] entries[j];
            let from = join(root@, e.relpath@);
            if objects.contains_key("xet/"@ + e.relpath@) {
                has_entry_object(objects, e.relpath@, e.size, e.sha256@)
            } else {
                w.contains_key(from) && is_as_said(w[from], e.size, e.sha256@, 8388608)
            }
        } {
        assert forall|j: int| 0 <= j < views.len() implies crate::sync::roundtrip::can_be_pushed(
            w,
            objects,
            root@,
            #[trigger] views[j],
        ) by {
            let e = entries[j];
            assert(views[j] == e@);
        }
        lemma_push_succeeds(w, objects, root@, views, no_transfer(), calls, crate::error::told(r));
    }
}

/// A file that is to be there is looked for first.
pub proof fn law_fetch_begins(
    path: &str,
    local: &str,
    size: u64,
    sha256: &str,
    policy: VerifyPolicy,
    r: Step<FetchJob, u64>,
)
    requires
        call_ensures(
            copy_remote_to_local_atomic_verified,
            (path, local, size, sha256, policy),
            r,
        ),
    ensures
        r matches Step::Ask { request, then } && (request matches FileRequest::Stat { path: p } && p@
            == local@) && then@.remote == path@ && then@.local == local@ && then@.size == size
            && then@.sha256 == sha256@ && then@.limit == policy.hash_verify_limit
            && then@.at is CheckingBefore,
{
}

/// The job is about the same object and the same file.
pub open spec fn same_fetch(m: FetchJob, then: FetchJob) -> bool {
    then@.remote == m@.remote && then@.local == m@.local && then@.size == m@.size && then@.sha256
        == m@.sha256 && then@.limit == m@.limit
}

/// A local file that is not there is copied from the object, and looked at again.
pub proof fn law_fetch_copies<S: RemoteStore>(
    m: FetchJob,
    s: &mut RemoteSession<S>,
    r: Step<FetchJob, u64>,
)
    requires
        call_ensures(FetchJob::next::<S>, (m, FileReply::Missing, s), r),
    ensures
        ({
            let calls = new_calls(old(s).log(), final(s).log());
            &&& m@.at is CheckingBefore ==> calls.len() == 1 && (
            calls[0] matches RemoteCall::CopyOut { path, local, reply } && path == m@.remote
                && local == m@.local && match reply {
                Ok(_) => r matches Step::Ask { request, then } && same_fetch(m, then)
                    && then@.at is CheckingAfter && (request matches FileRequest::Stat { path: p }
                    && p@ == m@.local),
                Err(e) => r matches Step::Finished { outcome } && (outcome matches Err(why) && why@
                    == e),
            })
            &&& m@.at is CheckingAfter ==> calls.len() == 0 && (r matches Step::Finished { outcome }
                && (outcome matches Err(e) && e@ == "remote copy failed to materialize "@
                + m@.local))
        }),
{
}

/// A local file that is there is held to its size, and then, up to the limit, to its hash.
/// Where it is right, the bytes that were copied are told: none if it was there before.
pub proof fn law_fetch_verifies<S: RemoteStore>(
    m: FetchJob,
    bytes: u64,
    s: &mut RemoteSession<S>,
    r: Step<FetchJob, u64>,
)
    requires
        call_ensures(FetchJob::next::<S>, (m, FileReply::Size { bytes }, s), r),
        m@.at is CheckingBefore || m@.at is CheckingAfter,
    ensures
        new_calls(old(s).log(), final(s).log()).len() == 0,
        bytes != m@.size ==> (r matches Step::Finished { outcome } && (outcome matches Err(e) && e@
            == "destination corruption detected: "@ + m@.local + " has size "@ + decimal(
            bytes as nat,
        ) + ", expected "@ + decimal(m@.size as nat))),
        bytes == m@.size && m@.size <= m@.limit ==> (r matches Step::Ask { request, then }
            && same_fetch(m, then) && (request matches FileRequest::Sha256 { path } && path@
            == m@.local) && (then@.at is HashingBefore <==> m@.at is CheckingBefore) && (
        then@.at is HashingAfter <==> m@.at is CheckingAfter)),
        bytes == m@.size && m@.size > m@.limit ==> (r matches Step::Finished { outcome } && outcome
            == Ok::<u64, Error>(
            if m@.at is CheckingBefore {
                0
            } else {
                m@.size
            },
        )),
{
}

/// The same of the hash.
pub proof fn law_fetch_hashes<S: RemoteStore>(
    m: FetchJob,
    sha256: String,
    s: &mut RemoteSession<S>,
    r: Step<FetchJob, u64>,
)
    requires
        call_ensures(FetchJob::next::<S>, (m, FileReply::Hash { sha256 }, s), r),
        m@.at is HashingBefore || m@.at is HashingAfter,
    ensures
        new_calls(old(s).log(), final(s).log()).len() == 0,
        sha256@ != m@.sha256 ==> (r matches Step::Finished { outcome } && (outcome matches Err(e)
            && e@ == "destination hash mismatch: "@ + m@.local + " expected "@ + m@.sha256 + " got "@
            + sha256@)),
        sha256@ == m@.sha256 ==> (r matches Step::Finished { outcome } && outcome == Ok::<
            u64,
            Error,
        >(
            if m@.at is HashingBefore {
                0
            } else {
                m@.size
            },
        )),
{
}

/// Local work that fails ends the fetch with that error.
pub proof fn law_fetch_fails<S: RemoteStore>(
    m: FetchJob,
    error: Error,
    s: &mut RemoteSession<S>,
    r: Step<FetchJob, u64>,
)
    requires
        call_ensures(FetchJob::next::<S>, (m, FileReply::Failed { error }, s), r),
    ensures
        new_calls(old(s).log(), final(s).log()).len() == 0,
        r matches Step::Finished { outcome } && (outcome matches Err(e) && e@ == error@),
{
}

/// The pull of a manifest's files is at the given one: its object was said to be there, and
/// the local file is looked for.
pub open spec fn pull_is_at(
    r: Step<PullRun, SyncSummary>,
    root: Seq<char>,
    e: EntryView,
    at: int,
) -> bool {
    r matches Step::Ask { request, then } && then@.at == at && (request matches FileRequest::Stat {
        path,
    } && path@ == join(root, e.relpath)) && then@.job.remote == "xet/"@ + e.relpath
        && then@.job.local == join(root, e.relpath) && then@.job.size == e.size
        && then@.job.sha256 == e.sha256 && then@.job.limit == 8388608 && then@.job.at
        == FetchPhase::CheckingBefore
}

/// How the files of a manifest begin to be pulled: an object that the manifest lists and
/// that is not there is an error. A manifest without entries is pulled at once.
pub proof fn law_pull_files_begins<'m, S: RemoteStore>(
    s: &mut RemoteSession<S>,
    root: &str,
    manifest: &'m Manifest,
    r: Step<PullRun<'m>, SyncSummary>,
)
    requires
        call_ensures(pull_from_manifest_store::<S>, (s, root, manifest), r),
        bytes_in(manifest.entries@) <= u64::MAX,
    ensures
        ({
            let calls = new_calls(old(s).log(), final(s).log());
            let n = manifest.entries@.len();
            &&& n == 0 ==> calls.len() == 0 && (r matches Step::Finished { outcome } && (
            outcome matches Ok(summary) && summary.files_copied == 0 && summary.bytes_copied == 0
                && summary.files_verified == 0))
            &&& n > 0 ==> calls.len() == 1 && (calls[0] matches RemoteCall::Exists { path, reply }
                && path == "xet/"@ + manifest.entries@[0].relpath@ && match reply {
                Ok(true) => pull_is_at(r, root@, manifest.entries@[0]@, 0),
                Ok(false) => r matches Step::Finished { outcome } && (outcome matches Err(e) && e@
                    == "remote CAS file referenced by manifest is missing: "@ + path),
                Err(e) => r matches Step::Finished { outcome } && (outcome matches Err(why) && why@
                    == e),
            })
        }),
{
    lemma_bytes_in(manifest.entries@);
    let views = entry_views(manifest.entries@);
    if views.len() > 0 {
        assert(views[0] == manifest.entries@[0]@);
    }
}

/// How the files of a manifest go on to be pulled: what holds of the fetch of one file holds
/// of it, and once that is done it is counted, and the next file is up; the last one ends it.
pub proof fn law_pull_files_goes_on<'m, S: RemoteStore>(
    m: PullRun<'m>,
    reply: FileReply,
    s: &mut RemoteSession<S>,
    r: Step<PullRun<'m>, SyncSummary>,
    job: FetchJob,
    s2: &mut RemoteSession<S>,
    one: Step<FetchJob, u64>,
)
    requires
        call_ensures(PullRun::next::<S>, (m, reply, s), r),
        job@ == m@.job,
        call_ensures(FetchJob::next::<S>, (job, reply, s2), one),
        !(reply is Missing),
        0 <= m@.at < m@.plan.entries.len(),
        m@.summary.files_copied < u64::MAX,
        m@.summary.files_verified < u64::MAX,
        one matches Step::Finished { outcome: Ok(copied) } ==> m@.summary.bytes_copied + copied
            <= u64::MAX,
    ensures
        match one {
            Step::Ask { request, then } => r matches Step::Ask { request: q, then: next } && q@
                == request@ && next@.at == m@.at && next@.job == then@ && next@.summary
                == m@.summary && next@.plan == m@.plan,
            Step::Finished { outcome: Err(e) } => r matches Step::Finished { outcome } && (
            outcome matches Err(why) && why@ == e@),
            Step::Finished { outcome: Ok(copied) } => {
                let calls = new_calls(old(s).log(), final(s).log());
                let entries = m@.plan.entries;
                let sum = tally(m@.summary, copied);
                &&& m@.at + 1 == entries.len() ==> r == Step::Finished::<PullRun<'m>, SyncSummary> {
                    outcome: Ok(sum),
                }
                &&& m@.at + 1 < entries.len() ==> calls.len() == 1 && (
                calls[0] matches RemoteCall::Exists { path, reply: there } && path == "xet/"@
                    + entries[m@.at + 1].relpath && match there {
                    Ok(true) => pull_is_at(r, m@.plan.root, entries[m@.at + 1], m@.at + 1) && (
                    r matches Step::Ask { then, .. } && then@.summary == sum && then@.plan
                        == m@.plan),
                    Ok(false) => r matches Step::Finished { outcome } && (outcome matches Err(e)
                        && e@ == "remote CAS file referenced by manifest is missing: "@ + path),
                    Err(e) => r matches Step::Finished { outcome } && (outcome matches Err(why)
                        && why@ == e),
                })
            },
        },
{
}

/// A local file that is not there is copied from the object of its entry, and looked at again.
pub proof fn law_pull_files_copies<'m, S: RemoteStore>(
    m: PullRun<'m>,
    s: &mut RemoteSession<S>,
    r: Step<PullRun<'m>, SyncSummary>,
)
    requires
        call_ensures(PullRun::next::<S>, (m, FileReply::Missing, s), r),
        m@.job.at is CheckingBefore,
    ensures
        ({
            let calls = new_calls(old(s).log(), final(s).log());
            &&& calls.len() == 1
            &&& calls[0] matches RemoteCall::CopyOut { path, local, reply } && path == m@.job.remote
                && local == m@.job.local && match reply {
                Ok(_) => r matches Step::Ask { request, then } && (
                request matches FileRequest::Stat { path: p } && p@ == m@.job.local) && then@.at
                    == m@.at && then@.plan == m@.plan && then@.summary == m@.summary
                    && then@.job.at is CheckingAfter && then@.job.remote == m@.job.remote
                    && then@.job.local == m@.job.local && then@.job.size == m@.job.size
                    && then@.job.sha256 == m@.job.sha256 && then@.job.limit == m@.job.limit,
                Err(e) => r matches Step::Finished { outcome } && (outcome matches Err(why) && why@
                    == e),
            }
        }),
{
}

} // verus!
