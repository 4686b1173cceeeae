//! Pushing to and pulling from a remote that works: it keeps what it is given, and hands
//! out what it keeps.

use vstd::prelude::*;

use crate::files::Move;
use crate::hash::sha256_text;
use crate::order::lemma_by_key_lists;
use crate::paths::{is_absolute, join};
use crate::remote::RemoteCall;
use crate::sync::fetch::{
    answered, begin_ask, entry_fetch, fetch_ask, fetch_next, fetch_start, pull_ask, pull_begin, pull_next,
    FetchPhase, FetchState, PullPlan, PullState, RemoteAsk,
};
use crate::sync::manifest::{
    building, call_hashes, entry_views, hashed_through, manifest_of, takes_part, total_size,
    BuiltManifest, CachedHash, EntryView, FoundFile, HashCall,
};
use crate::sync::runs::{verified_files, verify_begin};
use crate::sync::transfer::{
    entry_uploaded, fits, hash_mismatch_text, is_content, lemma_total_of_part, no_transfer,
    object_path, pushed,
    size_mismatch_text, tally, SyncSummary, HASH_VERIFY_LIMIT,
};
use crate::sync::world::{
    answer, changed, holds, lemma_verify_decides, measurable, verify_run, Files,
};

verus! {

/// The objects that a remote keeps, with their content.
pub type Objects = Map<Seq<char>, Seq<u8>>;

/// The reply that a remote gives that works. `w` holds the local files.
pub open spec fn truthful_reply(w: Files, r: Objects, call: RemoteCall) -> bool {
    match call {
        RemoteCall::Capabilities { .. } => true,
        RemoteCall::Stat { path, reply } => match reply {
            Ok(Some(size)) => r.contains_key(path) && size == r[path].len(),
            Ok(None) => !r.contains_key(path),
            Err(_) => false,
        },
        RemoteCall::Read { path, reply } => reply == Ok::<Option<Seq<u8>>, Seq<char>>(
            if r.contains_key(path) {
                Some(r[path])
            } else {
                None
            },
        ),
        RemoteCall::Write { reply, .. } => reply is Ok,
        RemoteCall::Exists { path, reply } => reply == Ok::<bool, Seq<char>>(r.contains_key(path)),
        RemoteCall::CopyIn { local, reply, .. } => reply is Ok <==> w.contains_key(local),
        RemoteCall::CopyOut { path, reply, .. } => reply is Ok <==> r.contains_key(path),
        RemoteCall::List { .. } => true,
    }
}

/// What a remote keeps after a call.
pub open spec fn kept(w: Files, r: Objects, call: RemoteCall) -> Objects {
    match call {
        RemoteCall::Write { path, bytes, .. } => r.insert(path, bytes),
        RemoteCall::CopyIn { local, path, .. } => if w.contains_key(local) {
            r.insert(path, w[local])
        } else {
            r
        },
        _ => r,
    }
}

/// What a remote keeps after some calls.
pub open spec fn kept_after(w: Files, r: Objects, calls: Seq<RemoteCall>) -> Objects
    decreases calls.len(),
{
    if calls.len() == 0 {
        r
    } else {
        kept_after(w, kept(w, r, calls[0]), calls.drop_first())
    }
}

/// The remote answered the calls as one does that works.
pub open spec fn truthful(w: Files, r: Objects, calls: Seq<RemoteCall>) -> bool
    decreases calls.len(),
{
    calls.len() == 0 || (truthful_reply(w, r, calls[0]) && truthful(
        w,
        kept(w, r, calls[0]),
        calls.drop_first(),
    ))
}

/// What a remote keeps after some calls and then some more.
pub proof fn lemma_kept_split(w: Files, r: Objects, calls: Seq<RemoteCall>, k: int)
    requires
        0 <= k <= calls.len(),
    ensures
        kept_after(w, r, calls) == kept_after(
            w,
            kept_after(w, r, calls.take(k)),
            calls.skip(k),
        ),
    decreases k,
{
    if k == 0 {
        assert(calls.skip(0) =~= calls);
    } else {
        lemma_kept_split(w, kept(w, r, calls[0]), calls.drop_first(), k - 1);
        assert(calls.take(k).drop_first() =~= calls.drop_first().take(k - 1));
        assert(calls.drop_first().skip(k - 1) =~= calls.skip(k));
    }
}

/// What was true of the calls as a whole is true of their parts.
pub proof fn lemma_truthful_split(w: Files, r: Objects, calls: Seq<RemoteCall>, k: int)
    requires
        0 <= k <= calls.len(),
        truthful(w, r, calls),
    ensures
        truthful(w, r, calls.take(k)),
        truthful(w, kept_after(w, r, calls.take(k)), calls.skip(k)),
        kept_after(w, r, calls) == kept_after(
            w,
            kept_after(w, r, calls.take(k)),
            calls.skip(k),
        ),
    decreases k,
{
    if k == 0 {
        assert(calls.skip(0) =~= calls);
    } else {
        lemma_truthful_split(w, kept(w, r, calls[0]), calls.drop_first(), k - 1);
        assert(calls.take(k).drop_first() =~= calls.drop_first().take(k - 1));
        assert(calls.drop_first().skip(k - 1) =~= calls.skip(k));
    }
}

/// The remote keeps the object of an entry, and it is what the entry says.
pub open spec fn keeps(r: Objects, e: EntryView) -> bool {
    &&& r.contains_key(object_path(e.relpath))
    &&& is_content(r[object_path(e.relpath)], e.size, e.sha256, HASH_VERIFY_LIMIT)
}

/// No object was changed or lost.
pub open spec fn keeps_all(r: Objects, r2: Objects) -> bool {
    forall|p: Seq<char>| #[trigger] r.contains_key(p) ==> r2.contains_key(p) && r2[p] == r[p]
}

proof fn lemma_upload_keeps(
    w: Files,
    r: Objects,
    calls: Seq<RemoteCall>,
    root: Seq<char>,
    e: EntryView,
    o: Result<u64, Seq<char>>,
)
    requires
        entry_uploaded(calls, root, e, o),
        truthful(w, r, calls),
    ensures
        keeps_all(r, kept_after(w, r, calls)),
        o is Ok ==> keeps(kept_after(w, r, calls), e),
{
    reveal_with_fuel(truthful, 6);
    reveal_with_fuel(kept_after, 6);
}

proof fn lemma_push_keeps(
    w: Files,
    r: Objects,
    root: Seq<char>,
    entries: Seq<EntryView>,
    done: SyncSummary,
    calls: Seq<RemoteCall>,
    outcome: Result<SyncSummary, Seq<char>>,
)
    requires
        pushed(root, entries, done, calls, outcome),
        truthful(w, r, calls),
    ensures
        keeps_all(r, kept_after(w, r, calls)),
        outcome is Ok ==> forall|i: int|
            0 <= i < entries.len() ==> keeps(kept_after(w, r, calls), #[trigger] entries[i]),
    decreases entries.len(),
{
    if entries.len() > 0 {
        let (k, o) = choose|k: int, o: Result<u64, Seq<char>>|
            {
                &&& 0 <= k <= calls.len()
                &&& #[trigger] entry_uploaded(calls.take(k), root, entries[0], o)
                &&& match o {
                    Err(e) => k == calls.len() && outcome == Err::<SyncSummary, Seq<char>>(e),
                    Ok(copied) => pushed(
                        root,
                        entries.drop_first(),
                        tally(done, copied),
                        calls.skip(k),
                        outcome,
                    ),
                }
            };
        lemma_truthful_split(w, r, calls, k);
        lemma_upload_keeps(w, r, calls.take(k), root, entries[0], o);
        let r1 = kept_after(w, r, calls.take(k));
        if let Ok(copied) = o {
            lemma_push_keeps(
                w,
                r1,
                root,
                entries.drop_first(),
                tally(done, copied),
                calls.skip(k),
                outcome,
            );
            if outcome is Ok {
                assert forall|i: int| 0 <= i < entries.len() implies keeps(
                    kept_after(w, r, calls),
                    #[trigger] entries[i],
                ) by {
                    if i > 0 {
                        assert(entries.drop_first()[i - 1] == entries[i]);
                    }
                }
            }
        }
    }
}

/// After a push that succeeded, a remote that works keeps every file that the manifest
/// lists, with its size and, up to the limit, its hash. Whether or not it succeeded, no
/// object was changed or lost.
pub proof fn lemma_push_keeps_everything(
    w: Files,
    r: Objects,
    root: Seq<char>,
    entries: Seq<EntryView>,
    calls: Seq<RemoteCall>,
    outcome: Result<SyncSummary, Seq<char>>,
)
    requires
        pushed(root, entries, no_transfer(), calls, outcome),
        truthful(w, r, calls),
    ensures
        keeps_all(r, kept_after(w, r, calls)),
        outcome is Ok ==> forall|i: int|
            0 <= i < entries.len() ==> keeps(kept_after(w, r, calls), #[trigger] entries[i]),
{
    lemma_push_keeps(w, r, root, entries, no_transfer(), calls, outcome);
}

/// The remote keeps the object of an entry, or it does not and the local file is what the
/// entry says.
pub open spec fn can_be_pushed(w: Files, r: Objects, root: Seq<char>, e: EntryView) -> bool {
    if r.contains_key(object_path(e.relpath)) {
        keeps(r, e)
    } else {
        holds(w, root, e)
    }
}

proof fn lemma_upload_brings(
    w: Files,
    r: Objects,
    calls: Seq<RemoteCall>,
    root: Seq<char>,
    e: EntryView,
    o: Result<u64, Seq<char>>,
)
    requires
        entry_uploaded(calls, root, e, o),
        truthful(w, r, calls),
        can_be_pushed(w, r, root, e),
    ensures
        r.contains_key(object_path(e.relpath)) ==> o == Ok::<u64, Seq<char>>(0) && kept_after(
            w,
            r,
            calls,
        ) == r,
        !r.contains_key(object_path(e.relpath)) ==> o == Ok::<u64, Seq<char>>(e.size)
            && kept_after(w, r, calls) == r.insert(
            object_path(e.relpath),
            w[join(root, e.relpath)],
        ),
{
    reveal_with_fuel(truthful, 6);
    reveal_with_fuel(kept_after, 6);
}

/// A push to a remote that works succeeds, if of every file that the manifest lists the
/// remote keeps a right copy already, or else keeps none and the local one is right.
pub proof fn lemma_push_succeeds(
    w: Files,
    r: Objects,
    root: Seq<char>,
    entries: Seq<EntryView>,
    done: SyncSummary,
    calls: Seq<RemoteCall>,
    outcome: Result<SyncSummary, Seq<char>>,
)
    requires
        pushed(root, entries, done, calls, outcome),
        truthful(w, r, calls),
        forall|i: int|
            0 <= i < entries.len() ==> can_be_pushed(w, r, root, #[trigger] entries[i]),
    ensures
        outcome is Ok,
    decreases entries.len(),
{
    if entries.len() > 0 {
        let (k, o) = choose|k: int, o: Result<u64, Seq<char>>|
            {
                &&& 0 <= k <= calls.len()
                &&& #[trigger] entry_uploaded(calls.take(k), root, entries[0], o)
                &&& match o {
                    Err(e) => k == calls.len() && outcome == Err::<SyncSummary, Seq<char>>(e),
                    Ok(copied) => pushed(
                        root,
                        entries.drop_first(),
                        tally(done, copied),
                        calls.skip(k),
                        outcome,
                    ),
                }
            };
        lemma_truthful_split(w, r, calls, k);
        lemma_upload_brings(w, r, calls.take(k), root, entries[0], o);
        let r1 = kept_after(w, r, calls.take(k));
        assert forall|i: int| 0 <= i < entries.drop_first().len() implies can_be_pushed(
            w,
            r1,
            root,
            #[trigger] entries.drop_first()[i],
        ) by {
            let e = entries[i + 1];
            if object_path(e.relpath) == object_path(entries[0].relpath) {
                lemma_object_path_is_injective(e.relpath, entries[0].relpath);
            }
        }
        lemma_push_succeeds(
            w,
            r1,
            root,
            entries.drop_first(),
            tally(done, o->Ok_0),
            calls.skip(k),
            outcome,
        );
    }
}

proof fn lemma_object_path_is_injective(a: Seq<char>, b: Seq<char>)
    requires
        object_path(a) == object_path(b),
    ensures
        a == b,
{
    let n = "xet/"@.len() as int;
    assert(b =~= object_path(b).skip(n));
}

/// A push of what a remote that works keeps already copies nothing and changes nothing:
/// it verifies every file, and counts it.
pub proof fn lemma_push_again_copies_nothing(
    w: Files,
    r: Objects,
    root: Seq<char>,
    entries: Seq<EntryView>,
    done: SyncSummary,
    calls: Seq<RemoteCall>,
    outcome: Result<SyncSummary, Seq<char>>,
)
    requires
        pushed(root, entries, done, calls, outcome),
        truthful(w, r, calls),
        forall|i: int| 0 <= i < entries.len() ==> keeps(r, #[trigger] entries[i]),
        done.files_verified + entries.len() <= u64::MAX,
    ensures
        outcome == Ok::<SyncSummary, Seq<char>>(
            SyncSummary {
                files_verified: (done.files_verified + entries.len()) as u64,
                ..done
            },
        ),
        kept_after(w, r, calls) == r,
    decreases entries.len(),
{
    if entries.len() > 0 {
        let (k, o) = choose|k: int, o: Result<u64, Seq<char>>|
            {
                &&& 0 <= k <= calls.len()
                &&& #[trigger] entry_uploaded(calls.take(k), root, entries[0], o)
                &&& match o {
                    Err(e) => k == calls.len() && outcome == Err::<SyncSummary, Seq<char>>(e),
                    Ok(copied) => pushed(
                        root,
                        entries.drop_first(),
                        tally(done, copied),
                        calls.skip(k),
                        outcome,
                    ),
                }
            };
        lemma_truthful_split(w, r, calls, k);
        lemma_upload_brings(w, r, calls.take(k), root, entries[0], o);
        lemma_push_again_copies_nothing(
            w,
            r,
            root,
            entries.drop_first(),
            tally(done, 0),
            calls.skip(k),
            outcome,
        );
    }
}

/// The files were found as they are: each is there, with the size that was found.
pub open spec fn found_in(w: Files, root: Seq<char>, files: Seq<FoundFile>) -> bool {
    forall|i: int|
        0 <= i < files.len() && takes_part(#[trigger] files[i]) ==> w.contains_key(
            join(root, files[i].relpath),
        ) && w[join(root, files[i].relpath)].len() == files[i].size->0
}

/// What the cache knows of a file that still has the size it had, is its hash.
pub open spec fn cache_is_right(
    w: Files,
    root: Seq<char>,
    cache: Map<Seq<char>, CachedHash>,
) -> bool {
    forall|k: Seq<char>| #[trigger]
        cache.contains_key(k) && w.contains_key(join(root, k)) && w[join(root, k)].len()
            == cache[k].size ==> cache[k].sha256 == sha256_text(w[join(root, k)])
}

/// The calls gave the hashes of the files.
pub open spec fn hashes_are_right(w: Files, calls: Seq<HashCall>) -> bool {
    forall|i: int|
        0 <= i < calls.len() ==> (#[trigger] calls[i]).reply == Ok::<Seq<char>, Seq<char>>(
            sha256_text(w[calls[i].path]),
        )
}

proof fn lemma_building_is_right(
    w: Files,
    root: Seq<char>,
    files: Seq<FoundFile>,
    cache: Map<Seq<char>, CachedHash>,
    replies: Seq<Seq<char>>,
)
    requires
        found_in(w, root, files),
        cache_is_right(w, root, cache),
        ({
            let asked = building(root, files, cache, replies).asked;
            forall|j: int| 0 <= j < asked.len() ==> #[trigger] replies[j] == sha256_text(w[asked[j]])
        }),
    ensures
        ({
            let b = building(root, files, cache, replies);
            &&& cache_is_right(w, root, b.cache)
            &&& forall|i: int| 0 <= i < b.entries.len() ==> holds(w, root, #[trigger] b.entries[i])
        }),
    decreases files.len(),
{
    if files.len() > 0 {
        let p = files.drop_last();
        lemma_building_is_right(w, root, p, cache, replies);
    }
}

/// A manifest that was built while the files stayed as they are tells the truth: every
/// file that it lists is there, with the size and, up to the limit, the hash that it
/// gives, and what the cache then knows is right again.
pub proof fn lemma_built_manifest_is_right(
    w: Files,
    root: Seq<char>,
    files: Seq<FoundFile>,
    cache: Map<Seq<char>, CachedHash>,
    calls: Seq<HashCall>,
    repo_id: Seq<char>,
    git_sha: Seq<char>,
    built: BuiltManifest,
)
    requires
        found_in(w, root, files),
        cache_is_right(w, root, cache),
        hashes_are_right(w, calls),
        hashed_through(root, files, cache, calls),
        manifest_of(
            repo_id,
            git_sha,
            building(root, files, cache, call_hashes(calls)),
            built,
        ),
    ensures
        forall|i: int|
            0 <= i < built.manifest.entries@.len() ==> holds(
                w,
                root,
                #[trigger] entry_views(built.manifest.entries@)[i],
            ),
        cache_is_right(w, root, built.cache@),
{
    let replies = call_hashes(calls);
    let b = building(root, files, cache, replies);
    lemma_building_is_right(w, root, files, cache, replies);
    let entries = entry_views(built.manifest.entries@);
    assert forall|i: int| 0 <= i < entries.len() implies holds(w, root, #[trigger] entries[i]) by {
        lemma_by_key_lists(b.entries, entries, |e: EntryView| e.relpath, i);
    }
}

/// What a remote that works says to what a job wants of it.
pub open spec fn remote_says(r: Objects, ask: RemoteAsk) -> Result<bool, Seq<char>> {
    match ask {
        RemoteAsk::Nothing => Ok(true),
        RemoteAsk::Exists { path } => Ok(r.contains_key(path)),
        RemoteAsk::CopyOut { path, .. } => if r.contains_key(path) {
            Ok(true)
        } else {
            Err("no such object"@)
        },
    }
}

/// The local files after a remote did what a job wants of it.
pub open spec fn brought(w: Files, r: Objects, ask: RemoteAsk) -> Files {
    match ask {
        RemoteAsk::CopyOut { path, local } => if r.contains_key(path) {
            w.insert(local, r[path])
        } else {
            w
        },
        _ => w,
    }
}

/// How many more replies a fetch can wait for.
pub open spec fn fetch_replies_left(at: FetchPhase) -> nat {
    match at {
        FetchPhase::CheckingBefore => 4,
        FetchPhase::HashingBefore => 3,
        FetchPhase::CheckingAfter => 2,
        FetchPhase::HashingAfter => 1,
    }
}

/// What a fetch leaves behind, and how it ends.
pub open spec fn fetch_run(w: Files, r: Objects, step: Move<FetchState, u64>) -> (
    Files,
    Result<u64, Seq<char>>,
)
    decreases (match step {
        Move::Ask { then, .. } => fetch_replies_left(then.at),
        Move::Finished { .. } => 0nat,
    }),
{
    match step {
        Move::Finished { outcome } => (w, outcome),
        Move::Ask { op, then } => {
            let reply = answer(w, op);
            let ask = fetch_ask(then, reply);
            fetch_run(
                brought(changed(w, op), r, ask),
                r,
                fetch_next(then, reply, remote_says(r, ask)),
            )
        },
    }
}

/// How a check of a file's content ends.
pub open spec fn content_verdict(job: FetchState, got: Seq<u8>, good: u64) -> Result<
    u64,
    Seq<char>,
> {
    if got.len() != job.size {
        Err(size_mismatch_text(job.local, got.len(), job.size))
    } else if job.size <= job.limit && sha256_text(got) != job.sha256 {
        Err(hash_mismatch_text(job.local, job.sha256, sha256_text(got)))
    } else {
        Ok(good)
    }
}

/// A fetch leaves a local file alone that is there, and says whether it is what it should
/// be. If there is none, the object becomes the local file, and is judged likewise.
pub proof fn lemma_fetch_outcome(w: Files, r: Objects, job: FetchState)
    requires
        measurable(w),
        measurable(r),
        job.at is CheckingBefore,
    ensures
        fetch_run(w, r, fetch_start(job)) == if w.contains_key(job.local) {
            (w, content_verdict(job, w[job.local], 0))
        } else if r.contains_key(job.remote) {
            (w.insert(job.local, r[job.remote]), content_verdict(job, r[job.remote], job.size))
        } else {
            (w, Err("no such object"@))
        },
{
    reveal_with_fuel(fetch_run, 5);
}

/// What a pull of a manifest's files leaves behind, and how it ends.
pub open spec fn pull_run(w: Files, r: Objects, step: Move<PullState, SyncSummary>) -> (
    Files,
    Result<SyncSummary, Seq<char>>,
)
    decreases
        (match step {
            Move::Ask { then, .. } => if then.at < then.plan.entries.len() {
                then.plan.entries.len() - then.at
            } else {
                0
            },
            Move::Finished { .. } => 0int,
        }),
        (match step {
            Move::Ask { then, .. } => fetch_replies_left(then.job.at),
            Move::Finished { .. } => 0nat,
        }),
{
    match step {
        Move::Finished { outcome } => (w, outcome),
        Move::Ask { op, then } => if then.at < then.plan.entries.len() {
            let reply = answer(w, op);
            let ask = pull_ask(then, reply);
            pull_run(
                brought(changed(w, op), r, ask),
                r,
                pull_next(then, reply, remote_says(r, ask)),
            )
        } else {
            (w, Err(Seq::empty()))
        },
    }
}

/// A pull from its beginning at an entry.
pub open spec fn pull_from(w: Files, r: Objects, plan: PullPlan, at: int, done: SyncSummary) -> (
    Files,
    Result<SyncSummary, Seq<char>>,
) {
    pull_run(w, r, pull_begin(plan, at, done, remote_says(r, begin_ask(plan, at))))
}

/// A pull whose fetch of the entry at `at` goes on with `step`.
spec fn entry_pulled(
    w: Files,
    r: Objects,
    plan: PullPlan,
    at: int,
    done: SyncSummary,
    step: Move<FetchState, u64>,
) -> (Files, Result<SyncSummary, Seq<char>>) {
    match step {
        Move::Ask { op, then } => pull_run(
            w,
            r,
            Move::Ask { op, then: PullState { plan, at, summary: done, job: then } },
        ),
        Move::Finished { outcome } => match outcome {
            Err(e) => (w, Err(e)),
            Ok(copied) => pull_from(w, r, plan, at + 1, tally(done, copied)),
        },
    }
}

proof fn lemma_entry_pulled(
    w: Files,
    r: Objects,
    plan: PullPlan,
    at: int,
    done: SyncSummary,
    step: Move<FetchState, u64>,
)
    requires
        at < plan.entries.len(),
    ensures
        entry_pulled(w, r, plan, at, done, step) == match fetch_run(w, r, step).1 {
            Err(e) => (fetch_run(w, r, step).0, Err::<SyncSummary, Seq<char>>(e)),
            Ok(copied) => pull_from(
                fetch_run(w, r, step).0,
                r,
                plan,
                at + 1,
                tally(done, copied),
            ),
        },
    decreases (match step {
        Move::Ask { then, .. } => fetch_replies_left(then.at),
        Move::Finished { .. } => 0nat,
    }),
{
    match step {
        Move::Finished { .. } => {},
        Move::Ask { op, then } => {
            let reply = answer(w, op);
            let ask = fetch_ask(then, reply);
            lemma_entry_pulled(
                brought(changed(w, op), r, ask),
                r,
                plan,
                at,
                done,
                fetch_next(then, reply, remote_says(r, ask)),
            );
            let m = PullState { plan, at, summary: done, job: then };
            let asked = pull_ask(m, reply);
            let said = remote_says(r, asked);
            let w1 = brought(changed(w, op), r, asked);
            let next = fetch_next(then, reply, remote_says(r, ask));
            assert(entry_pulled(w1, r, plan, at, done, next) == pull_run(
                w1,
                r,
                pull_next(m, reply, said),
            ));
        },
    }
}

/// The file of an entry is there and right, or it is not and the remote keeps it.
pub open spec fn can_be_pulled(w: Files, r: Objects, root: Seq<char>, e: EntryView) -> bool {
    &&& r.contains_key(object_path(e.relpath))
    &&& if w.contains_key(join(root, e.relpath)) {
        holds(w, root, e)
    } else {
        keeps(r, e)
    }
}

/// Only local files of the content store were added, each with the content of its object,
/// and none was touched that was there.
pub open spec fn only_brings(w: Files, w2: Files, r: Objects, plan: PullPlan) -> bool {
    &&& forall|p: Seq<char>| #[trigger]
        w.contains_key(p) ==> w2.contains_key(p) && w2[p] == w[p]
    &&& forall|p: Seq<char>| #[trigger]
        w2.contains_key(p) && !w.contains_key(p) ==> exists|i: int|
            0 <= i < plan.entries.len() && came_from(w2, r, plan, i, p)
}

/// The file at `p` is that of the entry at `i`, with the content of its object.
pub open spec fn came_from(w: Files, r: Objects, plan: PullPlan, i: int, p: Seq<char>) -> bool {
    let e = plan.entries[i];
    &&& p == join(plan.root, e.relpath)
    &&& r.contains_key(object_path(e.relpath))
    &&& w[p] == r[object_path(e.relpath)]
}

proof fn lemma_pulled_from(w: Files, r: Objects, plan: PullPlan, at: int, done: SyncSummary)
    requires
        measurable(w),
        measurable(r),
        0 <= at <= plan.entries.len(),
    ensures
        ({
            let (w2, o) = pull_from(w, r, plan, at, done);
            &&& measurable(w2)
            &&& only_brings(w, w2, r, plan)
            &&& (o is Ok ==> forall|i: int|
                at <= i < plan.entries.len() ==> holds(w2, plan.root, #[trigger] plan.entries[i]))
        }),
    decreases plan.entries.len() - at,
{
    if at < plan.entries.len() && r.contains_key(object_path(plan.entries[at].relpath)) {
        let job = entry_fetch(plan, at);
        lemma_fetch_outcome(w, r, job);
        lemma_entry_pulled(w, r, plan, at, done, fetch_start(job));
        let (w1, o1) = fetch_run(w, r, fetch_start(job));
        if !w.contains_key(job.local) {
            assert(came_from(w1, r, plan, at, job.local));
        }
        assert(only_brings(w, w1, r, plan));
        if let Ok(copied) = o1 {
            assert(holds(w1, plan.root, plan.entries[at]));
            lemma_pulled_from(w1, r, plan, at + 1, tally(done, copied));
            let (w2, o) = pull_from(w1, r, plan, at + 1, tally(done, copied));
            assert forall|p: Seq<char>| #[trigger]
                w2.contains_key(p) && !w.contains_key(p) implies exists|i: int|
                0 <= i < plan.entries.len() && came_from(w2, r, plan, i, p) by {
                if w1.contains_key(p) {
                    assert(came_from(w2, r, plan, at, p));
                }
            }
        }
    }
}

/// A pull brings nothing but files that the manifest lists, each with the content of its
/// object, and touches none that was there, whether or not it succeeds. Where it succeeds,
/// verifying the local content store succeeds too.
pub proof fn lemma_pull_then_verify(w: Files, r: Objects, plan: PullPlan)
    requires
        measurable(w),
        measurable(r),
    ensures
        ({
            let (w2, o) = pull_from(w, r, plan, 0, no_transfer());
            &&& only_brings(w, w2, r, plan)
            &&& (o is Ok ==> verify_run(w2, verify_begin(plan.entries, plan.root, 0)) == Ok::<
                SyncSummary,
                Seq<char>,
            >(verified_files(plan.entries.len() as int)))
        }),
{
    lemma_pulled_from(w, r, plan, 0, no_transfer());
    let (w2, o) = pull_from(w, r, plan, 0, no_transfer());
    lemma_verify_decides(w2, plan.entries, plan.root);
}

/// No two entries have the same local file.
pub open spec fn files_apart(plan: PullPlan) -> bool {
    forall|i: int, j: int|
        #![trigger plan.entries[i], plan.entries[j]]
        0 <= i < j < plan.entries.len() ==> join(plan.root, plan.entries[i].relpath) != join(
            plan.root,
            plan.entries[j].relpath,
        )
}

proof fn lemma_pull_succeeds_from(w: Files, r: Objects, plan: PullPlan, at: int, done: SyncSummary)
    requires
        measurable(w),
        measurable(r),
        0 <= at <= plan.entries.len(),
        files_apart(plan),
        forall|i: int|
            at <= i < plan.entries.len() ==> can_be_pulled(w, r, plan.root, #[trigger] plan.entries[i]),
    ensures
        pull_from(w, r, plan, at, done).1 is Ok,
    decreases plan.entries.len() - at,
{
    if at < plan.entries.len() {
        let job = entry_fetch(plan, at);
        lemma_fetch_outcome(w, r, job);
        lemma_entry_pulled(w, r, plan, at, done, fetch_start(job));
        let (w1, o1) = fetch_run(w, r, fetch_start(job));
        lemma_pull_succeeds_from(w1, r, plan, at + 1, tally(done, o1->Ok_0));
    }
}

/// What was pushed can be pulled: after a push that succeeded, to a remote that works,
/// a pull of the same manifest succeeds wherever no file is in the way that the manifest
/// does not allow, and verifying what it brought succeeds.
pub proof fn lemma_push_then_pull(
    w: Files,
    r: Objects,
    root: Seq<char>,
    calls: Seq<RemoteCall>,
    done: SyncSummary,
    elsewhere: Files,
    plan: PullPlan,
)
    requires
        pushed(root, plan.entries, no_transfer(), calls, Ok(done)),
        truthful(w, r, calls),
        measurable(elsewhere),
        measurable(kept_after(w, r, calls)),
        files_apart(plan),
        forall|i: int|
            0 <= i < plan.entries.len() && elsewhere.contains_key(
                join(plan.root, (#[trigger] plan.entries[i]).relpath),
            ) ==> holds(elsewhere, plan.root, plan.entries[i]),
    ensures
        ({
            let r2 = kept_after(w, r, calls);
            let (w2, o) = pull_from(elsewhere, r2, plan, 0, no_transfer());
            &&& o is Ok
            &&& only_brings(elsewhere, w2, r2, plan)
            &&& verify_run(w2, verify_begin(plan.entries, plan.root, 0)) == Ok::<
                SyncSummary,
                Seq<char>,
            >(verified_files(plan.entries.len() as int))
        }),
{
    let r2 = kept_after(w, r, calls);
    lemma_push_keeps(w, r, root, plan.entries, no_transfer(), calls, Ok(done));
    lemma_pull_succeeds_from(elsewhere, r2, plan, 0, no_transfer());
    lemma_pull_then_verify(elsewhere, r2, plan);
}

/// How many of the entries are not empty.
pub open spec fn filled(s: Seq<EntryView>) -> nat
    decreases s.len(),
{
    if s.len() == 0 {
        0
    } else if s.last().size > 0 {
        filled(s.drop_last()) + 1
    } else {
        filled(s.drop_last())
    }
}

/// The summary of a transfer that copied all of the entries: every file is verified, every
/// one that is not empty is copied, and all of their bytes are.
pub open spec fn all_copied(s: Seq<EntryView>) -> SyncSummary {
    SyncSummary {
        files_copied: filled(s) as u64,
        bytes_copied: total_size(s) as u64,
        files_verified: s.len() as u64,
    }
}

proof fn lemma_filled_is_at_most_all(s: Seq<EntryView>)
    ensures
        filled(s) <= s.len(),
    decreases s.len(),
{
    if s.len() > 0 {
        lemma_filled_is_at_most_all(s.drop_last());
    }
}

proof fn lemma_pull_counts_from(w: Files, r: Objects, plan: PullPlan, at: int, done: SyncSummary)
    requires
        measurable(w),
        measurable(r),
        0 <= at <= plan.entries.len() <= u64::MAX,
        fits(plan.entries),
        files_apart(plan),
        done == all_copied(plan.entries.take(at)),
        forall|i: int|
            at <= i < plan.entries.len() ==> keeps(r, #[trigger] plan.entries[i])
                && !w.contains_key(join(plan.root, plan.entries[i].relpath)),
    ensures
        pull_from(w, r, plan, at, done).1 == Ok::<SyncSummary, Seq<char>>(all_copied(plan.entries)),
    decreases plan.entries.len() - at,
{
    if at < plan.entries.len() {
        let e = plan.entries[at];
        let job = entry_fetch(plan, at);
        lemma_fetch_outcome(w, r, job);
        lemma_entry_pulled(w, r, plan, at, done, fetch_start(job));
        let (w1, o1) = fetch_run(w, r, fetch_start(job));
        assert(o1 == Ok::<u64, Seq<char>>(e.size));
        assert(plan.entries.take(at + 1).drop_last() =~= plan.entries.take(at));
        lemma_filled_is_at_most_all(plan.entries.take(at + 1));
        lemma_total_of_part(plan.entries, at + 1);
        assert(tally(done, e.size) == all_copied(plan.entries.take(at + 1)));
        lemma_pull_counts_from(w1, r, plan, at + 1, tally(done, e.size));
    } else {
        assert(plan.entries.take(at) =~= plan.entries);
    }
}

/// After a push that succeeded, to a remote that works, a pull of the same manifest to
/// where none of its files is yet brings all of them: each gets the content of its object,
/// every file is verified, every one that is not empty is counted as copied, and so are
/// all of their bytes.
pub proof fn lemma_push_then_pull_counts_everything(
    w: Files,
    r: Objects,
    root: Seq<char>,
    calls: Seq<RemoteCall>,
    done: SyncSummary,
    elsewhere: Files,
    plan: PullPlan,
)
    requires
        pushed(root, plan.entries, no_transfer(), calls, Ok(done)),
        truthful(w, r, calls),
        measurable(elsewhere),
        measurable(kept_after(w, r, calls)),
        files_apart(plan),
        fits(plan.entries),
        plan.entries.len() <= u64::MAX,
        forall|i: int|
            0 <= i < plan.entries.len() ==> !elsewhere.contains_key(
                join(plan.root, (#[trigger] plan.entries[i]).relpath),
            ),
    ensures
        ({
            let r2 = kept_after(w, r, calls);
            let (w2, o) = pull_from(elsewhere, r2, plan, 0, no_transfer());
            &&& o matches Ok(s)
            &&& s.files_verified == plan.entries.len()
            &&& s.files_copied == filled(plan.entries)
            &&& s.bytes_copied == total_size(plan.entries)
            &&& forall|i: int|
                0 <= i < plan.entries.len() ==> brought_whole(
                    w2,
                    r2,
                    plan.root,
                    #[trigger] plan.entries[i],
                )
            &&& only_brings(elsewhere, w2, r2, plan)
        }),
{
    let r2 = kept_after(w, r, calls);
    lemma_push_keeps(w, r, root, plan.entries, no_transfer(), calls, Ok(done));
    assert(no_transfer() == all_copied(plan.entries.take(0)));
    lemma_pull_counts_from(elsewhere, r2, plan, 0, no_transfer());
    lemma_filled_is_at_most_all(plan.entries);
    lemma_pulled_from(elsewhere, r2, plan, 0, no_transfer());
    let (w2, o) = pull_from(elsewhere, r2, plan, 0, no_transfer());
    assert forall|i: int| 0 <= i < plan.entries.len() implies brought_whole(
        w2,
        r2,
        plan.root,
        #[trigger] plan.entries[i],
    ) by {
        let p = join(plan.root, plan.entries[i].relpath);
        assert(holds(w2, plan.root, plan.entries[i]));
        assert(w2.contains_key(p) && !elsewhere.contains_key(p));
        let j = choose|j: int| 0 <= j < plan.entries.len() && came_from(w2, r2, plan, j, p);
        assert(join(plan.root, plan.entries[j].relpath) == p);
        assert(i == j);
    }
}

/// The local file of the entry has the content of its object, and the size that the entry
/// gives.
pub open spec fn brought_whole(w: Files, r: Objects, root: Seq<char>, e: EntryView) -> bool {
    &&& w.contains_key(join(root, e.relpath))
    &&& r.contains_key(object_path(e.relpath))
    &&& w[join(root, e.relpath)] == r[object_path(e.relpath)]
    &&& w[join(root, e.relpath)].len() == e.size
}

/// Entries at different paths, none of them absolute, have different local files.
pub proof fn lemma_distinct_files_lie_apart(plan: PullPlan)
    requires
        forall|i: int, j: int|
            #![trigger plan.entries[i], plan.entries[j]]
            0 <= i < j < plan.entries.len() ==> plan.entries[i].relpath != plan.entries[j].relpath,
        forall|i: int|
            0 <= i < plan.entries.len() ==> !is_absolute((#[trigger] plan.entries[i]).relpath),
    ensures
        files_apart(plan),
{
    let base = if plan.root.len() == 0 || plan.root.last() == '/' {
        plan.root
    } else {
        plan.root + "/"@
    };
    assert forall|i: int, j: int|
        #![trigger plan.entries[i], plan.entries[j]]
        0 <= i < j < plan.entries.len() implies join(plan.root, plan.entries[i].relpath) != join(
        plan.root,
        plan.entries[j].relpath,
    ) by {
        let a = plan.entries[i].relpath;
        let b = plan.entries[j].relpath;
        assert((base + a).skip(base.len() as int) =~= a);
        assert((base + b).skip(base.len() as int) =~= b);
    }
}

/// What a pull asks of a remote leaves it as it is.
pub proof fn lemma_pull_leaves_the_remote_alone(
    w: Files,
    r: Objects,
    ask: RemoteAsk,
    calls: Seq<RemoteCall>,
    reply: Result<bool, Seq<char>>,
)
    requires
        answered(ask, calls, reply),
    ensures
        kept_after(w, r, calls) == r,
{
    reveal_with_fuel(kept_after, 3);
}

} // verus!
