//! Laws of a remote that fails: the first call that fails is the last that is made, and its
//! error is what is told.

use vstd::prelude::*;

use crate::commands::pull::{pull, remote_head, resolve_remote_ref, PullStep};
use crate::commands::push::{Publication, PushEvent, PushRun, PushStep};
use crate::commands::remotes::{refs_read, remote_refs};
use crate::commands::transactions::{
    final_writes, finalize_transaction, finalized, made_sure, publish, published_by,
    stage_transaction, staged_writes, write_succeeded, writes_object, wrote, ObjectWrite,
    TransactionArtifacts, TxView,
};
use crate::commands::upkeep::{
    asked_in_turn, dir_names, remote_tx_gc, remote_tx_list, said, told_states, tx_dirs, TxDir,
};
use crate::error::{told, told_text, Error};
use crate::laws::pull::pull_fails_with;
use crate::laws::push::gives_back_and_fails;
use crate::remote::{new_calls, RemoteCall, RemoteSession, RemoteStore};
use crate::sync::manifest::{entry_views, EntryView, Manifest};
use crate::sync::transfer::{
    copy_local_to_remote_atomic_verified, entry_uploaded, look_calls, looked, no_transfer,
    push_with_manifest_store, pushed, tally, uploaded, verify_existing_remote, SyncSummary,
    VerifyPolicy,
};

verus! {

/// The remote failed to do what it was asked, for this reason.
pub open spec fn failed(call: RemoteCall, why: Seq<char>) -> bool {
    match call {
        RemoteCall::Capabilities { .. } => false,
        RemoteCall::Stat { reply, .. } => reply == Err::<Option<u64>, Seq<char>>(why),
        RemoteCall::Read { reply, .. } => reply == Err::<Option<Seq<u8>>, Seq<char>>(why),
        RemoteCall::Write { reply, .. } => reply == Err::<(), Seq<char>>(why),
        RemoteCall::Exists { reply, .. } => reply == Err::<bool, Seq<char>>(why),
        RemoteCall::CopyIn { reply, .. } => reply == Err::<(), Seq<char>>(why),
        RemoteCall::CopyOut { reply, .. } => reply == Err::<(), Seq<char>>(why),
        RemoteCall::List { reply, .. } => reply == Err::<Seq<Seq<char>>, Seq<char>>(why),
    }
}

/// Nothing is asked of the remote once it failed, and its reason is told.
pub open spec fn ends_at_failure<T>(calls: Seq<RemoteCall>, outcome: Result<T, Seq<char>>) -> bool {
    forall|i: int, why: Seq<char>|
        0 <= i < calls.len() && #[trigger] failed(calls[i], why) ==> i == calls.len() - 1
            && outcome == Err::<T, Seq<char>>(why)
}

proof fn lemma_look_fails(
    calls: Seq<RemoteCall>,
    path: Seq<char>,
    size: u64,
    sha256: Seq<char>,
    limit: u64,
    o: Result<bool, Seq<char>>,
)
    requires
        looked(calls, path, size, sha256, limit) == Some(o),
    ensures
        ends_at_failure(calls, o),
        1 <= calls.len() <= 2,
{
}

proof fn lemma_upload_fails(
    calls: Seq<RemoteCall>,
    local: Seq<char>,
    path: Seq<char>,
    size: u64,
    sha256: Seq<char>,
    limit: u64,
    o: Result<u64, Seq<char>>,
)
    requires
        uploaded(calls, local, path, size, sha256, limit, o),
    ensures
        ends_at_failure(calls, o),
{
    let k = look_calls(calls[0], path, size, limit);
    let first = looked(calls.take(k), path, size, sha256, limit)->0;
    lemma_look_fails(calls.take(k), path, size, sha256, limit, first);
    assert forall|i: int, why: Seq<char>|
        0 <= i < calls.len() && #[trigger] failed(calls[i], why) implies i == calls.len() - 1 && o
        == Err::<u64, Seq<char>>(why) by {
        if i < k {
            assert(calls.take(k)[i] == calls[i]);
            assert(failed(calls.take(k)[i], why));
        } else if i >= 2 {
            let rest = calls.skip(2);
            let second = looked(rest, path, size, sha256, limit)->0;
            lemma_look_fails(rest, path, size, sha256, limit, second);
            assert(rest[i - 2] == calls[i]);
            assert(failed(rest[i - 2], why));
        }
    }
}

proof fn lemma_push_fails(
    root: Seq<char>,
    entries: Seq<EntryView>,
    done: SyncSummary,
    calls: Seq<RemoteCall>,
    o: Result<SyncSummary, Seq<char>>,
)
    requires
        pushed(root, entries, done, calls, o),
    ensures
        ends_at_failure(calls, o),
    decreases entries.len(),
{
    if entries.len() > 0 {
        let (k, one) = choose|k: int, one: Result<u64, Seq<char>>|
            {
                &&& 0 <= k <= calls.len()
                &&& #[trigger] entry_uploaded(calls.take(k), root, entries[0], one)
                &&& match one {
                    Err(e) => k == calls.len() && o == Err::<SyncSummary, Seq<char>>(e),
                    Ok(copied) => pushed(
                        root,
                        entries.drop_first(),
                        tally(done, copied),
                        calls.skip(k),
                        o,
                    ),
                }
            };
        lemma_upload_fails(
            calls.take(k),
            crate::paths::join(root, entries[0].relpath),
            crate::sync::transfer::object_path(entries[0].relpath),
            entries[0].size,
            entries[0].sha256,
            crate::sync::transfer::HASH_VERIFY_LIMIT,
            one,
        );
        if let Ok(copied) = one {
            lemma_push_fails(root, entries.drop_first(), tally(done, copied), calls.skip(k), o);
        }
        assert forall|i: int, why: Seq<char>|
            0 <= i < calls.len() && #[trigger] failed(calls[i], why) implies i == calls.len() - 1
            && o == Err::<SyncSummary, Seq<char>>(why) by {
            if i < k {
                assert(calls.take(k)[i] == calls[i]);
                assert(failed(calls.take(k)[i], why));
            } else {
                assert(calls.skip(k)[i - k] == calls[i]);
                assert(failed(calls.skip(k)[i - k], why));
            }
        }
    }
}

/// A remote that fails where an object is looked at, or brought, ends that, and so it does
/// where the files of a manifest are sent.
pub proof fn law_transfer_ends_at_failure<S: RemoteStore>(
    local: &str,
    s: &mut RemoteSession<S>,
    path: &str,
    size: u64,
    sha256: &str,
    policy: VerifyPolicy,
    r: Result<bool, Error>,
    s2: &mut RemoteSession<S>,
    r2: Result<u64, Error>,
    s3: &mut RemoteSession<S>,
    manifest: &Manifest,
    r3: Result<SyncSummary, Error>,
)
    requires
        call_ensures(verify_existing_remote::<S>, (s, path, size, sha256, policy), r),
        call_ensures(
            copy_local_to_remote_atomic_verified::<S>,
            (local, s2, path, size, sha256, policy),
            r2,
        ),
        call_ensures(push_with_manifest_store::<S>, (local, s3, manifest), r3),
    ensures
        ends_at_failure(new_calls(old(s).log(), final(s).log()), told(r)),
        ends_at_failure(new_calls(old(s2).log(), final(s2).log()), told(r2)),
        ends_at_failure(new_calls(old(s3).log(), final(s3).log()), told(r3)),
{
    lemma_look_fails(
        new_calls(old(s).log(), final(s).log()),
        path@,
        size,
        sha256@,
        policy.hash_verify_limit,
        told(r),
    );
    lemma_upload_fails(
        new_calls(old(s2).log(), final(s2).log()),
        local@,
        path@,
        size,
        sha256@,
        policy.hash_verify_limit,
        told(r2),
    );
    lemma_push_fails(
        local@,
        entry_views(manifest.entries@),
        no_transfer(),
        new_calls(old(s3).log(), final(s3).log()),
        told(r3),
    );
}

/// An object that cannot be read though it is there, and one that is not there though it was
/// brought, are errors that name it.
pub proof fn law_vanished_object<S: RemoteStore>(
    local: &str,
    s: &mut RemoteSession<S>,
    path: &str,
    size: u64,
    sha256: &str,
    policy: VerifyPolicy,
    r: Result<u64, Error>,
)
    requires
        call_ensures(
            copy_local_to_remote_atomic_verified::<S>,
            (local, s, path, size, sha256, policy),
            r,
        ),
    ensures
        ({
            let calls = new_calls(old(s).log(), final(s).log());
            &&& calls.len() > 0
            &&& (calls[0] matches RemoteCall::Stat { path: p, .. } && p == path@)
            &&& (calls.last() matches RemoteCall::Read { reply, .. } && reply == Ok::<
                Option<Seq<u8>>,
                Seq<char>,
            >(None)) ==> (r matches Err(e) && e@ == "remote path missing: "@ + path@)
            &&& calls.len() == 3 && (calls[2] matches RemoteCall::Stat { reply, .. } && reply
                == Ok::<Option<u64>, Seq<char>>(None)) ==> (r matches Err(e) && e@
                == "remote copy failed to materialize "@ + path@)
            &&& calls.len() > 1 && calls[1] is CopyIn ==> calls[1]->CopyIn_local == local@
                && calls[1]->CopyIn_path == path@
        }),
{
    let calls = new_calls(old(s).log(), final(s).log());
    let limit = policy.hash_verify_limit;
    let k = look_calls(calls[0], path@, size, limit);
    let rest = calls.skip(2);
    assert(calls.take(k)[0] == calls[0]);
    if calls.len() == k {
        assert(calls.take(k) =~= calls);
    }
    if calls.len() > 2 {
        assert(rest[0] == calls[2]);
        assert(rest.last() == calls.last());
    }
}

proof fn lemma_write_fails(
    calls: Seq<RemoteCall>,
    writes: Seq<ObjectWrite>,
    o: Result<(), Seq<char>>,
)
    requires
        wrote(calls, writes, o),
    ensures
        ends_at_failure(calls, o),
{
    assert forall|i: int, why: Seq<char>|
        0 <= i < calls.len() && #[trigger] failed(calls[i], why) implies i == calls.len() - 1 && o
        == Err::<(), Seq<char>>(why) by {
        assert(writes_object(calls[i], writes[i]));
        if o is Ok || i < calls.len() - 1 {
            assert(write_succeeded(calls[i]));
        }
    }
}

proof fn lemma_finalize_fails(calls: Seq<RemoteCall>, tx: TxView, o: Result<(), Seq<char>>)
    requires
        finalized(calls, tx, o),
    ensures
        ends_at_failure(calls, o),
        o is Err ==> calls.len() > 0 && (failed(calls.last(), o->Err_0) || (
        calls.last() matches RemoteCall::Exists { path, reply } && reply == Ok::<bool, Seq<char>>(
            false,
        ) && o == Err::<(), Seq<char>>(
            "refusing to update live refs: "@ + path + " is not there"@,
        ))),
{
    let writes = final_writes(tx);
    if o is Err && wrote(calls, writes.take(2), o) {
        lemma_write_fails(calls, writes.take(2), o);
    } else {
        lemma_write_fails(calls.take(2), writes.take(2), Ok(()));
        let deep = calls.len() >= 4 && made_sure(calls[2], writes[0].path) == Some(
            Ok::<(), Seq<char>>(()),
        ) && made_sure(calls[3], writes[1].path) == Some(Ok::<(), Seq<char>>(()));
        if deep {
            lemma_write_fails(calls.skip(4), writes.skip(2), o);
            if o is Err {
                assert(calls.skip(4).last() == calls.last());
            }
        }
        assert forall|i: int, why: Seq<char>|
            0 <= i < calls.len() && #[trigger] failed(calls[i], why) implies i == calls.len() - 1
            && o == Err::<(), Seq<char>>(why) by {
            if i < 2 {
                assert(calls.take(2)[i] == calls[i]);
                assert(failed(calls.take(2)[i], why));
            } else if i >= 4 {
                assert(calls.skip(4)[i - 4] == calls[i]);
                assert(failed(calls.skip(4)[i - 4], why));
            }
        }
    }
}

proof fn lemma_publish_fails(calls: Seq<RemoteCall>, tx: TxView, o: Result<(), Seq<char>>)
    requires
        published_by(calls, tx, o),
    ensures
        ends_at_failure(calls, o),
{
    let staged = staged_writes(tx);
    if o is Err && wrote(calls, staged, o) {
        lemma_write_fails(calls, staged, o);
    } else {
        lemma_write_fails(calls.take(6), staged, Ok(()));
        lemma_finalize_fails(calls.skip(6), tx, o);
        assert forall|i: int, why: Seq<char>|
            0 <= i < calls.len() && #[trigger] failed(calls[i], why) implies i == calls.len() - 1
            && o == Err::<(), Seq<char>>(why) by {
            if i < 6 {
                assert(calls.take(6)[i] == calls[i]);
                assert(failed(calls.take(6)[i], why));
            } else {
                assert(calls.skip(6)[i - 6] == calls[i]);
                assert(failed(calls.skip(6)[i - 6], why));
            }
        }
    }
}

/// A remote that fails while a transaction is staged, or published, ends that; what else ends
/// the publishing is that what a ref would lead to was said not to be there.
pub proof fn law_publish_ends_at_failure<S: RemoteStore>(
    tx: &TransactionArtifacts,
    s: &mut RemoteSession<S>,
    r: Result<(), Error>,
    s2: &mut RemoteSession<S>,
    r2: Result<(), Error>,
    s3: &mut RemoteSession<S>,
    r3: Result<(), Error>,
)
    requires
        call_ensures(stage_transaction::<S>, (s, tx), r),
        call_ensures(finalize_transaction::<S>, (s2, tx), r2),
        call_ensures(publish::<S>, (s3, tx), r3),
    ensures
        ends_at_failure(new_calls(old(s).log(), final(s).log()), told(r)),
        ends_at_failure(new_calls(old(s2).log(), final(s2).log()), told(r2)),
        ends_at_failure(new_calls(old(s3).log(), final(s3).log()), told(r3)),
        r2 matches Err(e) ==> ({
            let calls = new_calls(old(s2).log(), final(s2).log());
            calls.len() > 0 && (failed(calls.last(), e@) || (
            calls.last() matches RemoteCall::Exists { path, reply } && reply == Ok::<
                bool,
                Seq<char>,
            >(false) && e@ == "refusing to update live refs: "@ + path + " is not there"@))
        }),
{
    lemma_write_fails(
        new_calls(old(s).log(), final(s).log()),
        staged_writes(tx@),
        told(r),
    );
    lemma_finalize_fails(new_calls(old(s2).log(), final(s2).log()), tx@, told(r2));
    lemma_publish_fails(new_calls(old(s3).log(), final(s3).log()), tx@, told(r3));
}

proof fn lemma_states_fail(
    ids: Seq<Seq<char>>,
    calls: Seq<RemoteCall>,
    o: Result<Seq<Seq<char>>, Seq<char>>,
)
    requires
        told_states(ids, calls, o),
    ensures
        ends_at_failure(calls, o),
{
    assert forall|i: int, why: Seq<char>|
        0 <= i < calls.len() && #[trigger] failed(calls[i], why) implies i == calls.len() - 1 && o
        == Err::<Seq<Seq<char>>, Seq<char>>(why) by {
        if o is Ok || i < calls.len() - 1 {
            assert(said(calls[i]));
        }
    }
}

/// A remote that fails while its transactions, or its refs, are listed ends that.
pub proof fn law_listing_ends_at_failure<S: RemoteStore>(
    s: &mut RemoteSession<S>,
    r: Result<Vec<String>, Error>,
    s2: &mut RemoteSession<S>,
    r2: Result<Vec<String>, Error>,
)
    requires
        call_ensures(remote_tx_list::<S>, (s,), r),
        call_ensures(remote_refs::<S>, (s2,), r2),
    ensures
        ends_at_failure(
            new_calls(old(s).log(), final(s).log()),
            crate::commands::upkeep::told_texts(r),
        ),
        ends_at_failure(
            new_calls(old(s2).log(), final(s2).log()),
            crate::commands::upkeep::told_texts(r2),
        ),
{
    let calls = new_calls(old(s).log(), final(s).log());
    let o = crate::commands::upkeep::told_texts(r);
    if calls.len() > 2 {
        let asked = calls.skip(2);
        let ids = choose|ids: Seq<Seq<char>>| #[trigger] told_states(ids, asked, o);
        lemma_states_fail(ids, asked, o);
        assert forall|i: int, why: Seq<char>|
            0 <= i < calls.len() && #[trigger] failed(calls[i], why) implies i == calls.len() - 1
            && o == Err::<Seq<Seq<char>>, Seq<char>>(why) by {
            if i >= 2 {
                assert(asked[i - 2] == calls[i]);
                assert(failed(asked[i - 2], why));
            }
        }
    }
    let calls2 = new_calls(old(s2).log(), final(s2).log());
    let o2 = crate::commands::upkeep::told_texts(r2);
    assert forall|i: int, why: Seq<char>|
        0 <= i < calls2.len() && #[trigger] failed(calls2[i], why) implies i == calls2.len() - 1
        && o2 == Err::<Seq<Seq<char>>, Seq<char>>(why) by {
        if i >= 1 {
            let reads = calls2.skip(1);
            assert(reads[i - 1] == calls2[i]);
            assert(reads.last() == calls2.last());
            let paths = calls2[0]->List_reply->Ok_0;
            assert(refs_read(paths, reads, o2));
            if o2 is Ok || i < calls2.len() - 1 {
                assert(crate::commands::remotes::read_succeeded(reads[i - 1]));
            }
        }
    }
}

/// A remote that fails while transactions are looked for that can go ends that.
pub proof fn law_gc_ends_at_failure<S: RemoteStore>(
    s: &mut RemoteSession<S>,
    dirs: &Vec<TxDir>,
    minutes: u64,
    r: (Vec<String>, Result<(), Error>),
)
    requires
        call_ensures(remote_tx_gc::<S>, (s, dirs, minutes), r),
        minutes * 60 <= u64::MAX,
    ensures
        ends_at_failure(new_calls(old(s).log(), final(s).log()), told(r.1)),
{
    let calls = new_calls(old(s).log(), final(s).log());
    let asked = calls.skip(1);
    let o = told(r.1);
    assert forall|i: int, why: Seq<char>|
        0 <= i < calls.len() && #[trigger] failed(calls[i], why) implies i == calls.len() - 1 && o
        == Err::<(), Seq<char>>(why) by {
        if i >= 1 {
            assert(asked[i - 1] == calls[i]);
            assert(asked.last() == calls.last());
            assert(asked_in_turn(dir_names(tx_dirs(dirs@)), asked, o));
            if o is Ok || i < calls.len() - 1 {
                assert(said(asked[i - 1]));
            }
        }
    }
}

/// A remote that fails while a pull begins ends the pull.
pub proof fn law_pull_ends_at_failure<S: RemoteStore>(
    repo_root: &str,
    git_ref: Option<String>,
    verbose: bool,
    all_cas: bool,
    s: &mut RemoteSession<S>,
    r: PullStep,
    wanted: &Option<String>,
    s2: &mut RemoteSession<S>,
    r2: Result<String, Error>,
    s3: &mut RemoteSession<S>,
    r3: Result<String, Error>,
    i: int,
    why: Seq<char>,
)
    requires
        call_ensures(pull::<S>, (repo_root, git_ref, verbose, all_cas, s), r),
        call_ensures(resolve_remote_ref::<S>, (s2, wanted), r2),
        call_ensures(remote_head::<S>, (s3,), r3),
    ensures
        ({
            let calls = new_calls(old(s).log(), final(s).log());
            0 <= i < calls.len() && failed(calls[i], why) ==> i == calls.len() - 1
                && pull_fails_with(r, why)
        }),
        ends_at_failure(new_calls(old(s2).log(), final(s2).log()), told_text(r2)),
        ends_at_failure(new_calls(old(s3).log(), final(s3).log()), told_text(r3)),
{
    let calls = new_calls(old(s).log(), final(s).log());
    let k = crate::commands::pull::ref_calls(git_ref.deep_view());
    if 0 <= i < calls.len() && failed(calls[i], why) {
        if i < k {
            assert(calls.take(k)[i] == calls[i]);
        } else {
            assert(calls.skip(k)[i - k] == calls[i]);
        }
    }
}

/// A remote that fails while a push sends its files, or publishes, ends the push: the lock is
/// given back, and the failure is told.
pub proof fn law_push_ends_at_failure<S: RemoteStore>(
    m: PushRun,
    s: &mut RemoteSession<S>,
    r: PushStep,
    publication: Publication,
    s2: &mut RemoteSession<S>,
    n: PushRun,
    r2: PushStep,
    i: int,
    why: Seq<char>,
)
    requires
        call_ensures(PushRun::next::<S>, (m, PushEvent::Announced, s), r),
        m@.at is Announcing,
        call_ensures(PushRun::next::<S>, (n, PushEvent::Kept { publication }, s2), r2),
        n@.at is Keeping,
    ensures
        ({
            let calls = new_calls(old(s).log(), final(s).log());
            0 <= i < calls.len() && failed(calls[i], why) ==> i == calls.len() - 1
                && gives_back_and_fails(r, why)
        }),
        ({
            let calls = new_calls(old(s2).log(), final(s2).log());
            0 <= i < calls.len() && failed(calls[i], why) ==> i == calls.len() - 1
                && gives_back_and_fails(r2, why)
        }),
{
    let calls = new_calls(old(s).log(), final(s).log());
    let views = entry_views(m@.at->Announcing_manifest.entries@);
    let o = choose|o: Result<SyncSummary, Seq<char>>|
        {
            &&& #[trigger] pushed(m@.local_cas_root, views, no_transfer(), calls, o)
            &&& (o is Err ==> r@ == crate::commands::push::ends(m@, Err(o->Err_0)))
        };
    lemma_push_fails(m@.local_cas_root, views, no_transfer(), calls, o);
    lemma_quiet(r);
    let calls2 = new_calls(old(s2).log(), final(s2).log());
    let tx = crate::commands::push::push_tx(n@, publication);
    let o2 = choose|o2: Result<(), Seq<char>>|
        {
            &&& #[trigger] published_by(calls2, tx, o2)
            &&& (o2 is Err ==> r2@ == crate::commands::push::ends(n@, Err(o2->Err_0)))
        };
    lemma_publish_fails(calls2, tx, o2);
    lemma_quiet(r2);
}

/// How many things are said besides is the same by view.
proof fn lemma_quiet(r: PushStep)
    ensures
        r matches PushStep::Ask { notices, .. } ==> (r@ matches crate::commands::push::PushMove::Ask {
            notices: said,
            ..
        } && said.len() == notices@.len()),
{
}

} // verus!
