//! Laws of publishing: what a push leaves on a remote, and what a pull makes of it.

use vstd::prelude::*;
use vstd::utf8::*;

use crate::commands::pull::{pull, PullAsk, PullStep};
use crate::commands::push::{
    push_goes_on, push_refname, push_tx, PushAt, PushEvent, PushRun, PushStep, Publication,
};
use crate::commands::transactions::{
    final_writes, finalize_transaction, finalized, lemma_live_after_staging,
    lemma_published_is_kept, lemma_untouched, lemma_written_is_kept, publish, published_by,
    published_path, publishes, stage_transaction, staged_path, staged_writes, transaction_id,
    write_succeeded, writes_object, wrote, TransactionArtifacts, TxView,
};
use crate::error::Error;
use crate::laws::pointers::is_hex_digit;
use crate::remote::{new_calls, RemoteCall, RemoteSession, RemoteStore};
use crate::sync::roundtrip::{kept_after, lemma_kept_split, lemma_truthful_split, truthful, Objects};
use crate::sync::world::Files;
use crate::text::decimal;

verus! {

/// The object is there, with this content.
pub open spec fn has_object(r: Objects, path: Seq<char>, bytes: Seq<u8>) -> bool {
    r.contains_key(path) && r[path] == bytes
}

/// The object is there, and what it says is the commit, on a line.
pub open spec fn names_commit(r: Objects, path: Seq<char>, sha: Seq<char>) -> bool {
    has_object(r, path, encode_utf8(sha + "\n"@))
}

/// An object is as it was, or still not there.
pub open spec fn is_as_it_was(before: Objects, after: Objects, path: Seq<char>) -> bool {
    &&& after.contains_key(path) <==> before.contains_key(path)
    &&& before.contains_key(path) ==> after[path] == before[path]
}

/// The text is the full name of a commit: forty hexadecimal digits.
pub open spec fn is_commit(s: Seq<char>) -> bool {
    s.len() == 40 && forall|i: int| 0 <= i < 40 ==> is_hex_digit(#[trigger] s[i])
}

/// What is published under is the name that was asked for, whatever its characters; without
/// one the branch, whatever its characters; and without that `HEAD`.
pub proof fn law_push_refname(wanted: &Option<String>, branch: &Option<String>, r: String)
    requires
        call_ensures(push_refname, (wanted, branch), r),
    ensures
        wanted matches Some(name) ==> r@ == name@,
        wanted is None && branch is Some ==> r@ == branch->0@,
        wanted is None && branch is None ==> r@ == "HEAD"@,
{
}

/// The identity of a transaction tells the commit, the time and the UUID, with dots between,
/// and its markers bear the identity.
pub proof fn law_transaction_id(
    git_sha: &str,
    unix_ts: u64,
    uuid: &str,
    r: String,
    txid: &str,
    staged: String,
    published: String,
)
    requires
        call_ensures(transaction_id, (git_sha, unix_ts, uuid), r),
        call_ensures(staged_path, (txid,), staged),
        call_ensures(published_path, (txid,), published),
    ensures
        r@ == git_sha@ + "."@ + decimal(unix_ts as nat) + "."@ + uuid@,
        staged@ == "tx/STAGED/"@ + txid@,
        published@ == "tx/PUBLISHED/"@ + txid@,
{
}

/// What a transaction consists of is there below `base`: the manifest and the index of
/// pointers under the commit, and the ref and both HEADs, which name it.
pub open spec fn has_artifacts(
    r: Objects,
    base: Seq<char>,
    sha: Seq<char>,
    refname: Seq<char>,
    manifest: Seq<u8>,
    pointers: Seq<u8>,
) -> bool {
    &&& has_object(r, base + "manifests/"@ + sha + ".json"@, manifest)
    &&& has_object(r, base + "pointers/"@ + sha + ".json"@, pointers)
    &&& names_commit(r, base + "refs/"@ + refname, sha)
    &&& names_commit(r, base + "manifests/HEAD"@, sha)
    &&& names_commit(r, base + "pointers/HEAD"@, sha)
}

/// The path is one of those at which a published transaction is live, or its marker.
pub open spec fn is_published_at(tx: &TransactionArtifacts, path: Seq<char>) -> bool {
    ||| path == "manifests/"@ + tx.git_sha@ + ".json"@
    ||| path == "pointers/"@ + tx.git_sha@ + ".json"@
    ||| path == "refs/"@ + tx.refname@
    ||| path == "manifests/HEAD"@
    ||| path == "pointers/HEAD"@
    ||| path == "tx/PUBLISHED/"@ + tx.txid@
}

proof fn lemma_truth_owes_success(w: Files, o: Objects, calls: Seq<RemoteCall>, i: int)
    requires
        truthful(w, o, calls),
        0 <= i < calls.len(),
        calls[i] is Write,
    ensures
        calls[i] matches RemoteCall::Write { reply, .. } && reply is Ok,
{
    lemma_truthful_split(w, o, calls, i);
    assert(calls.skip(i)[0] == calls[i]);
}

proof fn lemma_paths_staged(tx: &TransactionArtifacts)
    ensures
        ({
            let s = staged_writes(tx@);
            let base = "tx/"@ + tx.txid@ + "/"@;
            &&& s.len() == 6
            &&& s[0].path == base + "manifests/"@ + tx.git_sha@ + ".json"@
            &&& s[1].path == base + "pointers/"@ + tx.git_sha@ + ".json"@
            &&& s[2].path == base + "refs/"@ + tx.refname@
            &&& s[3].path == base + "manifests/HEAD"@
            &&& s[4].path == base + "pointers/HEAD"@
            &&& s[5].path == "tx/STAGED/"@ + tx.txid@
        }),
{
}

proof fn lemma_paths_published(tx: &TransactionArtifacts)
    ensures
        ({
            let s = final_writes(tx@);
            &&& s.len() == 6
            &&& s[0].path == "manifests/"@ + tx.git_sha@ + ".json"@
            &&& s[1].path == "pointers/"@ + tx.git_sha@ + ".json"@
            &&& s[2].path == "refs/"@ + tx.refname@
            &&& s[3].path == "manifests/HEAD"@
            &&& s[4].path == "pointers/HEAD"@
            &&& s[5].path == "tx/PUBLISHED/"@ + tx.txid@
        }),
{
    reveal_strlit("");
    let s = final_writes(tx@);
    assert(s[0].path =~= "manifests/"@ + tx.git_sha@ + ".json"@);
    assert(s[1].path =~= "pointers/"@ + tx.git_sha@ + ".json"@);
    assert(s[2].path =~= "refs/"@ + tx.refname@);
    assert(s[3].path =~= "manifests/HEAD"@);
    assert(s[4].path =~= "pointers/HEAD"@);
}

/// What is staged lies apart.
proof fn lemma_staged_apart(tx: &TransactionArtifacts)
    requires
        !tx.txid@.contains('/'),
    ensures
        forall|i: int, j: int|
            0 <= i < 6 && 0 <= j < 6 && i != j ==> (#[trigger] staged_writes(tx@)[i]).path != (
            #[trigger] staged_writes(tx@)[j]).path,
{
    let s = staged_writes(tx@);
    let base = "tx/"@ + tx.txid@ + "/"@;
    let n = base.len() as int;
    reveal_strlit("tx/");
    reveal_strlit("/");
    reveal_strlit("manifests/");
    reveal_strlit("pointers/");
    reveal_strlit("refs/");
    reveal_strlit("manifests/HEAD");
    reveal_strlit("pointers/HEAD");
    reveal_strlit("tx/STAGED/");
    reveal_strlit(".json");
    lemma_paths_staged(tx);
    assert(s[0].path[n] == 'm' && s[3].path[n] == 'm');
    assert(s[1].path[n] == 'p' && s[4].path[n] == 'p');
    assert(s[2].path[n] == 'r');
    assert(s[0].path.last() == 'n' && s[3].path.last() == 'D');
    assert(s[1].path.last() == 'n' && s[4].path.last() == 'D');
    assert forall|i: int| 0 <= i < 5 implies (#[trigger] s[i]).path != s[5].path by {
        let id = tx.txid@;
        let k = id.len() as int;
        let a = s[i].path;
        let b = s[5].path;
        if a == b {
            assert(a[3 + k] == '/');
            if k < 6 {
                assert(b[3 + k] == "tx/STAGED/"@[3 + k]);
            } else if k > 6 {
                assert(a[9] == id[6]);
                assert(b[9] == '/');
                assert(id.contains('/'));
            } else {
                assert(b[10] == id[0]);
                assert(a[10] == a[n]);
                assert(a[3] == id[0]);
                assert(b[3] == 'S');
            }
        }
    }
}

/// Staging, on a remote that works, succeeds. All of the transaction is then below its own
/// directory, and it is marked as staged. Nothing outside of what is kept for transactions
/// changes, on whatever remote.
pub proof fn law_stage<S: RemoteStore>(
    s: &mut RemoteSession<S>,
    tx: &TransactionArtifacts,
    r: Result<(), Error>,
    w: Files,
    before: Objects,
    path: Seq<char>,
)
    requires
        call_ensures(stage_transaction::<S>, (s, tx), r),
        !tx.txid@.contains('/'),
    ensures
        ({
            let calls = new_calls(old(s).log(), final(s).log());
            let after = kept_after(w, before, calls);
            &&& truthful(w, before, calls) ==> r is Ok
            &&& r is Ok ==> {
                &&& has_artifacts(
                    after,
                    "tx/"@ + tx.txid@ + "/"@,
                    tx.git_sha@,
                    tx.refname@,
                    tx.manifest_json@,
                    tx.pointer_json@,
                )
                &&& has_object(after, "tx/STAGED/"@ + tx.txid@, encode_utf8("staged\n"@))
            }
            &&& !"tx/"@.is_prefix_of(path) ==> is_as_it_was(before, after, path)
        }),
{
    let calls = new_calls(old(s).log(), final(s).log());
    let writes = staged_writes(tx@);
    reveal_strlit("tx/");
    reveal_strlit("tx/STAGED/");
    if truthful(w, before, calls) && r is Err {
        lemma_truth_owes_success(w, before, calls, calls.len() - 1);
    }
    if r is Ok {
        lemma_staged_apart(tx);
        lemma_paths_staged(tx);
        assert forall|i: int| 0 <= i < 6 implies has_object(
            kept_after(w, before, calls),
            (#[trigger] writes[i]).path,
            writes[i].bytes,
        ) by {
            lemma_written_is_kept(w, before, calls, writes, i);
        }
        let k0 = writes[0];
        let k1 = writes[1];
        let k2 = writes[2];
        let k3 = writes[3];
        let k4 = writes[4];
        let k5 = writes[5];
    }
    if !"tx/"@.is_prefix_of(path) {
        lemma_untouched(w, before, calls, writes, path);
    }
}

/// With this call, the remote took these bytes for this path.
pub open spec fn takes(call: RemoteCall, path: Seq<char>, bytes: Seq<u8>) -> bool {
    &&& call is Write
    &&& call->Write_path == path
    &&& call->Write_bytes == bytes
    &&& call->Write_reply is Ok
}

/// The remote took these bytes for this path.
pub open spec fn took(calls: Seq<RemoteCall>, path: Seq<char>, bytes: Seq<u8>) -> bool {
    exists|i: int| 0 <= i < calls.len() && takes(#[trigger] calls[i], path, bytes)
}

/// Staging, whatever the name of the transaction is, is six writes: all of the transaction
/// below its own directory, and the mark that it is staged, which comes last. On a remote that
/// works it succeeds.
pub proof fn law_stage_writes<S: RemoteStore>(
    s: &mut RemoteSession<S>,
    tx: &TransactionArtifacts,
    r: Result<(), Error>,
    w: Files,
    before: Objects,
)
    requires
        call_ensures(stage_transaction::<S>, (s, tx), r),
    ensures
        ({
            let calls = new_calls(old(s).log(), final(s).log());
            let base = "tx/"@ + tx.txid@ + "/"@;
            let sha = tx.git_sha@;
            let line = encode_utf8(sha + "\n"@);
            &&& truthful(w, before, calls) ==> r is Ok
            &&& r is Ok ==> {
                &&& calls.len() == 6
                &&& took(calls, base + "manifests/"@ + sha + ".json"@, tx.manifest_json@)
                &&& took(calls, base + "pointers/"@ + sha + ".json"@, tx.pointer_json@)
                &&& took(calls, base + "refs/"@ + tx.refname@, line)
                &&& took(calls, base + "manifests/HEAD"@, line)
                &&& took(calls, base + "pointers/HEAD"@, line)
                &&& takes(calls.last(), "tx/STAGED/"@ + tx.txid@, encode_utf8("staged\n"@))
            }
        }),
{
    let calls = new_calls(old(s).log(), final(s).log());
    let writes = staged_writes(tx@);
    if truthful(w, before, calls) && r is Err {
        lemma_truth_owes_success(w, before, calls, calls.len() - 1);
    }
    if r is Ok {
        lemma_paths_staged(tx);
        assert forall|i: int| 0 <= i < 6 implies takes(
            #[trigger] calls[i],
            writes[i].path,
            writes[i].bytes,
        ) by {
            assert(writes_object(calls[i], writes[i]));
            assert(write_succeeded(calls[i]));
        }
        assert(takes(calls[0], writes[0].path, writes[0].bytes));
        assert(takes(calls[1], writes[1].path, writes[1].bytes));
        assert(takes(calls[2], writes[2].path, writes[2].bytes));
        assert(takes(calls[3], writes[3].path, writes[3].bytes));
        assert(takes(calls[4], writes[4].path, writes[4].bytes));
    }
}

/// The ref, or one of the HEADs, of a transaction.
pub open spec fn leads_to(tx: &TransactionArtifacts, path: Seq<char>) -> bool {
    path == "refs/"@ + tx.refname@ || path == "manifests/HEAD"@ || path == "pointers/HEAD"@
}

/// Before the call `i`, the object was said to be there.
pub open spec fn was_there(calls: Seq<RemoteCall>, i: int, path: Seq<char>) -> bool {
    exists|j: int|
        0 <= j < i && (#[trigger] calls[j]) == (RemoteCall::Exists {
            path,
            reply: Ok::<bool, Seq<char>>(true),
        })
}

/// Finalizing, where it succeeds, and on a remote that works it does, leaves all of the
/// transaction where it is live, and marks it as published. Nothing else changes, on whatever
/// remote. A ref or a HEAD is written only once the manifest and the index of pointers of the
/// commit were said to be there.
pub proof fn law_finalize<S: RemoteStore>(
    s: &mut RemoteSession<S>,
    tx: &TransactionArtifacts,
    r: Result<(), Error>,
    w: Files,
    before: Objects,
    path: Seq<char>,
)
    requires
        call_ensures(finalize_transaction::<S>, (s, tx), r),
    ensures
        ({
            let calls = new_calls(old(s).log(), final(s).log());
            let after = kept_after(w, before, calls);
            &&& truthful(w, before, calls) ==> r is Ok
            &&& r is Ok ==> {
                &&& has_artifacts(
                    after,
                    Seq::empty(),
                    tx.git_sha@,
                    tx.refname@,
                    tx.manifest_json@,
                    tx.pointer_json@,
                )
                &&& has_object(after, "tx/PUBLISHED/"@ + tx.txid@, encode_utf8("published\n"@))
            }
            &&& !is_published_at(tx, path) ==> is_as_it_was(before, after, path)
            &&& forall|i: int|
                0 <= i < calls.len() && ((#[trigger] calls[i]) matches RemoteCall::Write {
                    path: p,
                    ..
                } && leads_to(tx, p)) ==> {
                    &&& was_there(calls, i, "manifests/"@ + tx.git_sha@ + ".json"@)
                    &&& was_there(calls, i, "pointers/"@ + tx.git_sha@ + ".json"@)
                }
        }),
{
    let calls = new_calls(old(s).log(), final(s).log());
    lemma_finalized(tx, calls, r, w, before, path);
}

proof fn lemma_finalized(
    tx: &TransactionArtifacts,
    calls: Seq<RemoteCall>,
    r: Result<(), Error>,
    w: Files,
    before: Objects,
    path: Seq<char>,
)
    requires
        finalized(calls, tx@, crate::error::told(r)),
    ensures
        truthful(w, before, calls) ==> r is Ok,
        r is Ok ==> has_artifacts(
            kept_after(w, before, calls),
            Seq::empty(),
            tx.git_sha@,
            tx.refname@,
            tx.manifest_json@,
            tx.pointer_json@,
        ) && has_object(
            kept_after(w, before, calls),
            "tx/PUBLISHED/"@ + tx.txid@,
            encode_utf8("published\n"@),
        ),
        !is_published_at(tx, path) ==> is_as_it_was(before, kept_after(w, before, calls), path),
        forall|i: int|
            0 <= i < calls.len() && ((#[trigger] calls[i]) matches RemoteCall::Write { path: p, .. }
                && leads_to(tx, p)) ==> {
                &&& was_there(calls, i, "manifests/"@ + tx.git_sha@ + ".json"@)
                &&& was_there(calls, i, "pointers/"@ + tx.git_sha@ + ".json"@)
            },
{
    let writes = final_writes(tx@);
    let after = kept_after(w, before, calls);
    let first = r is Err && wrote(calls, writes.take(2), crate::error::told(r));
    lemma_paths_published(tx);
    reveal_strlit("manifests/");
    reveal_strlit("pointers/");
    reveal_strlit("refs/");
    reveal_strlit("manifests/HEAD");
    reveal_strlit("pointers/HEAD");
    reveal_strlit(".json");
    assert(writes[0].path.last() == 'n' && writes[1].path.last() == 'n');
    assert(writes[0].path[0] == 'm' && writes[1].path[0] == 'p');
    assert("manifests/HEAD"@.last() == 'D' && "pointers/HEAD"@.last() == 'D');
    assert(("refs/"@ + tx.refname@)[0] == 'r');
    if r is Ok {
        lemma_published_is_kept(w, before, calls, tx@);
        let k0 = writes[0];
        let k1 = writes[1];
        let k2 = writes[2];
        let k3 = writes[3];
        let k4 = writes[4];
        let k5 = writes[5];
        let no = Seq::<char>::empty();
        assert(no + "manifests/"@ + tx.git_sha@ + ".json"@ =~= k0.path);
        assert(no + "pointers/"@ + tx.git_sha@ + ".json"@ =~= k1.path);
        assert(no + "refs/"@ + tx.refname@ =~= k2.path);
        assert(no + "manifests/HEAD"@ =~= k3.path);
        assert(no + "pointers/HEAD"@ =~= k4.path);
    }
    if !first {
        lemma_kept_split(w, before, calls, 2);
        let r1 = kept_after(w, before, calls.take(2));
        let later = calls.skip(2);
        if calls.len() >= 4 {
            lemma_kept_split(w, r1, later, 2);
            assert(later.skip(2) =~= calls.skip(4));
            assert(kept_after(w, r1, later.take(2)) == r1) by {
                reveal_with_fuel(kept_after, 3);
                assert(later.take(2)[0] == calls[2] && later.take(2)[1] == calls[3]);
            }
        } else {
            assert(kept_after(w, r1, later) == r1) by {
                reveal_with_fuel(kept_after, 2);
                assert(later[0] == calls[2]);
            }
        }
    }
    if !is_published_at(tx, path) {
        if first {
            lemma_untouched(w, before, calls, writes.take(2), path);
        } else {
            lemma_untouched(w, before, calls.take(2), writes.take(2), path);
            if calls.len() > 4 {
                lemma_untouched(
                    w,
                    kept_after(w, before, calls.take(2)),
                    calls.skip(4),
                    writes.skip(2),
                    path,
                );
            } else if calls.len() == 4 {
                assert(calls.skip(4).len() == 0);
            }
        }
    }
    assert forall|i: int|
        0 <= i < calls.len() && ((#[trigger] calls[i]) matches RemoteCall::Write { path: p, .. }
            && leads_to(tx, p)) implies {
        &&& was_there(calls, i, "manifests/"@ + tx.git_sha@ + ".json"@)
        &&& was_there(calls, i, "pointers/"@ + tx.git_sha@ + ".json"@)
    } by {
        if first {
            assert(writes_object(calls[i], writes.take(2)[i]));
        } else if i < 2 {
            assert(writes_object(calls.take(2)[i], writes.take(2)[i]));
        } else {
            assert(calls[2] == (RemoteCall::Exists {
                path: writes[0].path,
                reply: Ok::<bool, Seq<char>>(true),
            }));
            assert(calls[3] == (RemoteCall::Exists {
                path: writes[1].path,
                reply: Ok::<bool, Seq<char>>(true),
            }));
            assert(i >= 4);
        }
    }
    if truthful(w, before, calls) && r is Err {
        if first {
            lemma_truth_owes_success(w, before, calls, calls.len() - 1);
        } else {
            lemma_truthful_split(w, before, calls, 2);
            let r1 = kept_after(w, before, calls.take(2));
            lemma_written_is_kept_twice(w, before, calls, writes);
            lemma_truthful_split(w, r1, calls.skip(2), 1);
            assert(calls.skip(2)[0] == calls[2]);
            if calls.len() > 4 {
                lemma_truth_owes_success(w, before, calls, calls.len() - 1);
            } else {
                assert(calls.len() >= 4);
                assert(calls.skip(2).skip(1)[0] == calls[3]);
                assert(kept_after(w, r1, calls.skip(2).take(1)) == r1) by {
                    reveal_with_fuel(kept_after, 2);
                    assert(calls.skip(2).take(1)[0] == calls[2]);
                }
                if calls.len() == 4 {
                    assert(calls.skip(4).len() == 0);
                }
            }
        }
    }
}

proof fn lemma_written_is_kept_twice(
    w: Files,
    before: Objects,
    calls: Seq<RemoteCall>,
    writes: Seq<crate::commands::transactions::ObjectWrite>,
)
    requires
        calls.len() >= 2,
        writes.len() == 6,
        wrote(calls.take(2), writes.take(2), Ok(())),
        writes[0].path != writes[1].path,
    ensures
        kept_after(w, before, calls.take(2)).contains_key(writes[0].path),
        kept_after(w, before, calls.take(2)).contains_key(writes[1].path),
{
    lemma_written_is_kept(w, before, calls.take(2), writes.take(2), 0);
    lemma_written_is_kept(w, before, calls.take(2), writes.take(2), 1);
}

/// Publishing as a whole: it succeeds on a remote that works, and then all of the transaction
/// is live, and marked. What is neither kept for transactions nor one of its objects stays as
/// it was, on whatever remote, and nothing is written there before all of the transaction was
/// staged and marked so.
pub proof fn law_publish<S: RemoteStore>(
    s: &mut RemoteSession<S>,
    tx: &TransactionArtifacts,
    r: Result<(), Error>,
    w: Files,
    before: Objects,
    path: Seq<char>,
)
    requires
        call_ensures(publish::<S>, (s, tx), r),
    ensures
        ({
            let calls = new_calls(old(s).log(), final(s).log());
            let after = kept_after(w, before, calls);
            &&& truthful(w, before, calls) ==> r is Ok
            &&& r is Ok ==> {
                &&& has_artifacts(
                    after,
                    Seq::empty(),
                    tx.git_sha@,
                    tx.refname@,
                    tx.manifest_json@,
                    tx.pointer_json@,
                )
                &&& has_object(after, "tx/PUBLISHED/"@ + tx.txid@, encode_utf8("published\n"@))
            }
            &&& !"tx/"@.is_prefix_of(path) && !is_published_at(tx, path) ==> is_as_it_was(
                before,
                after,
                path,
            )
            &&& forall|i: int|
                0 <= i < calls.len() && ((#[trigger] calls[i]) matches RemoteCall::Write {
                    path: p,
                    ..
                } && !"tx/"@.is_prefix_of(p)) ==> was_staged(calls, i, tx)
        }),
{
    let calls = new_calls(old(s).log(), final(s).log());
    lemma_published(tx, calls, r, w, before, path);
    assert forall|i: int|
        0 <= i < calls.len() && ((#[trigger] calls[i]) matches RemoteCall::Write { path: p, .. }
            && !"tx/"@.is_prefix_of(p)) implies was_staged(calls, i, tx) by {
        lemma_live_after_staging(calls, tx@, crate::error::told(r), i);
        let staged = staged_writes(tx@);
        lemma_paths_staged(tx);
        assert(calls.take(6)[5] == calls[5]);
        assert(writes_object(calls.take(6)[5], staged[5]));
        assert(write_succeeded(calls.take(6)[5]));
    }
}

/// Before the call `i`, the transaction was marked as staged.
pub open spec fn was_staged(calls: Seq<RemoteCall>, i: int, tx: &TransactionArtifacts) -> bool {
    exists|j: int|
        0 <= j < i && ((#[trigger] calls[j]) matches RemoteCall::Write { path, reply, .. } && path
            == "tx/STAGED/"@ + tx.txid@ && reply is Ok)
}

proof fn lemma_published(
    tx: &TransactionArtifacts,
    calls: Seq<RemoteCall>,
    r: Result<(), Error>,
    w: Files,
    before: Objects,
    path: Seq<char>,
)
    requires
        published_by(calls, tx@, crate::error::told(r)),
    ensures
        truthful(w, before, calls) ==> r is Ok,
        r is Ok ==> has_artifacts(
            kept_after(w, before, calls),
            Seq::empty(),
            tx.git_sha@,
            tx.refname@,
            tx.manifest_json@,
            tx.pointer_json@,
        ) && has_object(
            kept_after(w, before, calls),
            "tx/PUBLISHED/"@ + tx.txid@,
            encode_utf8("published\n"@),
        ),
        !"tx/"@.is_prefix_of(path) && !is_published_at(tx, path) ==> is_as_it_was(
            before,
            kept_after(w, before, calls),
            path,
        ),
{
    let staged = staged_writes(tx@);
    reveal_strlit("tx/");
    reveal_strlit("tx/STAGED/");
    if r is Err && wrote(calls, staged, crate::error::told(r)) {
        if truthful(w, before, calls) {
            lemma_truth_owes_success(w, before, calls, calls.len() - 1);
        }
        if !"tx/"@.is_prefix_of(path) {
            lemma_untouched(w, before, calls, staged, path);
        }
    } else {
        let mid = kept_after(w, before, calls.take(6));
        lemma_kept_split(w, before, calls, 6);
        if truthful(w, before, calls) {
            lemma_truthful_split(w, before, calls, 6);
        }
        if !"tx/"@.is_prefix_of(path) {
            lemma_untouched(w, before, calls.take(6), staged, path);
        }
        lemma_finalized(tx, calls.skip(6), r, w, mid, path);
    }
}

/// The push ended well, and only the lock is left to be given back.
pub open spec fn ended_well(r: PushStep) -> bool {
    r matches PushStep::Ask { ask, then, .. } && ask is Release && (
    then@.at matches PushAt::Releasing { outcome } && outcome is Ok)
}

/// A push that ends well leaves on a remote, under exactly the ref that was asked for, or
/// under exactly the branch that HEAD is on, whatever the characters of its name, an object
/// that names the commit. The HEADs of the remote name it too, and the manifest and the
/// index of pointers are there under the commit. On a remote that works it does end well.
pub proof fn law_push_publishes<S: RemoteStore>(
    m: PushRun,
    publication: Publication,
    s: &mut RemoteSession<S>,
    r: PushStep,
    w: Files,
    before: Objects,
)
    requires
        call_ensures(PushRun::next::<S>, (m, PushEvent::Kept { publication }, s), r),
        m@.at is Keeping,
    ensures
        ({
            let calls = new_calls(old(s).log(), final(s).log());
            let after = kept_after(w, before, calls);
            let sha = m@.git_sha;
            &&& truthful(w, before, calls) ==> ended_well(r)
            &&& ended_well(r) ==> {
                &&& m@.refname matches Some(name) ==> names_commit(after, "refs/"@ + name, sha)
                &&& m@.refname is None && publication.branch is Some ==> names_commit(
                    after,
                    "refs/"@ + publication.branch->0@,
                    sha,
                )
                &&& m@.refname is None && publication.branch is None ==> names_commit(
                    after,
                    "refs/"@ + "HEAD"@,
                    sha,
                )
                &&& names_commit(after, "manifests/HEAD"@, sha)
                &&& names_commit(after, "pointers/HEAD"@, sha)
                &&& has_object(
                    after,
                    "manifests/"@ + sha + ".json"@,
                    publication.manifest_json@,
                )
                &&& has_object(after, "pointers/"@ + sha + ".json"@, publication.pointer_json@)
                &&& has_object(
                    after,
                    "tx/PUBLISHED/"@ + (sha + "."@ + decimal(publication.unix_ts as nat) + "."@
                        + publication.uuid@),
                    encode_utf8("published\n"@),
                )
            }
        }),
{
    let calls = new_calls(old(s).log(), final(s).log());
    let v = push_tx(m@, publication);
    lemma_push_published(m, publication, calls, r, w, before, v);
}

/// A transaction with the given view, and a result with the given one.
proof fn lemma_push_published(
    m: PushRun,
    publication: Publication,
    calls: Seq<RemoteCall>,
    r: PushStep,
    w: Files,
    before: Objects,
    v: TxView,
)
    requires
        push_goes_on(m@, PushEvent::Kept { publication }, calls, r@),
        m@.at is Keeping,
        v == push_tx(m@, publication),
    ensures
        truthful(w, before, calls) ==> ended_well(r),
        ended_well(r) ==> publishes(kept_after(w, before, calls), v),
        ended_well(r) ==> ({
            let after = kept_after(w, before, calls);
            let no = Seq::<char>::empty();
            let writes = final_writes(v);
            &&& writes[0].path == "manifests/"@ + v.git_sha + ".json"@
            &&& writes[1].path == "pointers/"@ + v.git_sha + ".json"@
            &&& writes[2].path == "refs/"@ + v.refname
            &&& writes[3].path == "manifests/HEAD"@
            &&& writes[4].path == "pointers/HEAD"@
            &&& has_object(after, writes[0].path, v.manifest_json)
            &&& has_object(after, writes[1].path, v.pointer_json)
            &&& names_commit(after, writes[2].path, v.git_sha)
            &&& names_commit(after, writes[3].path, v.git_sha)
            &&& names_commit(after, writes[4].path, v.git_sha)
            &&& has_object(after, "tx/PUBLISHED/"@ + v.txid, encode_utf8("published\n"@))
        }),
{
    let o = choose|o: Result<(), Seq<char>>|
        {
            &&& #[trigger] published_by(calls, v, o)
            &&& (o is Ok <==> ended_well(r))
        };
    assert(published_by(calls, v, o) && (o is Ok <==> ended_well(r)));
    let staged = staged_writes(v);
    let writes = final_writes(v);
    reveal_strlit("");
    assert(writes[0].path =~= "manifests/"@ + v.git_sha + ".json"@);
    assert(writes[1].path =~= "pointers/"@ + v.git_sha + ".json"@);
    assert(writes[2].path =~= "refs/"@ + v.refname);
    assert(writes[3].path =~= "manifests/HEAD"@);
    assert(writes[4].path =~= "pointers/HEAD"@);
    let k5 = writes[5];
    if o is Ok {
        lemma_kept_split(w, before, calls, 6);
        lemma_published_is_kept(w, kept_after(w, before, calls.take(6)), calls.skip(6), v);
    } else if truthful(w, before, calls) {
        lemma_published_by_owes_success(calls, v, o, w, before);
    }
}

proof fn lemma_published_by_owes_success(
    calls: Seq<RemoteCall>,
    v: TxView,
    o: Result<(), Seq<char>>,
    w: Files,
    before: Objects,
)
    requires
        published_by(calls, v, o),
        truthful(w, before, calls),
    ensures
        o is Ok,
{
    let staged = staged_writes(v);
    let writes = final_writes(v);
    if o is Err && wrote(calls, staged, o) {
        lemma_truth_owes_success(w, before, calls, calls.len() - 1);
    } else if o is Err {
        lemma_truthful_split(w, before, calls, 6);
        let mid = kept_after(w, before, calls.take(6));
        let rest = calls.skip(6);
        if wrote(rest, writes.take(2), o) {
            lemma_truth_owes_success(w, mid, rest, rest.len() - 1);
        } else {
            reveal_strlit("");
            reveal_strlit("manifests/");
            reveal_strlit("pointers/");
            assert(writes[0].path[0] == 'm' && writes[1].path[0] == 'p');
            lemma_truthful_split(w, mid, rest, 2);
            let r1 = kept_after(w, mid, rest.take(2));
            lemma_written_is_kept_twice(w, mid, rest, writes);
            assert(rest.skip(2)[0] == rest[2]);
            lemma_truthful_split(w, r1, rest.skip(2), 1);
            if rest.len() > 4 {
                lemma_truth_owes_success(w, mid, rest, rest.len() - 1);
            } else {
                assert(rest.skip(2).skip(1)[0] == rest[3]);
                assert(kept_after(w, r1, rest.skip(2).take(1)) == r1) by {
                    reveal_with_fuel(kept_after, 2);
                    assert(rest.skip(2).take(1)[0] == rest[2]);
                }
                if rest.len() == 4 {
                    assert(rest.skip(4).len() == 0);
                }
            }
        }
    }
}

/// What was pushed under a branch is what a pull of that branch finds: the commit, and its
/// manifest, byte for byte. The name of the branch is any that is not itself the name of a
/// commit.
pub proof fn law_pushed_branch_is_pulled<S: RemoteStore>(
    m: PushRun,
    publication: Publication,
    s: &mut RemoteSession<S>,
    r: PushStep,
    w: Files,
    before: Objects,
    repo_root: &str,
    git_ref: Option<String>,
    verbose: bool,
    s2: &mut RemoteSession<S>,
    r2: PullStep,
)
    requires
        call_ensures(PushRun::next::<S>, (m, PushEvent::Kept { publication }, s), r),
        m@.at is Keeping,
        is_commit(m@.git_sha),
        truthful(w, before, new_calls(old(s).log(), final(s).log())),
        call_ensures(pull::<S>, (repo_root, git_ref, verbose, false, s2), r2),
        git_ref is Some,
        !is_commit(git_ref->0@),
        m@.refname matches Some(name) ==> git_ref->0@ == name,
        m@.refname is None ==> publication.branch is Some && git_ref->0@ == publication.branch->0@,
        truthful(
            w,
            kept_after(w, before, new_calls(old(s).log(), final(s).log())),
            new_calls(old(s2).log(), final(s2).log()),
        ),
    ensures
        r2 matches PullStep::Ask { ask, then } && then@.sha == m@.git_sha && (
        ask matches PullAsk::Parse { sha, bytes } && sha@ == m@.git_sha && bytes@
            == publication.manifest_json@),
{
    let calls = new_calls(old(s).log(), final(s).log());
    let v = push_tx(m@, publication);
    lemma_commits_are_sha1(m@.git_sha);
    lemma_commits_are_sha1(git_ref->0@);
    lemma_push_published(m, publication, calls, r, w, before, v);
    crate::commands::pull::lemma_push_is_read_back(
        w,
        before,
        m@,
        PushEvent::Kept { publication },
        calls,
        r@,
    );
    crate::commands::pull::lemma_pull_finds_what_was_pushed(
        w,
        kept_after(w, before, calls),
        v,
        repo_root@,
        git_ref.deep_view(),
        verbose,
        new_calls(old(s2).log(), final(s2).log()),
        r2@,
    );
}

proof fn lemma_commits_are_sha1(t: Seq<char>)
    ensures
        is_commit(t) <==> crate::sync::refs::is_sha1(t),
{
    assert forall|i: int| 0 <= i < t.len() implies (is_hex_digit(#[trigger] t[i])
        <==> crate::sync::refs::is_hex(t[i])) by {}
}

} // verus!
