//! Publishing: what a push leaves behind is staged under a transaction of its own, then
//! published, and markers say how far it came.

use vstd::prelude::*;
use vstd::utf8::*;

use crate::commands::upkeep::exists_of;
use crate::error::{told, Error};
use crate::remote::{lemma_log_grows, new_calls, RemoteCall, RemoteSession, RemoteStore};
use crate::sync::refs::{is_sha1, lemma_sha_line_reads_back, sha_line, sha_line_of};
use crate::sync::roundtrip::{
    kept, kept_after, lemma_kept_split, lemma_truthful_split, truthful, Objects,
};
use crate::sync::world::Files;
use crate::text::{bytes_of, decimal, decimal_text, lossy_text, trim_text};

verus! {

/// What a push publishes.
pub struct TransactionArtifacts {
    pub txid: String,
    pub git_sha: String,
    pub refname: String,
    pub manifest_json: Vec<u8>,
    pub pointer_json: Vec<u8>,
}

/// What a push publishes, by view.
pub struct TxView {
    pub txid: Seq<char>,
    pub git_sha: Seq<char>,
    pub refname: Seq<char>,
    pub manifest_json: Seq<u8>,
    pub pointer_json: Seq<u8>,
}

impl View for TransactionArtifacts {
    type V = TxView;

    open spec fn view(&self) -> TxView {
        TxView {
            txid: self.txid@,
            git_sha: self.git_sha@,
            refname: self.refname@,
            manifest_json: self.manifest_json@,
            pointer_json: self.pointer_json@,
        }
    }
}

/// The identity of a transaction: the commit, the time, and a random UUID.
pub open spec fn tx_identity(git_sha: Seq<char>, unix_ts: u64, uuid: Seq<char>) -> Seq<char> {
    git_sha + "."@ + decimal(unix_ts as nat) + "."@ + uuid
}

/// The identity of a transaction.
pub fn transaction_id(git_sha: &str, unix_ts: u64, uuid: &str) -> (r: String)
    ensures
        r@ == tx_identity(git_sha@, unix_ts, uuid@),
{
    let mut id = git_sha.to_owned();
    id.append(".");
    id.append(decimal_text(unix_ts).as_str());
    id.append(".");
    id.append(uuid);
    id
}

/// An object that is written: its path and its content.
pub struct ObjectWrite {
    pub path: Seq<char>,
    pub bytes: Seq<u8>,
}

/// The five objects of a transaction below `base`: the manifest, the index of pointers,
/// the ref and the two HEADs.
pub open spec fn artifacts_below(base: Seq<char>, tx: TxView) -> Seq<ObjectWrite> {
    let head = encode_utf8(sha_line(tx.git_sha));
    seq![
        ObjectWrite {
            path: base + "manifests/"@ + tx.git_sha + ".json"@,
            bytes: tx.manifest_json,
        },
        ObjectWrite { path: base + "pointers/"@ + tx.git_sha + ".json"@, bytes: tx.pointer_json },
        ObjectWrite { path: base + "refs/"@ + tx.refname, bytes: head },
        ObjectWrite { path: base + "manifests/HEAD"@, bytes: head },
        ObjectWrite { path: base + "pointers/HEAD"@, bytes: head },
    ]
}

/// Where the objects of a transaction are staged.
pub open spec fn tx_base(txid: Seq<char>) -> Seq<char> {
    "tx/"@ + txid + "/"@
}

/// Where it is marked that a transaction was staged.
pub open spec fn staged_marker(txid: Seq<char>) -> Seq<char> {
    "tx/STAGED/"@ + txid
}

/// Where it is marked that a transaction was published.
pub open spec fn published_marker(txid: Seq<char>) -> Seq<char> {
    "tx/PUBLISHED/"@ + txid
}

/// Where it is marked that a transaction was staged.
pub fn staged_path(txid: &str) -> (r: String)
    ensures
        r@ == staged_marker(txid@),
{
    let mut p = "tx/STAGED/".to_owned();
    p.append(txid);
    p
}

/// Where it is marked that a transaction was published.
pub fn published_path(txid: &str) -> (r: String)
    ensures
        r@ == published_marker(txid@),
{
    let mut p = "tx/PUBLISHED/".to_owned();
    p.append(txid);
    p
}

/// What staging writes, in order: the objects, below the transaction, and the marker.
pub open spec fn staged_writes(tx: TxView) -> Seq<ObjectWrite> {
    artifacts_below(tx_base(tx.txid), tx).push(
        ObjectWrite { path: staged_marker(tx.txid), bytes: encode_utf8("staged\n"@) },
    )
}

/// What publishing writes, in order: the objects, where they are live, and the marker.
pub open spec fn final_writes(tx: TxView) -> Seq<ObjectWrite> {
    artifacts_below(""@, tx).push(
        ObjectWrite { path: published_marker(tx.txid), bytes: encode_utf8("published\n"@) },
    )
}

/// The calls write the objects in turn, up to the first failure.
pub open spec fn wrote(
    calls: Seq<RemoteCall>,
    writes: Seq<ObjectWrite>,
    outcome: Result<(), Seq<char>>,
) -> bool {
    &&& calls.len() <= writes.len()
    &&& forall|i: int| 0 <= i < calls.len() ==> #[trigger] writes_object(calls[i], writes[i])
    &&& match outcome {
        Ok(_) => calls.len() == writes.len() && forall|i: int|
            0 <= i < calls.len() ==> write_succeeded(#[trigger] calls[i]),
        Err(e) => {
            &&& calls.len() > 0
            &&& calls.last() matches RemoteCall::Write { reply, .. }
            &&& reply == Err::<(), Seq<char>>(e)
            &&& forall|i: int| 0 <= i < calls.len() - 1 ==> write_succeeded(#[trigger] calls[i])
        },
    }
}

/// The call writes the object.
pub open spec fn writes_object(call: RemoteCall, w: ObjectWrite) -> bool {
    call matches RemoteCall::Write { path, bytes, .. } && path == w.path && bytes == w.bytes
}

/// The call is a write, and it succeeded.
pub open spec fn write_succeeded(call: RemoteCall) -> bool {
    call matches RemoteCall::Write { reply, .. } && reply is Ok
}

/// Writes an object as the next of several.
fn write_next<S: RemoteStore>(
    store: &mut RemoteSession<S>,
    path: &str,
    bytes: &[u8],
    Ghost(log0): Ghost<Seq<RemoteCall>>,
    Ghost(writes): Ghost<Seq<ObjectWrite>>,
    Ghost(n): Ghost<int>,
) -> (r: Result<(), Error>)
    requires
        0 <= n < writes.len(),
        writes[n] == (ObjectWrite { path: path@, bytes: bytes@ }),
        log0.is_prefix_of(old(store).log()),
        wrote(new_calls(log0, old(store).log()), writes.take(n), Ok(())),
    ensures
        final(store).continues(old(store)),
        log0.is_prefix_of(final(store).log()),
        wrote(new_calls(log0, final(store).log()), writes.take(n + 1), told(r)),
        r is Err ==> wrote(new_calls(log0, final(store).log()), writes, told(r)),
{
    let ghost before = new_calls(log0, store.log());
    let r = store.write_bytes_atomic(path, bytes);
    proof {
        let after = new_calls(log0, store.log());
        let head = writes.take(n);
        assert forall|i: int| 0 <= i < after.len() implies #[trigger] writes_object(
            after[i],
            writes[i],
        ) by {
            if i < n {
                assert(writes_object(before[i], head[i]));
            }
        }
        assert forall|i: int| 0 <= i < n implies write_succeeded(#[trigger] after[i]) by {
            assert(write_succeeded(before[i]));
        }
    }
    r
}

/// Writes the manifest and the index of pointers of a transaction below `base`.
fn write_payloads<S: RemoteStore>(
    store: &mut RemoteSession<S>,
    base: &str,
    tx: &TransactionArtifacts,
    Ghost(log0): Ghost<Seq<RemoteCall>>,
    Ghost(writes): Ghost<Seq<ObjectWrite>>,
) -> (r: Result<(), Error>)
    requires
        old(store).log() == log0,
        writes.len() >= 2,
        writes.take(2) == artifacts_below(base@, tx@).take(2),
    ensures
        final(store).continues(old(store)),
        log0.is_prefix_of(final(store).log()),
        r is Ok ==> wrote(new_calls(log0, final(store).log()), writes.take(2), Ok(())),
        r is Err ==> wrote(new_calls(log0, final(store).log()), writes, told(r)),
{
    proof {
        assert(writes[0] == writes.take(2)[0] && writes[1] == writes.take(2)[1]);
    }
    let mut path = base.to_owned();
    path.append("manifests/");
    path.append(tx.git_sha.as_str());
    path.append(".json");
    let done = write_next(
        store,
        path.as_str(),
        tx.manifest_json.as_slice(),
        Ghost(log0),
        Ghost(writes),
        Ghost(0),
    );
    if let Err(e) = done {
        return Err(e);
    }
    let mut path = base.to_owned();
    path.append("pointers/");
    path.append(tx.git_sha.as_str());
    path.append(".json");
    write_next(
        store,
        path.as_str(),
        tx.pointer_json.as_slice(),
        Ghost(log0),
        Ghost(writes),
        Ghost(1),
    )
}

/// Writes the ref and the two HEADs of a transaction below `base`, as the next of several
/// objects, of which `n` were written.
fn write_refs<S: RemoteStore>(
    store: &mut RemoteSession<S>,
    base: &str,
    tx: &TransactionArtifacts,
    Ghost(log0): Ghost<Seq<RemoteCall>>,
    Ghost(writes): Ghost<Seq<ObjectWrite>>,
    Ghost(n): Ghost<int>,
) -> (r: Result<(), Error>)
    requires
        0 <= n <= writes.len() - 3,
        log0.is_prefix_of(old(store).log()),
        wrote(new_calls(log0, old(store).log()), writes.take(n), Ok(())),
        writes.subrange(n, n + 3) == artifacts_below(base@, tx@).skip(2),
    ensures
        final(store).continues(old(store)),
        log0.is_prefix_of(final(store).log()),
        r is Ok ==> wrote(new_calls(log0, final(store).log()), writes.take(n + 3), Ok(())),
        r is Err ==> wrote(new_calls(log0, final(store).log()), writes, told(r)),
{
    proof {
        let part = writes.subrange(n, n + 3);
        assert(writes[n] == part[0] && writes[n + 1] == part[1] && writes[n + 2] == part[2]);
    }
    let head = bytes_of(sha_line_of(tx.git_sha.as_str()).as_str());
    let mut path = base.to_owned();
    path.append("refs/");
    path.append(tx.refname.as_str());
    let done = write_next(
        store,
        path.as_str(),
        head.as_slice(),
        Ghost(log0),
        Ghost(writes),
        Ghost(n),
    );
    if let Err(e) = done {
        return Err(e);
    }
    let mut path = base.to_owned();
    path.append("manifests/HEAD");
    let done = write_next(
        store,
        path.as_str(),
        head.as_slice(),
        Ghost(log0),
        Ghost(writes),
        Ghost(n + 1),
    );
    if let Err(e) = done {
        return Err(e);
    }
    let mut path = base.to_owned();
    path.append("pointers/HEAD");
    write_next(store, path.as_str(), head.as_slice(), Ghost(log0), Ghost(writes), Ghost(n + 2))
}

/// Stages a transaction.
pub fn stage_transaction<S: RemoteStore>(
    store: &mut RemoteSession<S>,
    tx: &TransactionArtifacts,
) -> (r: Result<(), Error>)
    ensures
        final(store).continues(old(store)),
        old(store).log().is_prefix_of(final(store).log()),
        wrote(new_calls(old(store).log(), final(store).log()), staged_writes(tx@), told(r)),
{
    let ghost log0 = store.log();
    let ghost writes = staged_writes(tx@);
    let mut base = "tx/".to_owned();
    base.append(tx.txid.as_str());
    base.append("/");
    proof {
        assert(writes.take(2) =~= artifacts_below(base@, tx@).take(2));
        assert(writes.subrange(2, 5) =~= artifacts_below(base@, tx@).skip(2));
    }
    let done = write_payloads(store, base.as_str(), tx, Ghost(log0), Ghost(writes));
    if let Err(e) = done {
        return Err(e);
    }
    let done = write_refs(store, base.as_str(), tx, Ghost(log0), Ghost(writes), Ghost(2));
    if let Err(e) = done {
        return Err(e);
    }
    let marker = staged_path(tx.txid.as_str());
    let note = bytes_of("staged\n");
    proof {
        assert(writes.take(6) =~= writes);
    }
    write_next(
        store,
        marker.as_str(),
        note.as_slice(),
        Ghost(log0),
        Ghost(writes),
        Ghost(5),
    )
}

/// What is said where a ref is not advanced, because what it would lead to is not there.
pub open spec fn no_payload_text(path: Seq<char>) -> Seq<char> {
    "refusing to update live refs: "@ + path + " is not there"@
}

/// The calls make sure that an object is there.
pub open spec fn made_sure(
    call: RemoteCall,
    path: Seq<char>,
) -> Option<Result<(), Seq<char>>> {
    match exists_of(call, path) {
        None => None,
        Some(Err(e)) => Some(Err(e)),
        Some(Ok(there)) => if there {
            Some(Ok(()))
        } else {
            Some(Err(no_payload_text(path)))
        },
    }
}

/// The calls publish a transaction. First its manifest and its index of pointers are
/// written, then it is made sure that both are there, and only then the refs are advanced
/// and the transaction is marked.
pub open spec fn finalized(
    calls: Seq<RemoteCall>,
    tx: TxView,
    outcome: Result<(), Seq<char>>,
) -> bool {
    let writes = final_writes(tx);
    ||| outcome is Err && wrote(calls, writes.take(2), outcome)
    ||| {
        &&& calls.len() >= 3
        &&& wrote(calls.take(2), writes.take(2), Ok(()))
        &&& made_sure(calls[2], writes[0].path) matches Some(first)
        &&& match first {
            Err(e) => calls.len() == 3 && outcome == Err::<(), Seq<char>>(e),
            Ok(_) => {
                &&& calls.len() >= 4
                &&& made_sure(calls[3], writes[1].path) matches Some(second)
                &&& match second {
                    Err(e) => calls.len() == 4 && outcome == Err::<(), Seq<char>>(e),
                    Ok(_) => wrote(calls.skip(4), writes.skip(2), outcome),
                }
            },
        }
    }
}

/// Makes sure that an object is there.
fn make_sure<S: RemoteStore>(store: &mut RemoteSession<S>, path: &str) -> (r: Result<(), Error>)
    ensures
        final(store).continues(old(store)),
        final(store).log() == old(store).log().push(final(store).log().last()),
        made_sure(final(store).log().last(), path@) == Some(told(r)),
{
    match store.has_object(path) {
        Err(e) => Err(e),
        Ok(true) => Ok(()),
        Ok(false) => {
            let mut m = "refusing to update live refs: ".to_owned();
            m.append(path);
            m.append(" is not there");
            Err(Error::new(m))
        },
    }
}

/// Publishes a transaction.
pub fn finalize_transaction<S: RemoteStore>(
    store: &mut RemoteSession<S>,
    tx: &TransactionArtifacts,
) -> (r: Result<(), Error>)
    ensures
        final(store).continues(old(store)),
        old(store).log().is_prefix_of(final(store).log()),
        finalized(new_calls(old(store).log(), final(store).log()), tx@, told(r)),
{
    let ghost log0 = store.log();
    let ghost writes = final_writes(tx@);
    proof {
        reveal_strlit("");
        assert(writes.take(2).take(2) =~= artifacts_below(""@, tx@).take(2));
        assert(writes.take(2).take(2) =~= writes.take(2));
    }
    let done = write_payloads(store, "", tx, Ghost(log0), Ghost(writes.take(2)));
    if let Err(e) = done {
        return Err(e);
    }
    let ghost log1 = store.log();
    let mut path = "manifests/".to_owned();
    path.append(tx.git_sha.as_str());
    path.append(".json");
    proof {
        assert(path@ =~= writes[0].path);
    }
    let sure = make_sure(store, path.as_str());
    let ghost log2 = store.log();
    proof {
        assert(new_calls(log0, log2) =~= new_calls(log0, log1).push(log2.last()));
        assert(new_calls(log0, log2).take(2) =~= new_calls(log0, log1));
    }
    if let Err(e) = sure {
        return Err(e);
    }
    let mut path = "pointers/".to_owned();
    path.append(tx.git_sha.as_str());
    path.append(".json");
    proof {
        assert(path@ =~= writes[1].path);
    }
    let sure = make_sure(store, path.as_str());
    let ghost log3 = store.log();
    proof {
        assert(new_calls(log0, log3) =~= new_calls(log0, log2).push(log3.last()));
        assert(new_calls(log0, log3).take(2) =~= new_calls(log0, log1));
    }
    if let Err(e) = sure {
        return Err(e);
    }
    let ghost live = writes.skip(2);
    proof {
        assert(live.subrange(0, 3) =~= artifacts_below(""@, tx@).skip(2));
        assert(live.take(4) =~= live);
        assert(wrote(new_calls(log3, log3), live.take(0), Ok(())));
    }
    let mut done = write_refs(store, "", tx, Ghost(log3), Ghost(live), Ghost(0));
    if done.is_ok() {
        let marker = published_path(tx.txid.as_str());
        let note = bytes_of("published\n");
        done = write_next(
            store,
            marker.as_str(),
            note.as_slice(),
            Ghost(log3),
            Ghost(live),
            Ghost(3),
        );
    }
    proof {
        let log4 = store.log();
        lemma_log_grows(log0, log3, log4);
        let calls = new_calls(log0, log4);
        assert(calls.take(2) =~= new_calls(log0, log1));
        assert(calls.skip(4) =~= new_calls(log3, log4));
        assert(calls[2] == log2.last() && calls[3] == log3.last());
    }
    done
}

/// Staging touches nothing but what is kept for transactions: no ref, no HEAD and no
/// manifest changes that anyone reads.
pub proof fn lemma_staging_is_invisible(
    calls: Seq<RemoteCall>,
    tx: TxView,
    outcome: Result<(), Seq<char>>,
)
    requires
        wrote(calls, staged_writes(tx), outcome),
    ensures
        forall|i: int|
            0 <= i < calls.len() ==> (#[trigger] calls[i] matches RemoteCall::Write { path, .. }
                && "tx/"@.is_prefix_of(path)),
{
    reveal_strlit("tx/");
    reveal_strlit("tx/STAGED/");
    assert forall|i: int| 0 <= i < calls.len() implies (#[trigger] calls[i] matches RemoteCall::Write {
        path,
        ..
    } && "tx/"@.is_prefix_of(path)) by {
        let w = staged_writes(tx)[i];
        assert(writes_object(calls[i], w));
    }
}

/// The marker of a staged transaction says the truth: it is written last, and only once
/// everything that the transaction stages was.
pub proof fn lemma_staged_marker_is_last(
    calls: Seq<RemoteCall>,
    tx: TxView,
    outcome: Result<(), Seq<char>>,
)
    requires
        wrote(calls, staged_writes(tx), outcome),
        calls.len() == 6,
    ensures
        calls[5] matches RemoteCall::Write { path, .. } && path == staged_marker(tx.txid),
        forall|j: int| 0 <= j < 5 ==> write_succeeded(#[trigger] calls[j]),
{
    assert(writes_object(calls[5], staged_writes(tx)[5]));
}

/// A ref or a HEAD becomes live only once the manifest and the index of pointers that it
/// leads to were written and then found to be there, and the transaction is marked as
/// published only once all of it is.
pub proof fn lemma_payload_before_refs(
    calls: Seq<RemoteCall>,
    tx: TxView,
    outcome: Result<(), Seq<char>>,
    i: int,
)
    requires
        finalized(calls, tx, outcome),
        2 <= i < calls.len(),
        calls[i] is Write,
    ensures
        i >= 4,
        forall|j: int|
            0 <= j < 2 ==> writes_object(#[trigger] calls[j], final_writes(tx)[j])
                && write_succeeded(calls[j]),
        exists_of(calls[2], final_writes(tx)[0].path) == Some(Ok::<bool, Seq<char>>(true)),
        exists_of(calls[3], final_writes(tx)[1].path) == Some(Ok::<bool, Seq<char>>(true)),
        writes_object(calls[i], final_writes(tx)[i - 2]),
        i == 7 ==> forall|j: int| 4 <= j < 7 ==> write_succeeded(#[trigger] calls[j]),
{
    let writes = final_writes(tx);
    assert(!(outcome is Err && wrote(calls, writes.take(2), outcome)));
    assert forall|j: int| 0 <= j < 2 implies writes_object(#[trigger] calls[j], writes[j])
        && write_succeeded(calls[j]) by {
        assert(writes_object(calls.take(2)[j], writes.take(2)[j]));
        assert(write_succeeded(calls.take(2)[j]));
    }
    assert(writes_object(calls.skip(4)[i - 4], writes.skip(2)[i - 4]));
    if i == 7 {
        assert forall|j: int| 4 <= j < 7 implies write_succeeded(#[trigger] calls[j]) by {
            assert(write_succeeded(calls.skip(4)[j - 4]));
        }
    }
}

/// No two live objects of a transaction have the same path.
proof fn lemma_writes_apart(tx: TxView)
    ensures
        forall|i: int, j: int|
            0 <= i < 6 && 0 <= j < 6 && i != j ==> (#[trigger] final_writes(tx)[i]).path != (
            #[trigger] final_writes(tx)[j]).path,
{
    reveal_strlit("");
    reveal_strlit("manifests/");
    reveal_strlit("pointers/");
    reveal_strlit("refs/");
    reveal_strlit("manifests/HEAD");
    reveal_strlit("pointers/HEAD");
    reveal_strlit("tx/PUBLISHED/");
    reveal_strlit(".json");
    let w = final_writes(tx);
    assert(w[0].path[0] == 'm' && w[1].path[0] == 'p' && w[2].path[0] == 'r');
    assert(w[3].path[0] == 'm' && w[4].path[0] == 'p' && w[5].path[0] == 't');
}

/// An object that was written is there.
pub proof fn lemma_written_is_kept(
    w: Files,
    r: Objects,
    calls: Seq<RemoteCall>,
    writes: Seq<ObjectWrite>,
    i: int,
)
    requires
        calls.len() == writes.len(),
        forall|k: int| 0 <= k < calls.len() ==> #[trigger] writes_object(calls[k], writes[k]),
        forall|a: int, b: int|
            0 <= a < writes.len() && 0 <= b < writes.len() && a != b ==> (
            #[trigger] writes[a]).path != (#[trigger] writes[b]).path,
        0 <= i < writes.len(),
    ensures
        kept_after(w, r, calls).contains_key(writes[i].path),
        kept_after(w, r, calls)[writes[i].path] == writes[i].bytes,
    decreases calls.len(),
{
    let first = writes[0];
    assert(writes_object(calls[0], first));
    let r1 = kept(w, r, calls[0]);
    let rest = calls.drop_first();
    let later = writes.drop_first();
    if i > 0 {
        lemma_written_is_kept(w, r1, rest, later, i - 1);
    } else {
        lemma_untouched(w, r1, rest, later, first.path);
    }
}

/// Objects that are not written stay as they are.
pub proof fn lemma_untouched(
    w: Files,
    r: Objects,
    calls: Seq<RemoteCall>,
    writes: Seq<ObjectWrite>,
    path: Seq<char>,
)
    requires
        calls.len() <= writes.len(),
        forall|k: int| 0 <= k < calls.len() ==> #[trigger] writes_object(calls[k], writes[k]),
        forall|k: int| 0 <= k < writes.len() ==> (#[trigger] writes[k]).path != path,
    ensures
        kept_after(w, r, calls).contains_key(path) == r.contains_key(path),
        r.contains_key(path) ==> kept_after(w, r, calls)[path] == r[path],
    decreases calls.len(),
{
    if calls.len() > 0 {
        assert(writes_object(calls[0], writes[0]));
        let rest = calls.drop_first();
        let later = writes.drop_first();
        lemma_untouched(w, kept(w, r, calls[0]), rest, later, path);
    }
}

/// The remote has what a transaction publishes, where it is live.
pub open spec fn publishes(r: Objects, tx: TxView) -> bool {
    forall|i: int|
        0 <= i < 6 ==> r.contains_key((#[trigger] final_writes(tx)[i]).path) && r[final_writes(
            tx,
        )[i].path] == final_writes(tx)[i].bytes
}

/// The ref and the HEAD are read as the commit of the transaction, and its manifest and
/// its index of pointers are those of the transaction.
pub open spec fn reads_back(r: Objects, tx: TxView) -> bool {
    &&& r.contains_key("refs/"@ + tx.refname)
    &&& trim_text(lossy_text(r["refs/"@ + tx.refname])) == tx.git_sha
    &&& r.contains_key("manifests/HEAD"@)
    &&& trim_text(lossy_text(r["manifests/HEAD"@])) == tx.git_sha
    &&& r.contains_key("manifests/"@ + tx.git_sha + ".json"@)
    &&& r["manifests/"@ + tx.git_sha + ".json"@] == tx.manifest_json
    &&& r.contains_key("pointers/"@ + tx.git_sha + ".json"@)
    &&& r["pointers/"@ + tx.git_sha + ".json"@] == tx.pointer_json
}

/// After publishing, a remote that works has all of it.
pub proof fn lemma_published_is_kept(w: Files, r: Objects, calls: Seq<RemoteCall>, tx: TxView)
    requires
        finalized(calls, tx, Ok(())),
    ensures
        publishes(kept_after(w, r, calls), tx),
{
    let writes = final_writes(tx);
    let r1 = kept_after(w, r, calls.take(2));
    let r2 = kept_after(w, r, calls);
    lemma_writes_apart(tx);
    lemma_kept_split(w, r, calls, 2);
    let later = calls.skip(2);
    lemma_kept_split(w, r1, later, 2);
    assert(later.skip(2) =~= calls.skip(4));
    assert(kept_after(w, r1, later.take(2)) == r1) by {
        reveal_with_fuel(kept_after, 3);
        assert(later.take(2)[0] == calls[2] && later.take(2)[1] == calls[3]);
    }
    assert forall|i: int| 0 <= i < 6 implies r2.contains_key((#[trigger] writes[i]).path)
        && r2[writes[i].path] == writes[i].bytes by {
        if i < 2 {
            lemma_written_is_kept(w, r, calls.take(2), writes.take(2), i);
            lemma_untouched(w, r1, calls.skip(4), writes.skip(2), writes[i].path);
        } else {
            lemma_written_is_kept(w, r1, calls.skip(4), writes.skip(2), i - 2);
        }
    }
}

/// After publishing, a remote that works has all of it, and its ref and its HEAD are read
/// as the commit that was published.
pub proof fn lemma_published_is_read_back(
    w: Files,
    r: Objects,
    calls: Seq<RemoteCall>,
    tx: TxView,
)
    requires
        finalized(calls, tx, Ok(())),
        is_sha1(tx.git_sha),
    ensures
        publishes(kept_after(w, r, calls), tx),
        reads_back(kept_after(w, r, calls), tx),
{
    let writes = final_writes(tx);
    lemma_sha_line_reads_back(tx.git_sha);
    lemma_published_is_kept(w, r, calls, tx);
    reveal_strlit("");
    assert(writes[0].path =~= "manifests/"@ + tx.git_sha + ".json"@);
    assert(writes[1].path =~= "pointers/"@ + tx.git_sha + ".json"@);
    assert(writes[2].path =~= "refs/"@ + tx.refname);
    assert(writes[3].path =~= "manifests/HEAD"@);
}

/// Staging, whether or not it succeeds, leaves every object as it is that is not kept for
/// transactions.
pub proof fn lemma_staging_changes_nothing_live(
    w: Files,
    r: Objects,
    calls: Seq<RemoteCall>,
    tx: TxView,
    outcome: Result<(), Seq<char>>,
    path: Seq<char>,
)
    requires
        wrote(calls, staged_writes(tx), outcome),
        !"tx/"@.is_prefix_of(path),
    ensures
        kept_after(w, r, calls).contains_key(path) == r.contains_key(path),
        r.contains_key(path) ==> kept_after(w, r, calls)[path] == r[path],
{
    let writes = staged_writes(tx);
    reveal_strlit("tx/");
    reveal_strlit("tx/STAGED/");
    lemma_untouched(w, r, calls, writes, path);
}

/// What is staged of a transaction and a marker of it have different paths.
proof fn lemma_marker_apart(mark: Seq<char>, txid: Seq<char>, rest: Seq<char>)
    requires
        !txid.contains('/'),
        !mark.contains('/'),
        mark.len() > 0,
        rest.len() > 0,
        rest[0] != mark[0],
    ensures
        tx_base(txid) + rest != "tx/"@ + mark + "/"@ + txid,
{
    reveal_strlit("tx/");
    reveal_strlit("/");
    let a = tx_base(txid) + rest;
    let b = "tx/"@ + mark + "/"@ + txid;
    let n = txid.len() as int;
    let k = mark.len() as int;
    if a == b {
        if n < k {
            assert(b[3 + n] == mark[n]);
        } else if n > k {
            assert(a[3 + k] == txid[k]);
        } else {
            assert(a[3] == txid[0] && b[3] == mark[0]);
            assert(a[4 + n] == rest[0] && b[4 + n] == txid[0]);
        }
    }
}

/// After staging, a remote that works has the marker of a staged transaction, and whether
/// it has that of a published one is as it was: staging marks nothing as published.
pub proof fn lemma_staged_is_marked(w: Files, r: Objects, calls: Seq<RemoteCall>, tx: TxView)
    requires
        wrote(calls, staged_writes(tx), Ok(())),
        !tx.txid.contains('/'),
    ensures
        kept_after(w, r, calls).contains_key(staged_marker(tx.txid)),
        kept_after(w, r, calls).contains_key(published_marker(tx.txid)) == r.contains_key(
            published_marker(tx.txid),
        ),
{
    reveal_strlit("manifests/");
    reveal_strlit("pointers/");
    reveal_strlit("refs/");
    reveal_strlit("manifests/HEAD");
    reveal_strlit("pointers/HEAD");
    reveal_strlit("tx/");
    reveal_strlit("/");
    reveal_strlit("STAGED");
    reveal_strlit("PUBLISHED");
    reveal_strlit("tx/STAGED/");
    reveal_strlit("tx/PUBLISHED/");
    let writes = staged_writes(tx);
    let base = tx_base(tx.txid);
    let names = seq![
        "manifests/"@ + tx.git_sha + ".json"@,
        "pointers/"@ + tx.git_sha + ".json"@,
        "refs/"@ + tx.refname,
        "manifests/HEAD"@,
        "pointers/HEAD"@,
    ];
    assert(staged_marker(tx.txid) =~= "tx/"@ + "STAGED"@ + "/"@ + tx.txid);
    assert(published_marker(tx.txid) =~= "tx/"@ + "PUBLISHED"@ + "/"@ + tx.txid);
    assert forall|i: int| 0 <= i < 5 implies (#[trigger] writes[i]).path == base + names[i]
        && writes[i].path != staged_marker(tx.txid) && writes[i].path != published_marker(
        tx.txid,
    ) by {
        lemma_marker_apart("STAGED"@, tx.txid, names[i]);
        lemma_marker_apart("PUBLISHED"@, tx.txid, names[i]);
    }
    lemma_untouched(w, r, calls, writes, published_marker(tx.txid));
    lemma_last_is_kept(w, r, calls, writes);
}

proof fn lemma_last_is_kept(
    w: Files,
    r: Objects,
    calls: Seq<RemoteCall>,
    writes: Seq<ObjectWrite>,
)
    requires
        calls.len() == writes.len(),
        calls.len() > 0,
        forall|k: int| 0 <= k < calls.len() ==> #[trigger] writes_object(calls[k], writes[k]),
    ensures
        kept_after(w, r, calls).contains_key(writes.last().path),
    decreases calls.len(),
{
    assert(writes_object(calls[0], writes[0]));
    let rest = calls.drop_first();
    let later = writes.drop_first();
    let r1 = kept(w, r, calls[0]);
    if rest.len() > 0 {
        lemma_last_is_kept(w, r1, rest, later);
    } else {
        assert(kept_after(w, r1, rest) == r1);
    }
}

/// The calls stage a transaction and then, if that succeeded, publish it.
pub open spec fn published_by(
    calls: Seq<RemoteCall>,
    tx: TxView,
    outcome: Result<(), Seq<char>>,
) -> bool {
    ||| outcome is Err && wrote(calls, staged_writes(tx), outcome)
    ||| {
        &&& calls.len() >= 6
        &&& wrote(calls.take(6), staged_writes(tx), Ok(()))
        &&& finalized(calls.skip(6), tx, outcome)
    }
}

/// Stages a transaction and publishes it.
pub fn publish<S: RemoteStore>(store: &mut RemoteSession<S>, tx: &TransactionArtifacts) -> (r:
    Result<(), Error>)
    ensures
        final(store).continues(old(store)),
        old(store).log().is_prefix_of(final(store).log()),
        published_by(new_calls(old(store).log(), final(store).log()), tx@, told(r)),
{
    let ghost log0 = store.log();
    let staged = stage_transaction(store, tx);
    let ghost log1 = store.log();
    if let Err(e) = staged {
        return Err(e);
    }
    let r = finalize_transaction(store, tx);
    proof {
        lemma_log_grows(log0, log1, store.log());
        let calls = new_calls(log0, store.log());
        assert(calls.take(6) =~= new_calls(log0, log1));
        assert(calls.skip(6) =~= new_calls(log1, store.log()));
    }
    r
}

/// Before everything was staged, nothing is live: a call that writes outside of what is
/// kept for transactions comes after the staging succeeded as a whole.
pub proof fn lemma_live_after_staging(
    calls: Seq<RemoteCall>,
    tx: TxView,
    outcome: Result<(), Seq<char>>,
    i: int,
)
    requires
        published_by(calls, tx, outcome),
        0 <= i < calls.len(),
        calls[i] matches RemoteCall::Write { path, .. } && !"tx/"@.is_prefix_of(path),
    ensures
        i >= 6,
        wrote(calls.take(6), staged_writes(tx), Ok(())),
{
    if outcome is Err && wrote(calls, staged_writes(tx), outcome) {
        lemma_staging_is_invisible(calls, tx, outcome);
    } else {
        lemma_staging_is_invisible(calls.take(6), tx, Ok(()));
        if i < 6 {
            assert(calls.take(6)[i] == calls[i]);
        }
    }
}

/// After a transaction was published, a remote that works has all of it, and its ref and
/// its HEAD are read as the commit that was published.
pub proof fn lemma_publish_is_read_back(w: Files, r: Objects, calls: Seq<RemoteCall>, tx: TxView)
    requires
        published_by(calls, tx, Ok(())),
        truthful(w, r, calls),
        is_sha1(tx.git_sha),
    ensures
        publishes(kept_after(w, r, calls), tx),
        reads_back(kept_after(w, r, calls), tx),
{
    lemma_truthful_split(w, r, calls, 6);
    lemma_published_is_read_back(w, kept_after(w, r, calls.take(6)), calls.skip(6), tx);
}

} // verus!
