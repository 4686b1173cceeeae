//! Verified transfer to a remote: an object that is already there is held to the size
//! and the hash that the manifest gives, and so is one that was just copied.

use vstd::prelude::*;

use crate::error::{told, Error};
use crate::hash::{sha256_file, sha256_text};
use crate::paths::{join, join_path};
use crate::remote::{
    lemma_log_grows, new_calls, read_reply, ReadReply, RemoteCall, RemoteSession, RemoteStore,
};
use crate::sync::manifest::{entry_views, total_size, EntryView, Manifest};
use crate::text::{decimal, decimal_text, same_text};

verus! {

/// Files up to this size are held to their hash, not only to their size.
pub const HASH_VERIFY_LIMIT: u64 = 8 * 1024 * 1024;

/// How far verification goes.
#[derive(Clone, Copy)]
pub struct VerifyPolicy {
    /// Files up to this size are held to their hash.
    pub hash_verify_limit: u64,
}

impl Default for VerifyPolicy {
    fn default() -> (r: Self)
        ensures
            r.hash_verify_limit == HASH_VERIFY_LIMIT,
    {
        VerifyPolicy { hash_verify_limit: HASH_VERIFY_LIMIT }
    }
}

/// What a transfer did.
#[derive(Clone, Copy)]
pub struct SyncSummary {
    pub files_copied: u64,
    pub bytes_copied: u64,
    pub files_verified: u64,
}

impl Default for SyncSummary {
    fn default() -> (r: Self)
        ensures
            r == no_transfer(),
    {
        SyncSummary { files_copied: 0, bytes_copied: 0, files_verified: 0 }
    }
}

/// The summary of a transfer that has not begun.
pub open spec fn no_transfer() -> SyncSummary {
    SyncSummary { files_copied: 0, bytes_copied: 0, files_verified: 0 }
}

/// The summary after one more file, of which `copied` bytes were copied.
pub open spec fn tally(s: SyncSummary, copied: u64) -> SyncSummary {
    SyncSummary {
        files_copied: if copied > 0 {
            (s.files_copied + 1) as u64
        } else {
            s.files_copied
        },
        bytes_copied: (s.bytes_copied + copied) as u64,
        files_verified: (s.files_verified + 1) as u64,
    }
}

/// Adds one more file to the summary.
pub fn add_file(s: SyncSummary, copied: u64) -> (r: SyncSummary)
    requires
        s.files_copied < u64::MAX,
        s.files_verified < u64::MAX,
        s.bytes_copied + copied <= u64::MAX,
    ensures
        r == tally(s, copied),
{
    let mut s = s;
    if copied > 0 {
        s.files_copied += 1;
        s.bytes_copied += copied;
    }
    s.files_verified += 1;
    s
}

/// The sizes in the manifest can be added up.
pub open spec fn fits(entries: Seq<EntryView>) -> bool {
    total_size(entries) <= u64::MAX
}

/// The first entries have no more bytes than all of them.
pub proof fn lemma_total_of_part(s: Seq<EntryView>, k: int)
    requires
        0 <= k <= s.len(),
    ensures
        total_size(s.take(k)) <= total_size(s),
        k < s.len() ==> total_size(s.take(k + 1)) == total_size(s.take(k)) + s[k].size,
        k < s.len() ==> total_size(s.take(k)) + s[k].size <= total_size(s),
    decreases s.len() - k,
{
    if k < s.len() {
        assert(s.take(k + 1).drop_last() =~= s.take(k));
        lemma_total_of_part(s, k + 1);
    } else {
        assert(s.take(k) =~= s);
    }
}

/// Whether the sizes in the manifest can be added up.
pub fn sizes_fit(manifest: &Manifest) -> (r: bool)
    ensures
        r == fits(entry_views(manifest.entries@)),
{
    let mut sum: u64 = 0;
    let mut i: usize = 0;
    let ghost views = entry_views(manifest.entries@);
    while i < manifest.entries.len()
        invariant
            i <= manifest.entries@.len(),
            views == entry_views(manifest.entries@),
            sum == total_size(views.take(i as int)),
        decreases manifest.entries@.len() - i,
    {
        proof {
            lemma_total_of_part(views, i as int);
        }
        match sum.checked_add(manifest.entries[i].size) {
            None => return false,
            Some(n) => sum = n,
        }
        i += 1;
    }
    proof {
        assert(views.take(views.len() as int) =~= views);
    }
    true
}

/// What is said of a file that should not have the size that it has.
pub open spec fn size_mismatch_text(path: Seq<char>, got: nat, want: u64) -> Seq<char> {
    "destination corruption detected: "@ + path + " has size "@ + decimal(got) + ", expected "@
        + decimal(want as nat)
}

/// The error for a file that should not have the size that it has.
pub fn size_mismatch(path: &str, got: u64, want: u64) -> (r: Error)
    ensures
        r@ == size_mismatch_text(path@, got as nat, want),
{
    let mut m = "destination corruption detected: ".to_owned();
    m.append(path);
    m.append(" has size ");
    m.append(decimal_text(got).as_str());
    m.append(", expected ");
    m.append(decimal_text(want).as_str());
    Error::new(m)
}

/// What is said of a file that should not have the hash that it has.
pub open spec fn hash_mismatch_text(path: Seq<char>, want: Seq<char>, got: Seq<char>) -> Seq<char> {
    "destination hash mismatch: "@ + path + " expected "@ + want + " got "@ + got
}

/// The error for a file that should not have the hash that it has.
pub fn hash_mismatch(path: &str, want: &str, got: &str) -> (r: Error)
    ensures
        r@ == hash_mismatch_text(path@, want@, got@),
{
    let mut m = "destination hash mismatch: ".to_owned();
    m.append(path);
    m.append(" expected ");
    m.append(want);
    m.append(" got ");
    m.append(got);
    Error::new(m)
}

/// The bytes are those of a file with this size and, up to the limit, this hash.
pub open spec fn is_content(bytes: Seq<u8>, size: u64, sha256: Seq<char>, limit: u64) -> bool {
    bytes.len() == size && (size <= limit ==> sha256_text(bytes) == sha256)
}

/// The reply, if the call asks for the size of `path`.
pub open spec fn stat_of(call: RemoteCall, path: Seq<char>) -> Option<
    Result<Option<u64>, Seq<char>>,
> {
    match call {
        RemoteCall::Stat { path: p, reply } => if p == path {
            Some(reply)
        } else {
            None
        },
        _ => None,
    }
}

/// What is said of an object that is gone when it is to be read.
pub open spec fn gone_text(path: Seq<char>) -> Seq<char> {
    "remote path missing: "@ + path
}

/// What the reply to reading an object says that should have the given hash.
pub open spec fn hash_verdict(path: Seq<char>, reply: ReadReply, sha256: Seq<char>) -> Result<
    bool,
    Seq<char>,
> {
    match reply {
        Err(e) => Err(e),
        Ok(None) => Err(gone_text(path)),
        Ok(Some(bytes)) => if sha256_text(bytes) != sha256 {
            Err(hash_mismatch_text(path, sha256, sha256_text(bytes)))
        } else {
            Ok(true)
        },
    }
}

/// Judges the reply to reading an object that should have the given hash.
pub fn judge_hash(
    remote_relpath: &str,
    reply: Result<Option<Vec<u8>>, Error>,
    expected_sha256: &str,
) -> (r: Result<bool, Error>)
    ensures
        told(r) == hash_verdict(remote_relpath@, read_reply(reply), expected_sha256@),
{
    match reply {
        Err(e) => Err(e),
        Ok(None) => {
            let mut m = "remote path missing: ".to_owned();
            m.append(remote_relpath);
            Err(Error::new(m))
        },
        Ok(Some(bytes)) => {
            let got = sha256_file(bytes.as_slice());
            if !same_text(got.as_str(), expected_sha256) {
                return Err(hash_mismatch(remote_relpath, expected_sha256, got.as_str()));
            }
            Ok(true)
        },
    }
}

/// How many calls a look at an object takes that begins with `first`: the object is read
/// only if it has the right size and is small enough to be hashed.
pub open spec fn look_calls(first: RemoteCall, path: Seq<char>, size: u64, limit: u64) -> int {
    if stat_of(first, path) == Some(Ok::<Option<u64>, Seq<char>>(Some(size))) && size <= limit {
        2
    } else {
        1
    }
}

/// What a look at an object finds, if that is what the calls are: `Ok(true)` if the object
/// is there and is what it should be, `Ok(false)` if there is none.
pub open spec fn looked(
    calls: Seq<RemoteCall>,
    path: Seq<char>,
    size: u64,
    sha256: Seq<char>,
    limit: u64,
) -> Option<Result<bool, Seq<char>>> {
    if calls.len() == 0 || calls.len() != look_calls(calls[0], path, size, limit) {
        None
    } else {
        match stat_of(calls[0], path) {
            None => None,
            Some(Err(e)) => Some(Err(e)),
            Some(Ok(None)) => Some(Ok(false)),
            Some(Ok(Some(n))) => if n != size {
                Some(Err(size_mismatch_text(path, n as nat, size)))
            } else if size > limit {
                Some(Ok(true))
            } else {
                match read_of(calls[1], path) {
                    None => None,
                    Some(reply) => Some(hash_verdict(path, reply, sha256)),
                }
            },
        }
    }
}

/// Looks at a remote object and judges it: always by its size, and by its hash only up to
/// the limit.
pub fn verify_existing_remote<S: RemoteStore>(
    remote_store: &mut RemoteSession<S>,
    remote_relpath: &str,
    expected_size: u64,
    expected_sha256: &str,
    policy: VerifyPolicy,
) -> (r: Result<bool, Error>)
    ensures
        final(remote_store).continues(old(remote_store)),
        old(remote_store).log().is_prefix_of(final(remote_store).log()),
        looked(
            new_calls(old(remote_store).log(), final(remote_store).log()),
            remote_relpath@,
            expected_size,
            expected_sha256@,
            policy.hash_verify_limit,
        ) == Some(told(r)),
{
    let ghost log0 = remote_store.log();
    let found = remote_store.stat(remote_relpath);
    let ghost first = remote_store.log().last();
    proof {
        assert(new_calls(log0, remote_store.log()) =~= seq![first]);
    }
    match found {
        Err(e) => Err(e),
        Ok(None) => Ok(false),
        Ok(Some(stat)) => {
            if stat.size != expected_size {
                return Err(size_mismatch(remote_relpath, stat.size, expected_size));
            }
            if expected_size > policy.hash_verify_limit {
                return Ok(true);
            }
            let reply = remote_store.read_bytes(remote_relpath);
            proof {
                assert(new_calls(log0, remote_store.log()) =~= seq![
                    first,
                    remote_store.log().last(),
                ]);
            }
            judge_hash(remote_relpath, reply, expected_sha256)
        },
    }
}

/// The reply, if the call is a read of `path`.
pub open spec fn read_of(call: RemoteCall, path: Seq<char>) -> Option<ReadReply> {
    match call {
        RemoteCall::Read { path: p, reply } => if p == path {
            Some(reply)
        } else {
            None
        },
        _ => None,
    }
}

/// The reply, if the call copies the local file to `path`.
pub open spec fn copy_in_of(call: RemoteCall, local: Seq<char>, path: Seq<char>) -> Option<
    Result<(), Seq<char>>,
> {
    match call {
        RemoteCall::CopyIn { local: l, path: p, reply } => if l == local && p == path {
            Some(reply)
        } else {
            None
        },
        _ => None,
    }
}

/// What is said of a copy that left nothing behind.
pub open spec fn not_materialized_text(path: Seq<char>) -> Seq<char> {
    "remote copy failed to materialize "@ + path
}

/// The error for a copy that left nothing behind.
pub fn not_materialized(path: &str) -> (r: Error)
    ensures
        r@ == not_materialized_text(path@),
{
    let mut m = "remote copy failed to materialize ".to_owned();
    m.append(path);
    Error::new(m)
}

/// The calls bring one local file to the remote, verified, and `outcome` is how many
/// bytes were copied: the object is looked at; if there is none the file is copied and the
/// object looked at again.
pub open spec fn uploaded(
    calls: Seq<RemoteCall>,
    local: Seq<char>,
    path: Seq<char>,
    size: u64,
    sha256: Seq<char>,
    limit: u64,
    outcome: Result<u64, Seq<char>>,
) -> bool {
    let k = look_calls(calls[0], path, size, limit);
    &&& calls.len() >= k
    &&& looked(calls.take(k), path, size, sha256, limit) matches Some(first)
    &&& match first {
        Err(e) => calls.len() == k && outcome == Err::<u64, Seq<char>>(e),
        Ok(true) => calls.len() == k && outcome == Ok::<u64, Seq<char>>(0),
        Ok(false) => {
            &&& calls.len() >= 2
            &&& copy_in_of(calls[1], local, path) matches Some(copied)
            &&& match copied {
                Err(e) => calls.len() == 2 && outcome == Err::<u64, Seq<char>>(e),
                Ok(_) => {
                    &&& looked(calls.skip(2), path, size, sha256, limit) matches Some(second)
                    &&& outcome == match second {
                        Err(e) => Err::<u64, Seq<char>>(e),
                        Ok(false) => Err(not_materialized_text(path)),
                        Ok(true) => Ok(size),
                    }
                },
            }
        },
    }
}

/// Brings a local file to the remote, unless it is there already, and verifies what is
/// then there. Says how many bytes were copied.
pub fn copy_local_to_remote_atomic_verified<S: RemoteStore>(
    local_path: &str,
    remote_store: &mut RemoteSession<S>,
    remote_relpath: &str,
    expected_size: u64,
    expected_sha256: &str,
    policy: VerifyPolicy,
) -> (r: Result<u64, Error>)
    ensures
        final(remote_store).continues(old(remote_store)),
        old(remote_store).log().is_prefix_of(final(remote_store).log()),
        uploaded(
            new_calls(old(remote_store).log(), final(remote_store).log()),
            local_path@,
            remote_relpath@,
            expected_size,
            expected_sha256@,
            policy.hash_verify_limit,
            told(r),
        ),
{
    let ghost log0 = remote_store.log();
    let there = verify_existing_remote(
        remote_store,
        remote_relpath,
        expected_size,
        expected_sha256,
        policy,
    );
    let ghost log1 = remote_store.log();
    proof {
        let calls = new_calls(log0, log1);
        assert(calls.take(calls.len() as int) =~= calls);
    }
    match there {
        Err(e) => return Err(e),
        Ok(true) => return Ok(0),
        Ok(false) => {},
    }
    let copied = remote_store.copy_from_local_atomic(local_path, remote_relpath);
    let ghost log2 = remote_store.log();
    proof {
        assert(new_calls(log0, log2) =~= new_calls(log0, log1).push(log2.last()));
        assert(new_calls(log0, log2).take(1) =~= new_calls(log0, log1));
    }
    if let Err(e) = copied {
        return Err(e);
    }
    let there = verify_existing_remote(
        remote_store,
        remote_relpath,
        expected_size,
        expected_sha256,
        policy,
    );
    proof {
        let log3 = remote_store.log();
        lemma_log_grows(log0, log2, log3);
        assert(new_calls(log0, log3).skip(2) =~= new_calls(log2, log3));
        assert(new_calls(log0, log3).take(1) =~= new_calls(log0, log1));
    }
    match there {
        Err(e) => Err(e),
        Ok(false) => Err(not_materialized(remote_relpath)),
        Ok(true) => Ok(expected_size),
    }
}

/// The remote object for a file of the content store.
pub open spec fn object_path(relpath: Seq<char>) -> Seq<char> {
    "xet/"@ + relpath
}

/// The remote object for a file of the content store.
pub fn object_path_of(relpath: &str) -> (r: String)
    ensures
        r@ == object_path(relpath@),
{
    let mut p = "xet/".to_owned();
    p.append(relpath);
    p
}

/// The calls bring the file of one entry to the remote.
pub open spec fn entry_uploaded(
    calls: Seq<RemoteCall>,
    local_cas_root: Seq<char>,
    e: EntryView,
    outcome: Result<u64, Seq<char>>,
) -> bool {
    uploaded(
        calls,
        join(local_cas_root, e.relpath),
        object_path(e.relpath),
        e.size,
        e.sha256,
        HASH_VERIFY_LIMIT,
        outcome,
    )
}

/// The calls bring the files of the entries to the remote, one after the other and up to
/// the first failure, and `outcome` sums up what was done, on top of `done`.
pub open spec fn pushed(
    local_cas_root: Seq<char>,
    entries: Seq<EntryView>,
    done: SyncSummary,
    calls: Seq<RemoteCall>,
    outcome: Result<SyncSummary, Seq<char>>,
) -> bool
    decreases entries.len(),
{
    if entries.len() == 0 {
        calls.len() == 0 && outcome == Ok::<SyncSummary, Seq<char>>(done)
    } else {
        exists|k: int, o: Result<u64, Seq<char>>|
            {
                &&& 0 <= k <= calls.len()
                &&& #[trigger] entry_uploaded(calls.take(k), local_cas_root, entries[0], o)
                &&& match o {
                    Err(e) => k == calls.len() && outcome == Err::<SyncSummary, Seq<char>>(e),
                    Ok(copied) => pushed(
                        local_cas_root,
                        entries.drop_first(),
                        tally(done, copied),
                        calls.skip(k),
                        outcome,
                    ),
                }
            }
    }
}

/// A file is brought to the remote, and then the rest.
proof fn lemma_push_one(
    local_cas_root: Seq<char>,
    entries: Seq<EntryView>,
    n: int,
    done: SyncSummary,
    calls: Seq<RemoteCall>,
    copied: u64,
    rest: Seq<RemoteCall>,
    outcome: Result<SyncSummary, Seq<char>>,
)
    requires
        0 <= n < entries.len(),
        entry_uploaded(calls, local_cas_root, entries[n], Ok(copied)),
        pushed(local_cas_root, entries.skip(n + 1), tally(done, copied), rest, outcome),
    ensures
        pushed(local_cas_root, entries.skip(n), done, calls + rest, outcome),
{
    let k = calls.len() as int;
    assert((calls + rest).skip(k) =~= rest);
    assert(entries.skip(n).drop_first() =~= entries.skip(n + 1));
    assert(entry_uploaded((calls + rest).take(k), local_cas_root, entries.skip(n)[0], Ok(copied)));
}

/// A file fails, and the rest is left alone.
proof fn lemma_push_fails(
    local_cas_root: Seq<char>,
    entries: Seq<EntryView>,
    n: int,
    done: SyncSummary,
    calls: Seq<RemoteCall>,
    e: Seq<char>,
)
    requires
        0 <= n < entries.len(),
        entry_uploaded(calls, local_cas_root, entries[n], Err(e)),
    ensures
        pushed(local_cas_root, entries.skip(n), done, calls, Err(e)),
{
    assert(entry_uploaded(
        calls.take(calls.len() as int),
        local_cas_root,
        entries.skip(n)[0],
        Err(e),
    ));
}

/// Brings the files of a manifest to the remote, verified.
pub fn push_with_manifest_store<S: RemoteStore>(
    local_cas_root: &str,
    remote_store: &mut RemoteSession<S>,
    manifest: &Manifest,
) -> (r: Result<SyncSummary, Error>)
    requires
        fits(entry_views(manifest.entries@)),
    ensures
        final(remote_store).continues(old(remote_store)),
        old(remote_store).log().is_prefix_of(final(remote_store).log()),
        pushed(
            local_cas_root@,
            entry_views(manifest.entries@),
            no_transfer(),
            new_calls(old(remote_store).log(), final(remote_store).log()),
            told(r),
        ),
{
    let mut summary = SyncSummary::default();
    let policy = VerifyPolicy::default();
    let ghost log0 = remote_store.log();
    let ghost views = entry_views(manifest.entries@);
    let mut i: usize = 0;
    proof {
        assert(views.skip(0) =~= views);
    }
    while i < manifest.entries.len()
        invariant
            i <= manifest.entries@.len(),
            views == entry_views(manifest.entries@),
            fits(views),
            policy.hash_verify_limit == HASH_VERIFY_LIMIT,
            log0 == old(remote_store).log(),
            remote_store.continues(old(remote_store)),
            log0.is_prefix_of(remote_store.log()),
            forall|rest: Seq<RemoteCall>, outcome: Result<SyncSummary, Seq<char>>| #[trigger]
                pushed(local_cas_root@, views.skip(i as int), summary, rest, outcome) ==> pushed(
                    local_cas_root@,
                    views,
                    no_transfer(),
                    new_calls(log0, remote_store.log()) + rest,
                    outcome,
                ),
            summary.files_verified == i,
            summary.files_copied <= i,
            summary.bytes_copied <= total_size(views.take(i as int)),
        decreases manifest.entries@.len() - i,
    {
        let entry = &manifest.entries[i];
        let src = join_path(local_cas_root, entry.relpath.as_str());
        let remote_relpath = object_path_of(entry.relpath.as_str());
        let ghost log1 = remote_store.log();
        let ghost so_far = summary;
        let copied = copy_local_to_remote_atomic_verified(
            src.as_str(),
            remote_store,
            remote_relpath.as_str(),
            entry.size,
            entry.sha256.as_str(),
            policy,
        );
        let ghost step = new_calls(log1, remote_store.log());
        proof {
            assert(new_calls(log0, remote_store.log()) =~= new_calls(log0, log1) + step);
            lemma_total_of_part(views, i as int);
        }
        match copied {
            Err(e) => {
                proof {
                    lemma_push_fails(local_cas_root@, views, i as int, so_far, step, e@);
                }
                return Err(e);
            },
            Ok(n) => {
                summary = add_file(summary, n);
                proof {
                    assert forall|rest: Seq<RemoteCall>, outcome: Result<SyncSummary, Seq<char>>|
                        #[trigger]
                        pushed(
                            local_cas_root@,
                            views.skip(i + 1),
                            summary,
                            rest,
                            outcome,
                        ) implies pushed(
                        local_cas_root@,
                        views,
                        no_transfer(),
                        new_calls(log0, remote_store.log()) + rest,
                        outcome,
                    ) by {
                        lemma_push_one(
                            local_cas_root@,
                            views,
                            i as int,
                            so_far,
                            step,
                            n,
                            rest,
                            outcome,
                        );
                        assert(new_calls(log0, log1) + (step + rest) =~= new_calls(
                            log0,
                            remote_store.log(),
                        ) + rest);
                    }
                }
            },
        }
        i += 1;
    }
    proof {
        let none = Seq::<RemoteCall>::empty();
        assert(pushed(local_cas_root@, views.skip(i as int), summary, none, Ok(summary)));
    }
    Ok(summary)
}

/// The object of `e` was found to have its size at position `j` and, if it is small enough
/// to be hashed, was read right after that and found to have its hash.
pub open spec fn verified_at(calls: Seq<RemoteCall>, j: int, e: EntryView) -> bool {
    &&& 0 <= j < calls.len()
    &&& stat_of(calls[j], object_path(e.relpath)) == Some(
        Ok::<Option<u64>, Seq<char>>(Some(e.size)),
    )
    &&& e.size <= HASH_VERIFY_LIMIT ==> {
        &&& j + 1 < calls.len()
        &&& read_of(calls[j + 1], object_path(e.relpath)) matches Some(Ok(Some(bytes)))
        &&& sha256_text(bytes) == e.sha256
    }
}

/// The object of `e` was found on the remote, and was what the manifest says.
pub open spec fn seen_verified(calls: Seq<RemoteCall>, e: EntryView) -> bool {
    exists|j: int| #[trigger] verified_at(calls, j, e)
}

proof fn lemma_seen_in_part(calls: Seq<RemoteCall>, from: int, to: int, e: EntryView)
    requires
        0 <= from <= to <= calls.len(),
        seen_verified(calls.subrange(from, to), e),
    ensures
        seen_verified(calls, e),
{
    let part = calls.subrange(from, to);
    let j = choose|j: int| #[trigger] verified_at(part, j, e);
    assert(part[j] == calls[from + j]);
    if e.size <= HASH_VERIFY_LIMIT {
        assert(part[j + 1] == calls[from + j + 1]);
    }
    assert(verified_at(calls, from + j, e));
}

/// An upload that succeeds has found the object in order.
pub proof fn lemma_upload_verifies(
    calls: Seq<RemoteCall>,
    local_cas_root: Seq<char>,
    e: EntryView,
    copied: u64,
)
    requires
        entry_uploaded(calls, local_cas_root, e, Ok(copied)),
    ensures
        seen_verified(calls, e),
        copied == 0 || copied == e.size,
{
    let path = object_path(e.relpath);
    let k = look_calls(calls[0], path, e.size, HASH_VERIFY_LIMIT);
    let first = looked(calls.take(k), path, e.size, e.sha256, HASH_VERIFY_LIMIT);
    if first == Some(Ok::<bool, Seq<char>>(true)) {
        assert(verified_at(calls, 0, e));
    } else {
        let rest = calls.skip(2);
        assert(rest[0] == calls[2]);
        if e.size <= HASH_VERIFY_LIMIT {
            assert(rest[1] == calls[3]);
        }
        assert(verified_at(calls, 2, e));
    }
}

/// An object that is there and is not what the manifest says is taken for corrupt: the
/// upload fails and says so, and nothing is written. What is there is told by its size and,
/// if that is right and small enough, by its content.
pub proof fn lemma_mismatch_is_corruption(
    calls: Seq<RemoteCall>,
    local_cas_root: Seq<char>,
    e: EntryView,
    size: u64,
    bytes: Seq<u8>,
    outcome: Result<u64, Seq<char>>,
)
    requires
        entry_uploaded(calls, local_cas_root, e, outcome),
        stat_of(calls[0], object_path(e.relpath)) == Some(
            Ok::<Option<u64>, Seq<char>>(Some(size)),
        ),
        size == e.size && size <= HASH_VERIFY_LIMIT ==> read_of(
            calls[1],
            object_path(e.relpath),
        ) == Some(Ok::<Option<Seq<u8>>, Seq<char>>(Some(bytes))),
        size != e.size || (size <= HASH_VERIFY_LIMIT && sha256_text(bytes) != e.sha256),
    ensures
        forall|i: int|
            0 <= i < calls.len() ==> #[trigger] calls[i] is Stat || calls[i] is Read,
        outcome == Err::<u64, Seq<char>>(
            if size != e.size {
                size_mismatch_text(object_path(e.relpath), size as nat, e.size)
            } else {
                hash_mismatch_text(object_path(e.relpath), e.sha256, sha256_text(bytes))
            },
        ),
{
}

/// A push that succeeds has seen every object of the manifest on the remote, with the
/// size that the manifest gives and, up to the limit, with its hash; and it counts each.
pub proof fn lemma_push_verifies_everything(
    local_cas_root: Seq<char>,
    entries: Seq<EntryView>,
    done: SyncSummary,
    calls: Seq<RemoteCall>,
    summary: SyncSummary,
)
    requires
        pushed(local_cas_root, entries, done, calls, Ok(summary)),
        done.files_verified + entries.len() <= u64::MAX,
    ensures
        forall|i: int| 0 <= i < entries.len() ==> seen_verified(calls, #[trigger] entries[i]),
        summary.files_verified == done.files_verified + entries.len(),
    decreases entries.len(),
{
    if entries.len() > 0 {
        let (k, o) = choose|k: int, o: Result<u64, Seq<char>>|
            {
                &&& 0 <= k <= calls.len()
                &&& #[trigger] entry_uploaded(calls.take(k), local_cas_root, entries[0], o)
                &&& match o {
                    Err(e) => k == calls.len() && Ok::<SyncSummary, Seq<char>>(summary) == Err::<
                        SyncSummary,
                        Seq<char>,
                    >(e),
                    Ok(copied) => pushed(
                        local_cas_root,
                        entries.drop_first(),
                        tally(done, copied),
                        calls.skip(k),
                        Ok(summary),
                    ),
                }
            };
        let copied = o->Ok_0;
        let rest = calls.skip(k);
        lemma_upload_verifies(calls.take(k), local_cas_root, entries[0], copied);
        lemma_push_verifies_everything(
            local_cas_root,
            entries.drop_first(),
            tally(done, copied),
            rest,
            summary,
        );
        assert forall|i: int| 0 <= i < entries.len() implies seen_verified(
            calls,
            #[trigger] entries[i],
        ) by {
            if i > 0 {
                assert(seen_verified(rest, entries.drop_first()[i - 1]));
                assert(rest =~= calls.subrange(k, calls.len() as int));
                lemma_seen_in_part(calls, k, calls.len() as int, entries[i]);
            } else {
                assert(calls.take(k) =~= calls.subrange(0, k));
                lemma_seen_in_part(calls, 0, k, entries[i]);
            }
        }
    }
}

/// The calls write to the remote only where they have just found no object, and only by
/// copying: what is on the remote is never overwritten.
pub open spec fn never_overwrites(calls: Seq<RemoteCall>) -> bool {
    forall|j: int|
        0 <= j < calls.len() ==> match #[trigger] calls[j] {
            RemoteCall::Write { .. } => false,
            RemoteCall::CopyIn { path, .. } => j > 0 && calls[j - 1] == (RemoteCall::Stat {
                path,
                reply: Ok(None),
            }),
            _ => true,
        }
}

/// A push, whether it succeeds or not, never overwrites an object.
pub proof fn lemma_push_never_overwrites(
    local_cas_root: Seq<char>,
    entries: Seq<EntryView>,
    done: SyncSummary,
    calls: Seq<RemoteCall>,
    outcome: Result<SyncSummary, Seq<char>>,
)
    requires
        pushed(local_cas_root, entries, done, calls, outcome),
    ensures
        never_overwrites(calls),
    decreases entries.len(),
{
    if entries.len() > 0 {
        let (k, o) = choose|k: int, o: Result<u64, Seq<char>>|
            {
                &&& 0 <= k <= calls.len()
                &&& #[trigger] entry_uploaded(calls.take(k), local_cas_root, entries[0], o)
                &&& match o {
                    Err(e) => k == calls.len() && outcome == Err::<SyncSummary, Seq<char>>(e),
                    Ok(copied) => pushed(
                        local_cas_root,
                        entries.drop_first(),
                        tally(done, copied),
                        calls.skip(k),
                        outcome,
                    ),
                }
            };
        let rest = calls.skip(k);
        if o is Ok {
            lemma_push_never_overwrites(
                local_cas_root,
                entries.drop_first(),
                tally(done, o->Ok_0),
                rest,
                outcome,
            );
        }
        assert forall|j: int| 0 <= j < calls.len() implies match #[trigger] calls[j] {
            RemoteCall::Write { .. } => false,
            RemoteCall::CopyIn { path, .. } => j > 0 && calls[j - 1] == (RemoteCall::Stat {
                path,
                reply: Ok(None),
            }),
            _ => true,
        } by {
            if j >= k {
                assert(calls[j] == rest[j - k]);
            }
        }
    }
}

} // verus!
