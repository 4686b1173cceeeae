//! Remote storage: what a backend offers, a record of what it was asked, and the layout
//! of the filesystem backend.

use vstd::prelude::*;

use crate::error::{told, Error};
use crate::order::{sorted, stably_sorted};
use crate::paths::{join, join_path};
use crate::text::texts;

verus! {

/// Features that a backend has.
#[derive(Clone, Copy)]
pub struct RemoteCapabilities {
    pub supports_locking: bool,
    pub supports_list_prefix: bool,
}

/// What is known of a remote object without reading it.
#[derive(Clone, Copy)]
pub struct RemoteStat {
    pub size: u64,
}

/// A storage backend. Objects are named by relative paths. Nothing is assumed of the
/// replies: whatever a backend answers, the library's contracts hold.
pub trait RemoteStore {
    fn capabilities(&self) -> RemoteCapabilities;

    /// The size of an object, `None` where there is none.
    fn stat(&self, remote_relpath: &str) -> Result<Option<RemoteStat>, Error>;

    /// The content of an object, `None` where there is none.
    fn read_bytes(&self, remote_relpath: &str) -> Result<Option<Vec<u8>>, Error>;

    /// Makes an object out of bytes, at once.
    fn write_bytes_atomic(&self, remote_relpath: &str, bytes: &[u8]) -> Result<(), Error>;

    /// Whether there is such an object.
    fn has_object(&self, remote_relpath: &str) -> Result<bool, Error>;

    /// Makes an object out of a local file, at once.
    fn copy_from_local_atomic(&self, local_path: &str, remote_relpath: &str) -> Result<(), Error>;

    /// Makes a local file out of an object, at once.
    fn copy_to_local_atomic(&self, remote_relpath: &str, local_path: &str) -> Result<(), Error>;

    /// The names of the objects below `prefix`.
    fn list_prefix(&self, prefix: &str) -> Result<Vec<String>, Error>;
}

/// The reply to a read: the content if there is an object, or why it could not be read.
pub type ReadReply = Result<Option<Seq<u8>>, Seq<char>>;

/// A call of a backend, with its reply.
#[allow(inconsistent_fields)]
pub enum RemoteCall {
    Capabilities { reply: RemoteCapabilities },
    Stat { path: Seq<char>, reply: Result<Option<u64>, Seq<char>> },
    Read { path: Seq<char>, reply: ReadReply },
    Write { path: Seq<char>, bytes: Seq<u8>, reply: Result<(), Seq<char>> },
    Exists { path: Seq<char>, reply: Result<bool, Seq<char>> },
    CopyIn { local: Seq<char>, path: Seq<char>, reply: Result<(), Seq<char>> },
    CopyOut { path: Seq<char>, local: Seq<char>, reply: Result<(), Seq<char>> },
    List { prefix: Seq<char>, reply: Result<Seq<Seq<char>>, Seq<char>> },
}

/// The reply to a read, by view.
pub open spec fn read_reply(r: Result<Option<Vec<u8>>, Error>) -> ReadReply {
    match r {
        Ok(Some(b)) => Ok(Some(b@)),
        Ok(None) => Ok(None),
        Err(e) => Err(e@),
    }
}

/// The reply to a stat, by view.
pub open spec fn stat_reply(r: Result<Option<RemoteStat>, Error>) -> Result<
    Option<u64>,
    Seq<char>,
> {
    match r {
        Ok(Some(s)) => Ok(Some(s.size)),
        Ok(None) => Ok(None),
        Err(e) => Err(e@),
    }
}

/// The reply to a listing, by view.
pub open spec fn list_reply(r: Result<Vec<String>, Error>) -> Result<Seq<Seq<char>>, Seq<char>> {
    match r {
        Ok(v) => Ok(texts(v@)),
        Err(e) => Err(e@),
    }
}

/// A backend in use, with a record of the calls made on it.
pub struct RemoteSession<'a, S: RemoteStore> {
    store: &'a S,
    calls: Ghost<Seq<RemoteCall>>,
}

/// The backend gave this reply to this call: it was handed these arguments, by the method
/// that the call names, and returned this.
pub open spec fn answered_by<S: RemoteStore>(backend: S, call: RemoteCall) -> bool {
    match call {
        RemoteCall::Capabilities { reply } => call_ensures(S::capabilities, (&backend,), reply),
        RemoteCall::Stat { path, reply } => exists|p: &str, r: Result<Option<RemoteStat>, Error>|
            p@ == path && stat_reply(r) == reply && #[trigger] call_ensures(
                S::stat,
                (&backend, p),
                r,
            ),
        RemoteCall::Read { path, reply } => exists|p: &str, r: Result<Option<Vec<u8>>, Error>|
            p@ == path && read_reply(r) == reply && #[trigger] call_ensures(
                S::read_bytes,
                (&backend, p),
                r,
            ),
        RemoteCall::Write { path, bytes, reply } => exists|p: &str, b: &[u8], r: Result<(), Error>|
            p@ == path && b@ == bytes && told(r) == reply && #[trigger] call_ensures(
                S::write_bytes_atomic,
                (&backend, p, b),
                r,
            ),
        RemoteCall::Exists { path, reply } => exists|p: &str, r: Result<bool, Error>|
            p@ == path && told(r) == reply && #[trigger] call_ensures(
                S::has_object,
                (&backend, p),
                r,
            ),
        RemoteCall::CopyIn { local, path, reply } => exists|
            l: &str,
            p: &str,
            r: Result<(), Error>,
        |
            l@ == local && p@ == path && told(r) == reply && #[trigger] call_ensures(
                S::copy_from_local_atomic,
                (&backend, l, p),
                r,
            ),
        RemoteCall::CopyOut { path, local, reply } => exists|
            p: &str,
            l: &str,
            r: Result<(), Error>,
        |
            p@ == path && l@ == local && told(r) == reply && #[trigger] call_ensures(
                S::copy_to_local_atomic,
                (&backend, p, l),
                r,
            ),
        RemoteCall::List { prefix, reply } => exists|p: &str, r: Result<Vec<String>, Error>|
            p@ == prefix && list_reply(r) == reply && #[trigger] call_ensures(
                S::list_prefix,
                (&backend, p),
                r,
            ),
    }
}

impl<'a, S: RemoteStore> RemoteSession<'a, S> {
    /// The backend that is in use.
    pub closed spec fn backend(&self) -> S {
        *self.store
    }

    /// The calls made so far.
    pub closed spec fn log(&self) -> Seq<RemoteCall> {
        self.calls@
    }

    /// The record is true: each call in it was made on the backend and answered so by it.
    pub open spec fn is_true(&self) -> bool {
        forall|i: int|
            0 <= i < self.log().len() ==> answered_by(self.backend(), #[trigger] self.log()[i])
    }

    /// The session goes on on the same backend, and its record is as true as it was.
    pub open spec fn continues(&self, before: &Self) -> bool {
        &&& self.backend() == before.backend()
        &&& before.is_true() ==> self.is_true()
    }

    /// A session on `store`, with no call made.
    pub fn new(store: &'a S) -> (r: Self)
        ensures
            r.log() == Seq::<RemoteCall>::empty(),
            r.backend() == *store,
            r.is_true(),
    {
        RemoteSession { store, calls: Ghost(Seq::empty()) }
    }

    /// Puts a call into the record that was just made.
    fn record(&mut self, Ghost(call): Ghost<RemoteCall>)
        requires
            answered_by(old(self).backend(), call),
        ensures
            final(self).log() == old(self).log().push(call),
            final(self).continues(old(self)),
    {
        self.calls = Ghost(self.calls@.push(call));
        proof {
            if old(self).is_true() {
                assert forall|i: int| 0 <= i < self.log().len() implies answered_by(
                    self.backend(),
                    #[trigger] self.log()[i],
                ) by {
                    if i < old(self).log().len() {
                        assert(self.log()[i] == old(self).log()[i]);
                    }
                }
            }
        }
    }

    pub fn capabilities(&mut self) -> (r: RemoteCapabilities)
        ensures
            final(self).continues(old(self)),
            call_ensures(S::capabilities, (&old(self).backend(),), r),
            final(self).log() == old(self).log().push(RemoteCall::Capabilities { reply: r }),
    {
        let r = self.store.capabilities();
        self.record(Ghost(RemoteCall::Capabilities { reply: r }));
        r
    }

    pub fn stat(&mut self, remote_relpath: &str) -> (r: Result<Option<RemoteStat>, Error>)
        ensures
            final(self).continues(old(self)),
            call_ensures(S::stat, (&old(self).backend(), remote_relpath), r),
            final(self).log() == old(self).log().push(
                RemoteCall::Stat { path: remote_relpath@, reply: stat_reply(r) },
            ),
    {
        let r = self.store.stat(remote_relpath);
        self.record(Ghost(RemoteCall::Stat { path: remote_relpath@, reply: stat_reply(r) }));
        r
    }

    pub fn read_bytes(&mut self, remote_relpath: &str) -> (r: Result<Option<Vec<u8>>, Error>)
        ensures
            final(self).continues(old(self)),
            call_ensures(S::read_bytes, (&old(self).backend(), remote_relpath), r),
            final(self).log() == old(self).log().push(
                RemoteCall::Read { path: remote_relpath@, reply: read_reply(r) },
            ),
    {
        let r = self.store.read_bytes(remote_relpath);
        self.record(Ghost(RemoteCall::Read { path: remote_relpath@, reply: read_reply(r) }));
        r
    }

    pub fn write_bytes_atomic(&mut self, remote_relpath: &str, bytes: &[u8]) -> (r: Result<
        (),
        Error,
    >)
        ensures
            final(self).continues(old(self)),
            call_ensures(S::write_bytes_atomic, (&old(self).backend(), remote_relpath, bytes), r),
            final(self).log() == old(self).log().push(
                RemoteCall::Write { path: remote_relpath@, bytes: bytes@, reply: told(r) },
            ),
    {
        let r = self.store.write_bytes_atomic(remote_relpath, bytes);
        self.record(Ghost(RemoteCall::Write { path: remote_relpath@, bytes: bytes@, reply: told(r) }));
        r
    }

    pub fn has_object(&mut self, remote_relpath: &str) -> (r: Result<bool, Error>)
        ensures
            final(self).continues(old(self)),
            call_ensures(S::has_object, (&old(self).backend(), remote_relpath), r),
            final(self).log() == old(self).log().push(
                RemoteCall::Exists { path: remote_relpath@, reply: told(r) },
            ),
    {
        let r = self.store.has_object(remote_relpath);
        self.record(Ghost(RemoteCall::Exists { path: remote_relpath@, reply: told(r) }));
        r
    }

    pub fn copy_from_local_atomic(&mut self, local_path: &str, remote_relpath: &str) -> (r: Result<
        (),
        Error,
    >)
        ensures
            final(self).continues(old(self)),
            call_ensures(S::copy_from_local_atomic, (&old(self).backend(), local_path, remote_relpath), r),
            final(self).log() == old(self).log().push(
                RemoteCall::CopyIn { local: local_path@, path: remote_relpath@, reply: told(r) },
            ),
    {
        let r = self.store.copy_from_local_atomic(local_path, remote_relpath);
        self.record(Ghost(RemoteCall::CopyIn { local: local_path@, path: remote_relpath@, reply: told(r) }));
        r
    }

    pub fn copy_to_local_atomic(&mut self, remote_relpath: &str, local_path: &str) -> (r: Result<
        (),
        Error,
    >)
        ensures
            final(self).continues(old(self)),
            call_ensures(S::copy_to_local_atomic, (&old(self).backend(), remote_relpath, local_path), r),
            final(self).log() == old(self).log().push(
                RemoteCall::CopyOut { path: remote_relpath@, local: local_path@, reply: told(r) },
            ),
    {
        let r = self.store.copy_to_local_atomic(remote_relpath, local_path);
        self.record(Ghost(RemoteCall::CopyOut { path: remote_relpath@, local: local_path@, reply: told(r) }));
        r
    }

    pub fn list_prefix(&mut self, prefix: &str) -> (r: Result<Vec<String>, Error>)
        ensures
            final(self).continues(old(self)),
            call_ensures(S::list_prefix, (&old(self).backend(), prefix), r),
            final(self).log() == old(self).log().push(
                RemoteCall::List { prefix: prefix@, reply: list_reply(r) },
            ),
    {
        let r = self.store.list_prefix(prefix);
        self.record(Ghost(RemoteCall::List { prefix: prefix@, reply: list_reply(r) }));
        r
    }
}

/// The calls that were made between two records of a session.
pub open spec fn new_calls(before: Seq<RemoteCall>, after: Seq<RemoteCall>) -> Seq<RemoteCall> {
    after.skip(before.len() as int)
}

/// A record that grows twice has grown, and the new calls of the two times follow one
/// another.
pub proof fn lemma_log_grows(a: Seq<RemoteCall>, b: Seq<RemoteCall>, c: Seq<RemoteCall>)
    requires
        a.is_prefix_of(b),
        b.is_prefix_of(c),
    ensures
        a.is_prefix_of(c),
        new_calls(a, c) == new_calls(a, b) + new_calls(b, c),
{
}

/// Where the filesystem backend keeps its objects.
pub struct FilesystemRemoteStore {
    root: String,
}

impl FilesystemRemoteStore {
    /// The directory of the store.
    pub closed spec fn root_text(&self) -> Seq<char> {
        self.root@
    }

    /// A store in the directory `root`.
    pub fn new(root: String) -> (r: Self)
        ensures
            r.root_text() == root@,
    {
        FilesystemRemoteStore { root }
    }

    /// The directory of the store.
    pub fn root(&self) -> (r: &str)
        ensures
            r@ == self.root_text(),
    {
        self.root.as_str()
    }

    /// The file that holds an object.
    pub fn abs(&self, remote_relpath: &str) -> (r: String)
        ensures
            r@ == join(self.root_text(), remote_relpath@),
    {
        join_path(self.root.as_str(), remote_relpath)
    }

    /// What the backend can do.
    pub fn capabilities(&self) -> (r: RemoteCapabilities)
        ensures
            r.supports_locking,
            r.supports_list_prefix,
    {
        RemoteCapabilities { supports_locking: true, supports_list_prefix: true }
    }

    /// What a listing hands out, given the names of the files that were found.
    pub fn list_prefix(&self, found: Vec<String>) -> (r: Vec<String>)
        ensures
            stably_sorted(found@, r@),
    {
        sorted(found)
    }
}

} // verus!
