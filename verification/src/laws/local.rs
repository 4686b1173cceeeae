//! Laws of local work: the push lock, refs and HEADs in files, and files that are put in
//! their place at once.

use vstd::prelude::*;
use vstd::utf8::*;

use crate::error::Error;
use crate::files::{
    atomic_write_bytes, atomic_write_string, copy_file_atomic, temp_path, temp_path_for, AtomicPut,
    Filling, FileReply, FileRequest, PutAt, Step,
};
use crate::laws::publish::is_commit;
use crate::laws::text::{
    comes_first, is_core, lemma_core_is_unique, lemma_lt_decides, lemma_trim_is_core,
};
use crate::order::{lemma_by_key_lists, lemma_order_keeps_count, lemma_order_lists_all};
use crate::paths::{file_name_of, join, join_path, parent_of};
use crate::sync::lock::{
    acquire_push_lock, LockReply, LockRequest, LockStep, Locking, PushLockGuard,
};
use crate::sync::manifest::Manifest;
use crate::sync::refs::{
    cache_manifest, is_hex, is_sha1, is_sha1_hex, list_remote_refs, read_head, read_manifest,
    ref_file, ref_read, ref_views, resolve_ref_or_sha, write_head_atomic, write_manifest_atomic,
};
use crate::text::{decimal, text_le, trim_text};

verus! {

/// An error in a context tells both.
pub proof fn law_error_in_context(
    e: Error,
    what: &str,
    r: Error,
    message: String,
    n: Error,
    s: Error,
)
    requires
        call_ensures(Error::context, (e, what), r),
        call_ensures(Error::new, (message,), n),
        call_ensures(Error::saying, (what,), s),
    ensures
        r@ == what@ + ": "@ + e@,
        n@ == message@,
        s@ == what@,
{
}

/// The lock of a remote is the file `locks/push.lock` below its root. It is to say which
/// process on which machine took it, and when.
pub proof fn law_lock_begins(
    root: &str,
    force: bool,
    pid: u32,
    host: Option<String>,
    unix_ts: u64,
    r: LockStep,
    dir: &str,
    name: &str,
    file: String,
    f: &str,
    up: Option<String>,
)
    requires
        f@ == file@,
        call_ensures(parent_of, (f,), up),
        call_ensures(acquire_push_lock, (root, force, pid, host, unix_ts), r),
        name@ == "push.lock"@,
        dir@ == join(root@, "locks"@),
        call_ensures(join_path, (dir, name), file),
    ensures
        r matches LockStep::Ask { request, then } && {
            let at = match host {
                Some(h) => h@,
                None => "unknown-host"@,
            };
            &&& up matches Some(above) ==> then@.at is MakingDir && (
            request matches LockRequest::CreateDirs { path } && path@ == above@)
            &&& up is None ==> then@.at is Looking && (request matches LockRequest::Look { path }
                && path@ == file@)
            &&& then@.path == file@
            &&& then@.force == force
            &&& then@.content == encode_utf8(
                "pid="@ + decimal(pid as nat) + "\nhost="@ + at + "\nunix_ts="@ + decimal(
                    unix_ts as nat,
                ) + "\n"@,
            )
        },
        root@.len() > 0 && root@.last() != '/' ==> file@ == root@ + "/locks/push.lock"@,
{
    reveal_strlit("/");
    reveal_strlit("locks");
    reveal_strlit("push.lock");
    reveal_strlit("/locks/push.lock");
    if root@.len() > 0 && root@.last() != '/' {
        assert(dir@ =~= root@ + "/"@ + "locks"@);
        assert(dir@.last() == 's');
        assert(file@ =~= root@ + "/locks/push.lock"@);
    }
}

/// The job goes on for the same lock.
pub open spec fn same_lock(m: Locking, then: Locking) -> bool {
    then@.path == m@.path && then@.content == m@.content && then@.force == m@.force
}

/// Once the directory is there, it is looked whether there is a lock.
pub proof fn law_lock_looks(m: Locking, r: LockStep)
    requires
        call_ensures(Locking::next, (m, LockReply::Done), r),
        m@.at is MakingDir,
    ensures
        r matches LockStep::Ask { request, then } && same_lock(m, then) && then@.at is Looking && (
        request matches LockRequest::Look { path } && path@ == m@.path),
{
}

/// Where there is no lock, it is made.
pub proof fn law_lock_is_made(m: Locking, r: LockStep)
    requires
        call_ensures(Locking::next, (m, LockReply::Absent), r),
        m@.at is Looking,
    ensures
        r matches LockStep::Ask { request, then } && same_lock(m, then) && then@.at is Creating && (
        request matches LockRequest::CreateNew { path } && path@ == m@.path),
{
}

/// A lock that is there is broken, with a warning, by force, or if it is older than half an
/// hour. Any other is respected: of half an hour or less, or of an age that is not known.
pub proof fn law_lock_is_respected(m: Locking, age_secs: Option<u64>, r: LockStep)
    requires
        call_ensures(Locking::next, (m, LockReply::Present { age_secs }), r),
        m@.at is Looking,
    ensures
        ({
            let old = age_secs matches Some(age) && age > 1800;
            &&& m@.force || old ==> (r matches LockStep::Ask { request, then } && same_lock(m, then)
                && then@.at is Breaking && (request matches LockRequest::Break { warning, path }
                && path@ == m@.path && warning@
                == "xet-ai: warning: breaking existing push lock at "@ + m@.path))
            &&& !m@.force && !old ==> (r matches LockStep::Finished { outcome } && (
            outcome matches Err(e) && e@ == "another push appears to be in progress; lock exists at "@
                + m@.path))
        }),
{
}

/// A lock that was broken is made anew, whatever came of deleting it.
pub proof fn law_broken_lock_is_made_anew(m: Locking, reply: LockReply, r: LockStep)
    requires
        call_ensures(Locking::next, (m, reply), r),
        m@.at is Breaking,
    ensures
        r matches LockStep::Ask { request, then } && same_lock(m, then) && then@.at is Creating && (
        request matches LockRequest::CreateNew { path } && path@ == m@.path),
{
}

/// A lock that was made is filled, and then it is held. One that could not be made is not.
pub proof fn law_lock_is_held(m: Locking, r: LockStep, error: Error, r2: LockStep)
    requires
        call_ensures(Locking::next, (m, LockReply::Done), r),
        call_ensures(Locking::next, (m, LockReply::Failed { error }), r2),
    ensures
        m@.at is Creating ==> (r matches LockStep::Ask { request, then } && same_lock(m, then)
            && then@.at is Filling && (request matches LockRequest::Fill { path, bytes } && path@
            == m@.path && bytes@ == m@.content)),
        m@.at is Filling ==> (r matches LockStep::Finished { outcome } && (outcome matches Ok(guard)
            && guard@ == m@.path)),
        m@.at is Creating ==> (r2 matches LockStep::Finished { outcome } && (outcome matches Err(e)
            && e@ == "failed to acquire push lock at "@ + m@.path + ": "@ + error@)),
        m@.at is MakingDir || m@.at is Looking || m@.at is Filling ==> (
        r2 matches LockStep::Finished { outcome } && (outcome matches Err(e) && e@ == error@)),
{
}

/// A lock that is held is given back by deleting its file.
pub proof fn law_lock_release(guard: PushLockGuard, g: &PushLockGuard, r: String, p: &str)
    requires
        call_ensures(PushLockGuard::release, (guard,), r),
        *g == guard,
        call_ensures(PushLockGuard::lock_path, (g,), p),
    ensures
        r@ == p@ && r@ == guard@,
{
}

/// The full name of a commit is forty hexadecimal digits.
pub proof fn law_is_sha1_hex(s: &str, r: bool)
    requires
        call_ensures(is_sha1_hex, (s,), r),
    ensures
        r <==> is_commit(s@),
{
    lemma_commit(s@);
}

proof fn lemma_commit(t: Seq<char>)
    ensures
        is_commit(t) <==> is_sha1(t),
{
    assert forall|i: int| 0 <= i < t.len() implies (crate::laws::pointers::is_hex_digit(
        #[trigger] t[i],
    ) <==> is_hex(t[i])) by {}
}

/// What a HEAD says is what is in its file, without white space around it; a file that says
/// nothing, or cannot be read, is an error that names it.
pub proof fn law_read_head(path: &str, content: Result<String, Error>, r: Result<String, Error>)
    requires
        call_ensures(read_head, (path, content), r),
    ensures
        content is Ok && !is_core(content->Ok_0@, Seq::empty()) ==> (r matches Ok(sha) && is_core(
            content->Ok_0@,
            sha@,
        )),
        content matches Ok(text) && is_core(text@, Seq::empty()) ==> (r matches Err(e) && e@
            == "remote HEAD is empty: "@ + path@),
        content matches Err(why) ==> (r matches Err(e) && e@
            == "remote has no data HEAD; run `xet-ai push` first ("@ + path@ + ")"@ + ": "@ + why@),
{
    if let Ok(text) = content {
        lemma_trim_is_core(text@);
        if is_core(text@, Seq::empty()) {
            lemma_core_is_unique(text@, Seq::empty(), trim_text(text@));
        } else if trim_text(text@).len() == 0 {
            assert(trim_text(text@) =~= Seq::empty());
        }
    }
}

/// The file of a manifest that is missing, or is none, is an error that names it; one that
/// is one is read as it is.
pub proof fn law_read_manifest(
    path: &str,
    content: Result<Result<Manifest, Error>, Error>,
    r: Result<Manifest, Error>,
)
    requires
        call_ensures(read_manifest, (path, content), r),
    ensures
        content matches Ok(Ok(m)) ==> r == Ok::<Manifest, Error>(m),
        content matches Err(why) ==> (r matches Err(e) && e@ == "manifest missing: "@ + path@
            + ": "@ + why@),
        content matches Ok(Err(why)) ==> (r matches Err(e) && e@ == "manifest corrupt: "@ + path@
            + ": "@ + why@),
{
}

/// A commit is meant by its full name, by a ref, whose file lies below `refs`, or by nothing,
/// which means the HEAD below `manifests`. A ref means the commit that its file names, and
/// where that names none, it is an error.
pub proof fn law_resolve_ref(
    root: &str,
    input: Option<&str>,
    file: Option<String>,
    content: Result<String, Error>,
    r: Result<String, Error>,
    head: &str,
    said: Result<String, Error>,
)
    requires
        call_ensures(ref_file, (root, input), file),
        call_ensures(resolve_ref_or_sha, (root, input, content), r),
        head@ == join(join(root@, "manifests"@), "HEAD"@),
        call_ensures(read_head, (head, content), said),
    ensures
        input is None ==> (file matches Some(f) && f@ == head@) && match (r, said) {
            (Ok(a), Ok(b)) => a@ == b@,
            (Err(a), Err(b)) => a@ == b@,
            _ => false,
        },
        input is Some && is_commit(input->0@) ==> file is None && (r matches Ok(sha) && sha@ == input->0@),
        input is Some && !is_commit(input->0@) ==> (file matches Some(f) && f@ == join(
            join(root@, "refs"@),
            input->0@,
        )) && match content {
            Err(why) => r matches Err(e) && e@ == "remote ref not found: "@ + join(
                join(root@, "refs"@),
                input->0@,
            ) + ": "@ + why@,
            Ok(text) => match r {
                Ok(sha) => is_core(text@, sha@) && is_commit(sha@),
                Err(e) => e@ == "remote ref "@ + input->0@ + " does not resolve to a valid SHA"@
                    && forall|sha: Seq<char>| #[trigger] is_core(text@, sha) ==> !is_commit(sha),
            },
        },
{
    if let Some(v) = input {
        lemma_commit(v@);
        if let Ok(text) = content {
            lemma_trim_is_core(text@);
            lemma_commit(trim_text(text@));
            assert forall|sha: Seq<char>| #[trigger] is_core(text@, sha) implies sha == trim_text(
                text@,
            ) by {
                lemma_core_is_unique(text@, sha, trim_text(text@));
            }
        }
    }
}

/// One of the pairs is the name of a file, with its content without white space around it.
pub open spec fn has_ref(found: Seq<(String, String)>, name: Seq<char>, sha: Seq<char>) -> bool {
    exists|i: int|
        0 <= i < found.len() && (#[trigger] found[i]).0@ == name && is_core(found[i].1@, sha)
}

/// Every file of a ref is listed, with what it says, and nothing else is; they come in the
/// order of the names.
pub proof fn law_list_remote_refs(
    found: Vec<(String, String)>,
    r: Vec<(String, String)>,
    i: int,
    j: int,
)
    requires
        call_ensures(list_remote_refs, (found,), r),
    ensures
        r@.len() == found@.len(),
        0 <= i < found@.len() ==> exists|n: int|
            0 <= n < r@.len() && (#[trigger] r@[n]).0@ == found@[i].0@ && is_core(
                found@[i].1@,
                r@[n].1@,
            ),
        0 <= i < r@.len() ==> has_ref(found@, r@[i].0@, r@[i].1@),
        0 <= i < j < r@.len() ==> !comes_first(r@[j].0@, r@[i].0@),
{
    let read = found@.map_values(|p: (String, String)| ref_read(p));
    let out = ref_views(r@);
    let key = |p: (Seq<char>, Seq<char>)| p.0;
    lemma_order_keeps_count(read, out, key);
    if 0 <= i < found@.len() {
        let x = ref_read(found@[i]);
        assert(read[i] == x);
        assert(read.contains(x));
        lemma_order_lists_all(read, out, key, x);
        let n = choose|n: int| 0 <= n < out.len() && out[n] == x;
        assert(out[n] == (r@[n].0@, r@[n].1@));
        lemma_trim_is_core(found@[i].1@);
    }
    if 0 <= i < r@.len() {
        assert(out[i] == (r@[i].0@, r@[i].1@));
        lemma_by_key_lists(read, out, key, i);
        let n = choose|n: int| 0 <= n < read.len() && read[n] == out[i];
        assert(read[n] == ref_read(found@[n]));
        lemma_trim_is_core(found@[n].1@);
    }
    if 0 <= i < j < r@.len() {
        assert(out[i] == (r@[i].0@, r@[i].1@) && out[j] == (r@[j].0@, r@[j].1@));
        assert(text_le(key(out[i]), key(out[j])));
        lemma_lt_decides(r@[j].0@, r@[i].0@);
    }
}

/// The temporary file for another lies in the directory that is named, and bears the name of
/// the other, the process and a suffix.
pub proof fn law_temp_path(
    lead: &str,
    dir: &str,
    dest: &str,
    pid: u32,
    suffix: &str,
    r: String,
    name: Option<String>,
)
    requires
        call_ensures(temp_path_for, (lead, dir, dest, pid, suffix), r),
        call_ensures(file_name_of, (dest,), name),
    ensures
        name matches Some(n) ==> r@ == join(
            dir@,
            lead@ + n@ + ".tmp."@ + decimal(pid as nat) + "."@ + suffix@,
        ),
        name is None ==> r@ == join(
            dir@,
            lead@ + ".tmp."@ + decimal(pid as nat) + "."@ + suffix@,
        ),
{
    assert(lead@ + Seq::<char>::empty() =~= lead@);
}

/// The job puts this at `dest`, by way of a file beside it that is named after it.
pub open spec fn puts(
    r: Step<AtomicPut, ()>,
    dest: &str,
    up: Option<String>,
    pid: u32,
    suffix: &str,
    payload: Filling,
) -> bool {
    match up {
        None => r matches Step::Finished { outcome } && (outcome matches Err(e) && e@
            == "destination has no parent: "@ + dest@),
        Some(dir) => r matches Step::Ask { request, then } && then@.dest == dest@ && then@.tmp
            == temp_path("."@, dir@, dest@, pid, suffix@) && (
        request matches FileRequest::CreateDirs { path } && path@ == dir@) && then@.at
            == (PutAt::MakingDir { payload }),
    }
}

/// To write or to copy a file at once begins with its directory, whatever is put there: the
/// bytes, the text as UTF-8, the content of another file, a commit on a line, or a manifest.
pub proof fn law_put_begins(
    dest: &str,
    up: Option<String>,
    bytes: Vec<u8>,
    text: &str,
    src: &str,
    pid: u32,
    suffix: &str,
    a: Step<AtomicPut, ()>,
    b: Step<AtomicPut, ()>,
    c: Step<AtomicPut, ()>,
    d: Step<AtomicPut, ()>,
    e: Step<AtomicPut, ()>,
    f: Step<AtomicPut, ()>,
)
    requires
        call_ensures(parent_of, (dest,), up),
        call_ensures(atomic_write_bytes, (dest, bytes, pid, suffix), a),
        call_ensures(atomic_write_string, (dest, text, pid, suffix), b),
        call_ensures(copy_file_atomic, (src, dest, pid, suffix), c),
        call_ensures(write_head_atomic, (dest, text, pid, suffix), d),
        call_ensures(write_manifest_atomic, (dest, bytes, pid, suffix), e),
        call_ensures(cache_manifest, (dest, bytes, pid, suffix), f),
    ensures
        puts(a, dest, up, pid, suffix, Filling::Bytes { bytes: bytes@ }),
        puts(b, dest, up, pid, suffix, Filling::Bytes { bytes: encode_utf8(text@) }),
        puts(c, dest, up, pid, suffix, Filling::File { path: src@ }),
        puts(d, dest, up, pid, suffix, Filling::Bytes { bytes: encode_utf8(text@ + "\n"@) }),
        puts(e, dest, up, pid, suffix, Filling::Bytes { bytes: bytes@ }),
        puts(f, dest, up, pid, suffix, Filling::Bytes { bytes: bytes@ }),
{
}

/// Then a temporary file is filled with it, then moved to its place, and then it is done. A
/// step that fails has the temporary file deleted, and the failure told.
pub proof fn law_put_goes_on(
    m: AtomicPut,
    r: Step<AtomicPut, ()>,
    error: Error,
    r2: Step<AtomicPut, ()>,
)
    requires
        call_ensures(AtomicPut::next, (m, FileReply::Done), r),
        call_ensures(AtomicPut::next, (m, FileReply::Failed { error }), r2),
    ensures
        m@.at matches PutAt::MakingDir { payload } ==> (r matches Step::Ask { request, then }
            && then@.dest == m@.dest && then@.tmp == m@.tmp && then@.at is Filling
            && match payload {
            Filling::Bytes { bytes } => request matches FileRequest::Write { path, bytes: b }
                && path@ == m@.tmp && b@ == bytes,
            Filling::File { path } => request matches FileRequest::Copy { from, to } && from@
                == path && to@ == m@.tmp,
        }),
        m@.at is Filling ==> (r matches Step::Ask { request, then } && then@.dest == m@.dest
            && then@.tmp == m@.tmp && then@.at is Renaming && (
        request matches FileRequest::Rename { from, to } && from@ == m@.tmp && to@ == m@.dest)),
        m@.at is Renaming ==> (r matches Step::Finished { outcome } && outcome is Ok),
        m@.at is MakingDir ==> (r2 matches Step::Finished { outcome } && (outcome matches Err(e)
            && e@ == error@)),
        m@.at is Filling || m@.at is Renaming ==> (r2 matches Step::Ask { request, then }
            && then@.at == (PutAt::CleaningUp { why: error@ }) && (
        request matches FileRequest::Remove { path } && path@ == m@.tmp)),
        m@.at matches PutAt::CleaningUp { why } ==> (r matches Step::Finished { outcome } && (
        outcome matches Err(e) && e@ == why)) && (r2 matches Step::Finished { outcome } && (
        outcome matches Err(e) && e@ == why)),
{
}

} // verus!
