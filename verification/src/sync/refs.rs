//! Refs and HEADs: small files that name the commit whose data a remote has.

use vstd::prelude::*;
use vstd::utf8::*;

use crate::error::{in_context, told, told_text, Error};
use crate::files::{
    atomic_write_bytes, atomic_write_string, put_start, AtomicPut, Filling, Step,
};
use crate::order::{by_key, lemma_sorted_views, sorted};
use crate::paths::{join, join_path};
use crate::sync::manifest::Manifest;
use crate::text::{
    lemma_text_reads_back, lemma_trim_line, lossy_text, trim_text, trimmed,
};

verus! {

/// A hexadecimal digit, with small or capital letters.
pub open spec fn is_hex(c: char) -> bool {
    '0' <= c <= '9' || 'a' <= c <= 'f' || 'A' <= c <= 'F'
}

/// The textual form of a SHA-1: 40 hexadecimal digits.
pub open spec fn is_sha1(s: Seq<char>) -> bool {
    s.len() == 40 && forall|i: int| 0 <= i < s.len() ==> is_hex(#[trigger] s[i])
}

/// Whether the text is a SHA-1.
pub fn is_sha1_hex(s: &str) -> (r: bool)
    ensures
        r == is_sha1(s@),
{
    let mut n: usize = 0;
    let mut all = true;
    for c in it: s.chars()
        invariant
            it.seq() == s@,
            n == if it.index() <= 41 {
                it.index()
            } else {
                41
            },
            all == forall|i: int| 0 <= i < it.index() ==> is_hex(#[trigger] s@[i]),
    {
        if n <= 40 {
            n += 1;
        }
        if !(('0' <= c && c <= '9') || ('a' <= c && c <= 'f') || ('A' <= c && c <= 'F')) {
            all = false;
        }
    }
    n == 40 && all
}

/// The content of a ref or a HEAD that names a commit.
pub open spec fn sha_line(git_sha: Seq<char>) -> Seq<char> {
    git_sha + "\n"@
}

/// The content of a ref or a HEAD that names a commit.
pub fn sha_line_of(git_sha: &str) -> (r: String)
    ensures
        r@ == sha_line(git_sha@),
{
    let mut line = git_sha.to_owned();
    line.append("\n");
    line
}

/// Begins to write a HEAD, at once.
pub fn write_head_atomic(path: &str, git_sha: &str, pid: u32, suffix: &str) -> (r: Step<
    AtomicPut,
    (),
>)
    ensures
        r@ == put_start(
            path@,
            (Filling::Bytes { bytes: encode_utf8(sha_line(git_sha@)) }),
            pid,
            suffix@,
        ),
{
    let line = sha_line_of(git_sha);
    atomic_write_string(path, line.as_str(), pid, suffix)
}

/// Begins to write a manifest, given as JSON, at once.
pub fn write_manifest_atomic(path: &str, json: Vec<u8>, pid: u32, suffix: &str) -> (r: Step<
    AtomicPut,
    (),
>)
    ensures
        r@ == put_start(path@, (Filling::Bytes { bytes: json@ }), pid, suffix@),
{
    atomic_write_bytes(path, json, pid, suffix)
}

/// Begins to keep a manifest, given as JSON, for later use.
pub fn cache_manifest(local_path: &str, json: Vec<u8>, pid: u32, suffix: &str) -> (r: Step<
    AtomicPut,
    (),
>)
    ensures
        r@ == put_start(local_path@, (Filling::Bytes { bytes: json@ }), pid, suffix@),
{
    write_manifest_atomic(local_path, json, pid, suffix)
}

/// What is said where a HEAD cannot be read.
pub open spec fn no_head_text(path: Seq<char>) -> Seq<char> {
    "remote has no data HEAD; run `xet-ai push` first ("@ + path + ")"@
}

/// What is said of a HEAD that names nothing.
pub open spec fn empty_head_text(path: Seq<char>) -> Seq<char> {
    "remote HEAD is empty: "@ + path
}

/// What a HEAD says, given the attempt to read its file.
pub open spec fn head_said(path: Seq<char>, content: Result<Seq<char>, Seq<char>>) -> Result<
    Seq<char>,
    Seq<char>,
> {
    match content {
        Err(e) => Err(in_context(no_head_text(path), e)),
        Ok(text) => if trim_text(text).len() == 0 {
            Err(empty_head_text(path))
        } else {
            Ok(trim_text(text))
        },
    }
}

/// What a HEAD says, given the attempt to read its file.
pub fn read_head(path: &str, content: Result<String, Error>) -> (r: Result<String, Error>)
    ensures
        told_text(r) == head_said(path@, told_text(content)),
{
    match content {
        Err(e) => {
            let mut m = "remote has no data HEAD; run `xet-ai push` first (".to_owned();
            m.append(path);
            m.append(")");
            Err(e.context(m.as_str()))
        },
        Ok(text) => {
            let sha = trimmed(text.as_str());
            if sha.as_str().is_empty() {
                let mut m = "remote HEAD is empty: ".to_owned();
                m.append(path);
                return Err(Error::new(m));
            }
            Ok(sha)
        },
    }
}

/// The manifest in a file, given the attempt to read the file and then to parse it.
pub fn read_manifest(path: &str, content: Result<Result<Manifest, Error>, Error>) -> (r: Result<
    Manifest,
    Error,
>)
    ensures
        told(r) == match content {
            Err(cause) => Err(in_context("manifest missing: "@ + path@, cause@)),
            Ok(Err(cause)) => Err(in_context("manifest corrupt: "@ + path@, cause@)),
            Ok(Ok(manifest)) => Ok(manifest),
        },
{
    match content {
        Err(cause) => {
            let mut m = "manifest missing: ".to_owned();
            m.append(path);
            Err(cause.context(m.as_str()))
        },
        Ok(Err(cause)) => {
            let mut m = "manifest corrupt: ".to_owned();
            m.append(path);
            Err(cause.context(m.as_str()))
        },
        Ok(Ok(manifest)) => Ok(manifest),
    }
}

/// The file that says which commit is meant: none where the commit is given.
pub open spec fn ref_source(root: Seq<char>, input: Option<Seq<char>>) -> Option<Seq<char>> {
    match input {
        None => Some(join(join(root, "manifests"@), "HEAD"@)),
        Some(v) => if is_sha1(v) {
            None
        } else {
            Some(join(join(root, "refs"@), v))
        },
    }
}

/// The file that says which commit is meant: none where the commit is given.
pub fn ref_file(remote_repo_root: &str, input: Option<&str>) -> (r: Option<String>)
    ensures
        r.deep_view() == ref_source(
            remote_repo_root@,
            match input {
                Some(v) => Some(v@),
                None => None,
            },
        ),
{
    match input {
        None => {
            let dir = join_path(remote_repo_root, "manifests");
            Some(join_path(dir.as_str(), "HEAD"))
        },
        Some(v) => {
            if is_sha1_hex(v) {
                None
            } else {
                let dir = join_path(remote_repo_root, "refs");
                Some(join_path(dir.as_str(), v))
            }
        },
    }
}

/// What is said of a ref whose file cannot be read.
pub open spec fn ref_not_found_text(path: Seq<char>) -> Seq<char> {
    "remote ref not found: "@ + path
}

/// What is said of a ref that names no commit.
pub open spec fn ref_invalid_text(refname: Seq<char>) -> Seq<char> {
    "remote ref "@ + refname + " does not resolve to a valid SHA"@
}

/// The commit that is meant, given the attempt to read the file that says it.
pub open spec fn resolved(
    root: Seq<char>,
    input: Option<Seq<char>>,
    content: Result<Seq<char>, Seq<char>>,
) -> Result<Seq<char>, Seq<char>> {
    match input {
        None => head_said(ref_source(root, input)->0, content),
        Some(v) => if is_sha1(v) {
            Ok(v)
        } else {
            match content {
                Err(e) => Err(in_context(ref_not_found_text(ref_source(root, input)->0), e)),
                Ok(text) => if is_sha1(trim_text(text)) {
                    Ok(trim_text(text))
                } else {
                    Err(ref_invalid_text(v))
                },
            }
        },
    }
}

/// The commit that is meant, given the attempt to read the file that says it (see
/// [`ref_file`]; where there is none, `content` is not looked at).
pub fn resolve_ref_or_sha(
    remote_repo_root: &str,
    input: Option<&str>,
    content: Result<String, Error>,
) -> (r: Result<String, Error>)
    ensures
        told_text(r) == resolved(
            remote_repo_root@,
            match input {
                Some(v) => Some(v@),
                None => None,
            },
            told_text(content),
        ),
{
    match input {
        None => {
            let dir = join_path(remote_repo_root, "manifests");
            let path = join_path(dir.as_str(), "HEAD");
            read_head(path.as_str(), content)
        },
        Some(v) => {
            if is_sha1_hex(v) {
                return Ok(v.to_owned());
            }
            match content {
                Err(e) => {
                    let dir = join_path(remote_repo_root, "refs");
                    let path = join_path(dir.as_str(), v);
                    let mut m = "remote ref not found: ".to_owned();
                    m.append(path.as_str());
                    Err(e.context(m.as_str()))
                },
                Ok(text) => {
                    let sha = trimmed(text.as_str());
                    if !is_sha1_hex(sha.as_str()) {
                        let mut m = "remote ref ".to_owned();
                        m.append(v);
                        m.append(" does not resolve to a valid SHA");
                        return Err(Error::new(m));
                    }
                    Ok(sha)
                },
            }
        },
    }
}

/// A ref with its commit, by view.
pub open spec fn ref_views(s: Seq<(String, String)>) -> Seq<(Seq<char>, Seq<char>)> {
    s.map_values(|p: (String, String)| (p.0@, p.1@))
}

/// A ref with what its file says.
pub open spec fn ref_read(p: (String, String)) -> (Seq<char>, Seq<char>) {
    (p.0@, trim_text(p.1@))
}

/// The refs by name, each with the commit that it names, given their files by name and
/// content.
pub fn list_remote_refs(found: Vec<(String, String)>) -> (r: Vec<(String, String)>)
    ensures
        by_key(
            found@.map_values(|p: (String, String)| ref_read(p)),
            ref_views(r@),
            |p: (Seq<char>, Seq<char>)| p.0,
        ),
{
    let mut out: Vec<(String, String)> = Vec::new();
    let mut i: usize = 0;
    let ghost read = found@.map_values(|p: (String, String)| ref_read(p));
    while i < found.len()
        invariant
            i <= found@.len(),
            read == found@.map_values(|p: (String, String)| ref_read(p)),
            ref_views(out@) == read.take(i as int),
        decreases found@.len() - i,
    {
        let sha = trimmed(found[i].1.as_str());
        out.push((found[i].0.clone(), sha));
        proof {
            assert(read.take(i + 1) =~= read.take(i as int).push(read[i as int]));
        }
        i += 1;
    }
    let r = sorted(out);
    proof {
        assert(ref_views(out@) =~= read);
        lemma_sorted_views(
            out@,
            r@,
            |p: (String, String)| (p.0@, p.1@),
            |p: (Seq<char>, Seq<char>)| p.0,
        );
    }
    r
}

/// The content of a ref or HEAD that names a commit is read as that commit, and nothing
/// else about it matters.
pub proof fn lemma_sha_line_reads_back(git_sha: Seq<char>)
    requires
        is_sha1(git_sha),
    ensures
        trim_text(lossy_text(encode_utf8(sha_line(git_sha)))) == git_sha,
        trim_text(sha_line(git_sha)) == git_sha,
{
    lemma_text_reads_back(sha_line(git_sha));
    lemma_trim_line(git_sha);
}

/// What was written to a HEAD or to a ref is what it resolves to, under its name and,
/// for a HEAD, under none.
pub proof fn lemma_written_ref_resolves(root: Seq<char>, refname: Seq<char>, git_sha: Seq<char>)
    requires
        is_sha1(git_sha),
        !is_sha1(refname),
    ensures
        resolved(root, Some(refname), Ok(sha_line(git_sha))) == Ok::<Seq<char>, Seq<char>>(git_sha),
        resolved(root, None, Ok(sha_line(git_sha))) == Ok::<Seq<char>, Seq<char>>(git_sha),
{
    lemma_sha_line_reads_back(git_sha);
}

/// A commit resolves to itself, whatever the remote holds.
pub proof fn lemma_sha_resolves_to_itself(
    root: Seq<char>,
    git_sha: Seq<char>,
    content: Result<Seq<char>, Seq<char>>,
)
    requires
        is_sha1(git_sha),
    ensures
        ref_source(root, Some(git_sha)) is None,
        resolved(root, Some(git_sha), content) == Ok::<Seq<char>, Seq<char>>(git_sha),
{
}

} // verus!
