//! Pointer files: small files in a commit that stand for large ones, and the index of
//! those that a commit has.

use vstd::prelude::*;
use vstd::utf8::*;

use crate::error::{told_text, Error};
use crate::files::{atomic_write_string, put_start, AtomicPut, Filling, Step};
use crate::order::{by_key, lemma_sorted_views, sorted, Ranked};
use crate::paths::{join, join_path};
use crate::sync::refs::is_hex;
use crate::text::{
    chars_of, lemma_text_le_transitive, lemma_text_lt_total, text_before, text_le, text_of,
};

verus! {

/// What a pointer file says of the large file that it stands for.
pub struct XetFileInfo {
    pub hash: Option<String>,
    pub cas_hash: Option<String>,
    pub content_hash: Option<String>,
    pub file_size: Option<u64>,
    pub sha256: Option<String>,
}

/// What a pointer file says, by view.
pub struct InfoView {
    pub hash: Option<Seq<char>>,
    pub cas_hash: Option<Seq<char>>,
    pub content_hash: Option<Seq<char>>,
    pub file_size: Option<u64>,
    pub sha256: Option<Seq<char>>,
}

impl View for XetFileInfo {
    type V = InfoView;

    open spec fn view(&self) -> InfoView {
        InfoView {
            hash: self.hash.deep_view(),
            cas_hash: self.cas_hash.deep_view(),
            content_hash: self.content_hash.deep_view(),
            file_size: self.file_size,
            sha256: self.sha256.deep_view(),
        }
    }
}

fn copied(text: &Option<String>) -> (r: Option<String>)
    ensures
        r == *text,
{
    match text {
        Some(t) => Some(t.clone()),
        None => None,
    }
}

impl Clone for XetFileInfo {
    fn clone(&self) -> (r: Self)
        ensures
            r == *self,
    {
        XetFileInfo {
            hash: copied(&self.hash),
            cas_hash: copied(&self.cas_hash),
            content_hash: copied(&self.content_hash),
            file_size: self.file_size,
            sha256: copied(&self.sha256),
        }
    }
}

/// A pointer file of a commit.
pub struct PointerEntry {
    pub path: String,
    pub file_info: XetFileInfo,
}

/// A pointer file of a commit, by view.
pub struct PointerView {
    pub path: Seq<char>,
    pub file_info: InfoView,
}

impl View for PointerEntry {
    type V = PointerView;

    open spec fn view(&self) -> PointerView {
        PointerView { path: self.path@, file_info: self.file_info@ }
    }
}

/// The pointer files by view.
pub open spec fn pointer_views(s: Seq<PointerEntry>) -> Seq<PointerView> {
    s.map_values(|e: PointerEntry| e@)
}

/// Pointer files are ranked by their path.
impl Ranked for PointerEntry {
    open spec fn leq(&self, other: &Self) -> bool {
        text_le(self.path@, other.path@)
    }

    proof fn leq_total(a: &Self, b: &Self) {
        lemma_text_lt_total(a.path@, b.path@);
    }

    proof fn leq_transitive(a: &Self, b: &Self, c: &Self) {
        lemma_text_le_transitive(a.path@, b.path@, c.path@);
    }

    fn not_after(&self, other: &Self) -> (r: bool) {
        !text_before(other.path.as_str(), self.path.as_str())
    }
}

/// The pointer files of a commit.
pub struct PointerIndex {
    pub repo_id: String,
    pub git_sha: String,
    pub entries: Vec<PointerEntry>,
}

/// Indexes are ranked by their commit.
impl Ranked for PointerIndex {
    open spec fn leq(&self, other: &Self) -> bool {
        text_le(self.git_sha@, other.git_sha@)
    }

    proof fn leq_total(a: &Self, b: &Self) {
        lemma_text_lt_total(a.git_sha@, b.git_sha@);
    }

    proof fn leq_transitive(a: &Self, b: &Self, c: &Self) {
        lemma_text_le_transitive(a.git_sha@, b.git_sha@, c.git_sha@);
    }

    fn not_after(&self, other: &Self) -> (r: bool) {
        !text_before(other.git_sha.as_str(), self.git_sha.as_str())
    }
}

/// What a pointer file says: the hash of the large file that it stands for, and its size
/// and its SHA-256 where they are given.
pub type Said = (Seq<char>, Option<u64>, Option<Seq<char>>);

/// What the bytes of a file say where it is a pointer.
pub uninterp spec fn pointer_in(bytes: Seq<u8>) -> Option<Said>;

/// `from_slice` of the crate `serde_json`, for the type `XetFileInfo` of the crate
/// `xet-data`, of which the fields are handed on: whether the bytes are a pointer file, and
/// what it says, is a function of the bytes alone. Which bytes are one is left unsaid.
#[verifier::external_body]
fn parse_pointer(bytes: &[u8]) -> (r: Option<(String, Option<u64>, Option<String>)>)
    ensures
        match r {
            Some((hash, size, sha256)) => pointer_in(bytes@) == Some(
                (hash@, size, sha256.deep_view()),
            ),
            None => pointer_in(bytes@) is None,
        },
{
    match serde_json::from_slice::<xet_data::processing::XetFileInfo>(bytes) {
        Ok(p) => Some((p.hash, p.file_size, p.sha256)),
        Err(_) => None,
    }
}

/// The text of a pointer file, or why there is none.
pub uninterp spec fn pointer_text(
    hash: Seq<char>,
    file_size: Option<u64>,
    sha256: Option<Seq<char>>,
) -> Result<Seq<char>, Seq<char>>;

/// `XetFileInfo::as_pointer_file` of the crate `xet-data`: the text is a function of what
/// it says alone, and is read as a pointer that says the same. How it looks is left unsaid,
/// and so is that there always is one.
#[verifier::external_body]
fn write_pointer(hash: String, file_size: Option<u64>, sha256: Option<String>) -> (r: Result<
    String,
    String,
>)
    ensures
        match r {
            Ok(text) => pointer_text(hash@, file_size, sha256.deep_view()) == Ok::<
                Seq<char>,
                Seq<char>,
            >(text@) && pointer_in(encode_utf8(text@)) == Some(
                (hash@, file_size, sha256.deep_view()),
            ),
            Err(e) => pointer_text(hash@, file_size, sha256.deep_view()) == Err::<
                Seq<char>,
                Seq<char>,
            >(e@),
        },
{
    match (xet_data::processing::XetFileInfo { hash, file_size, sha256 }).as_pointer_file() {
        Ok(text) => Ok(text),
        Err(e) => Err(e.to_string()),
    }
}

/// The textual form of a Merkle hash: 64 hexadecimal digits.
pub open spec fn is_merkle_hash(s: Seq<char>) -> bool {
    s.len() == 64 && forall|i: int| 0 <= i < s.len() ==> is_hex(#[trigger] s[i])
}

/// `XetFileInfo::merkle_hash` of the crate `xet-data`, as to whether it succeeds: it does
/// for 64 hexadecimal digits, with small or capital letters, and for nothing else.
#[verifier::external_body]
fn parses_as_merkle_hash(hash: &str) -> (r: bool)
    ensures
        r == is_merkle_hash(hash@),
{
    xet_data::processing::XetFileInfo::new_hash_only(hash.to_owned()).merkle_hash().is_ok()
}

/// What a pointer says, out of what was read of it.
pub open spec fn info_of(said: Said) -> InfoView {
    InfoView {
        hash: Some(said.0),
        cas_hash: None,
        content_hash: None,
        file_size: said.1,
        sha256: said.2,
    }
}

/// What the bytes of a file say, where it is a pointer.
pub open spec fn info_in(bytes: Seq<u8>) -> Option<InfoView> {
    match pointer_in(bytes) {
        Some(said) => Some(info_of(said)),
        None => None,
    }
}

/// What may be said of a file, by view.
pub open spec fn info_view(info: Option<XetFileInfo>) -> Option<InfoView> {
    match info {
        Some(i) => Some(i@),
        None => None,
    }
}

/// What the bytes of a file say, where it is a pointer.
pub fn read_pointer(bytes: &[u8]) -> (r: Option<XetFileInfo>)
    ensures
        info_view(r) == info_in(bytes@),
{
    match parse_pointer(bytes) {
        Some((hash, file_size, sha256)) => Some(
            XetFileInfo { hash: Some(hash), cas_hash: None, content_hash: None, file_size, sha256 },
        ),
        None => None,
    }
}

/// The pointer file for a large file with the given hash. It is read as a pointer that
/// says the same.
pub fn pointer_file(hash: &str, file_size: Option<u64>, sha256: Option<String>) -> (r: Result<
    String,
    Error,
>)
    ensures
        told_text(r) == pointer_text(hash@, file_size, sha256.deep_view()),
        r matches Ok(text) ==> info_in(encode_utf8(text@)) == Some(
            info_of((hash@, file_size, sha256.deep_view())),
        ),
{
    match write_pointer(hash.to_owned(), file_size, sha256) {
        Ok(text) => Ok(text),
        Err(e) => Err(Error::new(e)),
    }
}

/// The hash that a pointer gives, if it is one that data can be found by.
pub fn merkle_hash(info: &XetFileInfo) -> (r: Result<String, Error>)
    ensures
        told_text(r) == match info@.hash {
            Some(hash) if is_merkle_hash(hash) => Ok(hash),
            _ => Err("Xet hash is corrupted"@),
        },
{
    if let Some(hash) = &info.hash {
        if parses_as_merkle_hash(hash.as_str()) {
            return Ok(hash.clone());
        }
    }
    Err(Error::saying("Xet hash is corrupted"))
}

/// A file of a commit: its path, and what it says where it is a pointer.
pub type SaidFile = (Seq<char>, Option<InfoView>);

/// The pointer files among the files of a commit, in their order. A file that is no
/// pointer says nothing.
pub open spec fn found_pointers(files: Seq<SaidFile>) -> Seq<PointerView>
    decreases files.len(),
{
    if files.len() == 0 {
        Seq::empty()
    } else {
        let before = found_pointers(files.drop_last());
        match files.last().1 {
            Some(info) => before.push(PointerView { path: files.last().0, file_info: info }),
            None => before,
        }
    }
}

/// The files of a commit with what they say.
pub open spec fn said_files(files: Seq<(String, Option<XetFileInfo>)>) -> Seq<SaidFile> {
    files.map_values(|f: (String, Option<XetFileInfo>)| (f.0@, info_view(f.1)))
}

/// The files of a commit with what their content says.
pub open spec fn read_files(files: Seq<(String, Vec<u8>)>) -> Seq<SaidFile> {
    files.map_values(|f: (String, Vec<u8>)| (f.0@, info_in(f.1@)))
}

/// The index of a commit, given its files with what each says where it is a pointer.
pub fn index_pointers(
    git_sha: &str,
    repo_id: &str,
    files: Vec<(String, Option<XetFileInfo>)>,
) -> (r: PointerIndex)
    ensures
        r.repo_id@ == repo_id@,
        r.git_sha@ == git_sha@,
        by_key(
            found_pointers(said_files(files@)),
            pointer_views(r.entries@),
            |p: PointerView| p.path,
        ),
{
    let mut found: Vec<PointerEntry> = Vec::new();
    let ghost said = said_files(files@);
    let mut i: usize = 0;
    while i < files.len()
        invariant
            i <= files@.len(),
            said == said_files(files@),
            pointer_views(found@) == found_pointers(said.take(i as int)),
        decreases files@.len() - i,
    {
        proof {
            assert(said.take(i + 1).drop_last() =~= said.take(i as int));
        }
        if let Some(info) = &files[i].1 {
            let entry = PointerEntry { path: files[i].0.clone(), file_info: info.clone() };
            found.push(entry);
        }
        i += 1;
    }
    proof {
        assert(said.take(i as int) =~= said);
    }
    let entries = sorted(found);
    proof {
        lemma_sorted_views(found@, entries@, |e: PointerEntry| e@, |p: PointerView| p.path);
    }
    PointerIndex { repo_id: repo_id.to_owned(), git_sha: git_sha.to_owned(), entries }
}

/// The index of a commit, given its files by path and content.
pub fn build_pointer_index(git_sha: &str, repo_id: &str, files: &Vec<(String, Vec<u8>)>) -> (r:
    PointerIndex)
    ensures
        r.repo_id@ == repo_id@,
        r.git_sha@ == git_sha@,
        by_key(
            found_pointers(read_files(files@)),
            pointer_views(r.entries@),
            |p: PointerView| p.path,
        ),
{
    let mut said: Vec<(String, Option<XetFileInfo>)> = Vec::new();
    let mut i: usize = 0;
    while i < files.len()
        invariant
            i <= files@.len(),
            said_files(said@) == read_files(files@).take(i as int),
        decreases files@.len() - i,
    {
        let info = read_pointer(files[i].1.as_slice());
        let f = (files[i].0.clone(), info);
        proof {
            assert(read_files(files@).take(i + 1) =~= read_files(files@).take(i as int).push(
                read_files(files@)[i as int],
            ));
        }
        said.push(f);
        i += 1;
    }
    proof {
        assert(said_files(said@) =~= read_files(files@));
    }
    index_pointers(git_sha, repo_id, said)
}

/// Where the index of a commit is kept.
pub open spec fn index_file(repo_root: Seq<char>, sha: Seq<char>) -> Seq<char> {
    join(join(join(repo_root, ".xet_ai"@), "pointers"@), sha + ".json"@)
}

/// Where the index of a commit is kept.
pub fn pointer_cache_path(repo_root: &str, sha: &str) -> (r: String)
    ensures
        r@ == index_file(repo_root@, sha@),
{
    let dir = join_path(repo_root, ".xet_ai");
    let dir = join_path(dir.as_str(), "pointers");
    let mut name = sha.to_owned();
    name.append(".json");
    join_path(dir.as_str(), name.as_str())
}

/// Begins to keep the index of a commit, given as JSON, at once.
pub fn cache_pointer_index(repo_root: &str, git_sha: &str, json: &str, pid: u32, suffix: &str) -> (r:
    Step<AtomicPut, ()>)
    ensures
        r@ == put_start(
            index_file(repo_root@, git_sha@),
            (Filling::Bytes { bytes: encode_utf8(json@) }),
            pid,
            suffix@,
        ),
{
    let path = pointer_cache_path(repo_root, git_sha);
    atomic_write_string(path.as_str(), json, pid, suffix)
}

/// The indexes that are kept, by commit.
pub fn list_cached_pointer_indexes(found: Vec<PointerIndex>) -> (r: Vec<PointerIndex>)
    ensures
        by_key(found@, r@, |i: PointerIndex| i.git_sha@),
{
    let r = sorted(found);
    proof {
        lemma_sorted_views(found@, r@, |i: PointerIndex| i, |i: PointerIndex| i.git_sha@);
        assert(found@.map_values(|i: PointerIndex| i) =~= found@);
        assert(r@.map_values(|i: PointerIndex| i) =~= r@);
    }
    r
}

/// What stands before the extension, for the name of a JSON file.
pub open spec fn stem(name: Seq<char>) -> Option<Seq<char>> {
    if name.len() > 5 && name.skip(name.len() - 5) == ".json"@ {
        Some(name.take(name.len() - 5))
    } else {
        None
    }
}

/// What stands before the extension, for the name of a JSON file.
pub fn json_stem(name: &str) -> (r: Option<String>)
    ensures
        r.deep_view() == stem(name@),
{
    let v = chars_of(name);
    let n: usize = v.len();
    proof {
        reveal_strlit(".json");
    }
    if n > 5 && v[n - 5] == '.' && v[n - 4] == 'j' && v[n - 3] == 's' && v[n - 2] == 'o' && v[n
        - 1] == 'n' {
        proof {
            assert(name@.skip(n - 5) =~= ".json"@);
        }
        Some(text_of(&v, 0, n - 5))
    } else {
        proof {
            if n > 5 && name@.skip(n - 5) == ".json"@ {
                assert(name@.skip(n - 5)[0] == v@[n - 5]);
                assert(name@.skip(n - 5)[1] == v@[n - 4]);
                assert(name@.skip(n - 5)[2] == v@[n - 3]);
                assert(name@.skip(n - 5)[3] == v@[n - 2]);
                assert(name@.skip(n - 5)[4] == v@[n - 1]);
            }
        }
        None
    }
}

} // verus!
