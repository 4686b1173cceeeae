//! Laws of pointers: which files of a commit are pointers, and which files of the content
//! store a commit needs on their account.

use vstd::prelude::*;
use vstd::utf8::*;

use crate::error::Error;
use crate::keyed::lists_set;
use crate::laws::store::{is_among, lemma_prefix};
use crate::laws::text::{comes_first, lemma_lt_decides, lemma_part_between, lemma_part_splits};
use crate::order::{by_key, lemma_by_key_lists, lemma_order_keeps_count, lemma_order_lists_all};
use crate::paths::join;
use crate::pointers::{
    build_pointer_index, found_pointers, index_pointers, info_in, info_of, info_view, json_stem,
    merkle_hash, pointer_file, pointer_in, pointer_views, read_files, read_pointer, said_files,
    PointerEntry, PointerIndex, PointerView, SaidFile, XetFileInfo,
};
use crate::reachability::{
    first_16, hydrated, hydration_failed, lemma_plan_requires_what_is_needed,
    load_or_build_pointer_index, made_by, made_in, names_token, needed_by, plan_reachable_cas,
    pointer_paths_of, pointer_tokens, read_well, tokens_of, wanted, CasRead, CasReader,
    PointerHashHydrator, PointerHydrator, ReachabilityPlan,
};
use crate::sync::layout::included;
use crate::text::{has_part, lower_text, text_le, texts, trim_text};

verus! {

/// The two say the same of a large file.
pub open spec fn say_the_same(a: XetFileInfo, b: XetFileInfo) -> bool {
    &&& a.hash.deep_view() == b.hash.deep_view()
    &&& a.cas_hash.deep_view() == b.cas_hash.deep_view()
    &&& a.content_hash.deep_view() == b.content_hash.deep_view()
    &&& a.file_size == b.file_size
    &&& a.sha256.deep_view() == b.sha256.deep_view()
}

/// The index has an entry for the file, which says this.
pub open spec fn indexes(index: PointerIndex, path: Seq<char>, info: XetFileInfo) -> bool {
    exists|j: int|
        0 <= j < index.entries@.len() && (#[trigger] index.entries@[j]).path@ == path
            && say_the_same(index.entries@[j].file_info, info)
}

/// How many of the files are pointers.
pub open spec fn pointers_among(files: Seq<(String, Option<XetFileInfo>)>) -> nat
    decreases files.len(),
{
    if files.len() == 0 {
        0
    } else {
        (if files[0].1 is Some {
            1nat
        } else {
            0nat
        }) + pointers_among(files.skip(1))
    }
}

/// Pointers found in two lists of files are those found in both together.
proof fn lemma_found_in_parts(a: Seq<SaidFile>, b: Seq<SaidFile>)
    ensures
        found_pointers(a + b) == found_pointers(a) + found_pointers(b),
    decreases b.len(),
{
    if b.len() == 0 {
        assert(a + b =~= a);
        assert(found_pointers(a) + found_pointers(b) =~= found_pointers(a));
    } else {
        assert((a + b).drop_last() =~= a + b.drop_last());
        lemma_found_in_parts(a, b.drop_last());
        assert(found_pointers(a + b) =~= found_pointers(a) + found_pointers(b));
    }
}

proof fn lemma_found(files: Seq<SaidFile>)
    ensures
        forall|i: int|
            0 <= i < files.len() && (#[trigger] files[i]).1 is Some ==> found_pointers(
                files,
            ).contains(PointerView { path: files[i].0, file_info: files[i].1->0 }),
        forall|j: int|
            0 <= j < found_pointers(files).len() ==> exists|i: int|
                0 <= i < files.len() && (#[trigger] files[i]).1 is Some && (
                #[trigger] found_pointers(files)[j]) == (PointerView {
                    path: files[i].0,
                    file_info: files[i].1->0,
                }),
    decreases files.len(),
{
    if files.len() > 0 {
        let q = files.drop_last();
        let w = found_pointers(q);
        let all = found_pointers(files);
        lemma_found(q);
        assert forall|i: int| 0 <= i < files.len() && (
        #[trigger] files[i]).1 is Some implies all.contains(
            PointerView { path: files[i].0, file_info: files[i].1->0 },
        ) by {
            let v = PointerView { path: files[i].0, file_info: files[i].1->0 };
            if i < q.len() {
                assert(q[i] == files[i]);
                let n = choose|n: int| 0 <= n < w.len() && w[n] == v;
                assert(all[n] == w[n]);
            } else {
                assert(all.last() == v);
            }
        }
        assert forall|j: int| 0 <= j < all.len() implies exists|i: int|
            0 <= i < files.len() && (#[trigger] files[i]).1 is Some && (#[trigger] all[j]) == (
            PointerView { path: files[i].0, file_info: files[i].1->0 }) by {
            if j < w.len() {
                assert(w[j] == all[j]);
                let i = choose|i: int|
                    0 <= i < q.len() && (#[trigger] q[i]).1 is Some && w[j] == (PointerView {
                        path: q[i].0,
                        file_info: q[i].1->0,
                    });
                assert(files[i] == q[i]);
            } else {
                assert(files[files.len() - 1].1 is Some);
            }
        }
    }
}

proof fn lemma_pointers_among(files: Seq<(String, Option<XetFileInfo>)>)
    ensures
        pointers_among(files) == found_pointers(said_files(files)).len(),
    decreases files.len(),
{
    if files.len() > 0 {
        let rest = files.skip(1);
        lemma_pointers_among(rest);
        let s = said_files(files);
        let one = seq![s[0]];
        assert(s =~= one + said_files(rest));
        lemma_found_in_parts(one, said_files(rest));
        assert(one.drop_last() =~= Seq::<SaidFile>::empty());
        reveal_with_fuel(found_pointers, 2);
    }
}

proof fn lemma_index_of(said: Seq<SaidFile>, index: PointerIndex)
    requires
        by_key(found_pointers(said), pointer_views(index.entries@), |p: PointerView| p.path),
    ensures
        index.entries@.len() == found_pointers(said).len(),
        forall|i: int|
            0 <= i < said.len() && (#[trigger] said[i]).1 is Some ==> exists|j: int|
                0 <= j < index.entries@.len() && (#[trigger] index.entries@[j])@ == (PointerView {
                    path: said[i].0,
                    file_info: said[i].1->0,
                }),
        forall|j: int|
            0 <= j < index.entries@.len() ==> exists|i: int|
                0 <= i < said.len() && (#[trigger] said[i]).1 is Some && (
                #[trigger] index.entries@[j])@ == (PointerView {
                    path: said[i].0,
                    file_info: said[i].1->0,
                }),
        forall|i: int, j: int|
            0 <= i < j < index.entries@.len() ==> !comes_first(
                (#[trigger] index.entries@[j]).path@,
                (#[trigger] index.entries@[i]).path@,
            ),
{
    let key = |p: PointerView| p.path;
    let found = found_pointers(said);
    let out = pointer_views(index.entries@);
    lemma_found(said);
    lemma_order_keeps_count(found, out, key);
    assert forall|i: int| 0 <= i < said.len() && (#[trigger] said[i]).1 is Some implies exists|
        j: int,
    |
        0 <= j < index.entries@.len() && (#[trigger] index.entries@[j])@ == (PointerView {
            path: said[i].0,
            file_info: said[i].1->0,
        }) by {
        let v = PointerView { path: said[i].0, file_info: said[i].1->0 };
        lemma_order_lists_all(found, out, key, v);
        let j = choose|j: int| 0 <= j < out.len() && out[j] == v;
        assert(index.entries@[j]@ == out[j]);
    }
    assert forall|j: int| 0 <= j < index.entries@.len() implies exists|i: int|
        0 <= i < said.len() && (#[trigger] said[i]).1 is Some && (#[trigger] index.entries@[j])@
            == (PointerView { path: said[i].0, file_info: said[i].1->0 }) by {
        assert(out[j] == index.entries@[j]@);
        lemma_by_key_lists(found, out, key, j);
        let n = choose|n: int| 0 <= n < found.len() && found[n] == out[j];
        assert(found[n] == out[j]);
    }
    assert forall|i: int, j: int|
        0 <= i < j < index.entries@.len() implies !comes_first(
        (#[trigger] index.entries@[j]).path@,
        (#[trigger] index.entries@[i]).path@,
    ) by {
        assert(out[i] == index.entries@[i]@);
        assert(out[j] == index.entries@[j]@);
        assert(text_le(key(out[i]), key(out[j])));
        lemma_lt_decides(index.entries@[j].path@, index.entries@[i].path@);
    }
}

/// The index of a commit has an entry for every file that is a pointer, at whatever path,
/// with what it says; every entry comes from such a file; there are as many of the one as of
/// the other; and the entries are in ascending order of their paths.
pub proof fn law_index_pointers(
    git_sha: &str,
    repo_id: &str,
    files: Vec<(String, Option<XetFileInfo>)>,
    r: PointerIndex,
)
    requires
        call_ensures(index_pointers, (git_sha, repo_id, files), r),
    ensures
        r.repo_id@ == repo_id@,
        r.git_sha@ == git_sha@,
        forall|i: int|
            0 <= i < files@.len() && (#[trigger] files@[i]).1 is Some ==> indexes(
                r,
                files@[i].0@,
                files@[i].1->0,
            ),
        forall|j: int|
            0 <= j < r.entries@.len() ==> comes_from_pointer(files@, #[trigger] r.entries@[j]),
        r.entries@.len() == pointers_among(files@),
        forall|i: int, j: int|
            0 <= i < j < r.entries@.len() ==> !comes_first(
                (#[trigger] r.entries@[j]).path@,
                (#[trigger] r.entries@[i]).path@,
            ),
{
    let said = said_files(files@);
    lemma_index_of(said, r);
    lemma_pointers_among(files@);
    assert forall|i: int| 0 <= i < files@.len() && (
    #[trigger] files@[i]).1 is Some implies indexes(r, files@[i].0@, files@[i].1->0) by {
        assert(said[i] == (files@[i].0@, info_view(files@[i].1)));
        let j = choose|j: int|
            0 <= j < r.entries@.len() && (#[trigger] r.entries@[j])@ == (PointerView {
                path: said[i].0,
                file_info: said[i].1->0,
            });
        assert(r.entries@[j].file_info@ == files@[i].1->0@);
    }
    assert forall|j: int| 0 <= j < r.entries@.len() implies comes_from_pointer(
        files@,
        #[trigger] r.entries@[j],
    ) by {
        let i = choose|i: int|
            0 <= i < said.len() && (#[trigger] said[i]).1 is Some && r.entries@[j]@ == (
            PointerView { path: said[i].0, file_info: said[i].1->0 });
        assert(said[i] == (files@[i].0@, info_view(files@[i].1)));
        assert(r.entries@[j].file_info@ == files@[i].1->0@);
    }
}

/// The entry is that of one of the files, which is a pointer and says the same.
pub open spec fn comes_from_pointer(
    files: Seq<(String, Option<XetFileInfo>)>,
    e: PointerEntry,
) -> bool {
    exists|i: int|
        0 <= i < files.len() && (#[trigger] files[i]).1 is Some && files[i].0@ == e.path@
            && say_the_same(files[i].1->0, e.file_info)
}

/// What a pointer says that was read of bytes.
pub open spec fn says(info: XetFileInfo, bytes: Seq<u8>) -> bool {
    &&& pointer_in(bytes) matches Some((hash, size, sha256))
    &&& info.hash.deep_view() == Some(hash)
    &&& info.cas_hash is None
    &&& info.content_hash is None
    &&& info.file_size == size
    &&& info.sha256.deep_view() == sha256
}

/// A file is a pointer exactly if its bytes are one, and then it is known by what they say.
pub proof fn law_read_pointer(bytes: &[u8], r: Option<XetFileInfo>)
    requires
        call_ensures(read_pointer, (bytes,), r),
    ensures
        r is Some <==> pointer_in(bytes@) is Some,
        r matches Some(info) ==> says(info, bytes@),
{
}

/// A pointer file that was written is read as a pointer that says what it was written for.
pub proof fn law_pointer_file_reads_back(
    hash: &str,
    file_size: Option<u64>,
    sha256: Option<String>,
    text: String,
    bytes: &[u8],
    r: Option<XetFileInfo>,
)
    requires
        call_ensures(
            pointer_file,
            (hash, file_size, sha256),
            Ok::<String, Error>(text),
        ),
        bytes@ == encode_utf8(text@),
        call_ensures(read_pointer, (bytes,), r),
    ensures
        r matches Some(info) && info.hash.deep_view() == Some(hash@) && info.file_size
            == file_size && info.sha256.deep_view() == sha256.deep_view(),
{
}

/// The index has an entry for the file, which says what its bytes say.
pub open spec fn indexes_bytes(index: PointerIndex, path: Seq<char>, bytes: Seq<u8>) -> bool {
    exists|j: int|
        0 <= j < index.entries@.len() && (#[trigger] index.entries@[j]).path@ == path && says(
            index.entries@[j].file_info,
            bytes,
        )
}

/// The entry is that of one of the files, and says what its bytes say.
pub open spec fn comes_from_file(files: Seq<(String, Vec<u8>)>, e: PointerEntry) -> bool {
    exists|i: int|
        0 <= i < files.len() && (#[trigger] files[i]).0@ == e.path@ && says(
            e.file_info,
            files[i].1@,
        )
}

/// How many of the files have bytes that are a pointer.
pub open spec fn pointer_files_among(files: Seq<(String, Vec<u8>)>) -> nat
    decreases files.len(),
{
    if files.len() == 0 {
        0
    } else {
        (if pointer_in(files[0].1@) is Some {
            1nat
        } else {
            0nat
        }) + pointer_files_among(files.skip(1))
    }
}

proof fn lemma_pointer_files_among(files: Seq<(String, Vec<u8>)>)
    ensures
        pointer_files_among(files) == found_pointers(read_files(files)).len(),
    decreases files.len(),
{
    if files.len() > 0 {
        let rest = files.skip(1);
        lemma_pointer_files_among(rest);
        let s = read_files(files);
        let one = seq![s[0]];
        assert(s =~= one + read_files(rest));
        lemma_found_in_parts(one, read_files(rest));
        assert(one.drop_last() =~= Seq::<SaidFile>::empty());
        reveal_with_fuel(found_pointers, 2);
    }
}

spec fn is_index_of(files: Seq<(String, Vec<u8>)>, r: PointerIndex) -> bool {
    &&& forall|i: int|
        0 <= i < files.len() && pointer_in((#[trigger] files[i]).1@) is Some ==> indexes_bytes(
            r,
            files[i].0@,
            files[i].1@,
        )
    &&& forall|j: int|
        0 <= j < r.entries@.len() ==> comes_from_file(files, #[trigger] r.entries@[j])
    &&& r.entries@.len() == pointer_files_among(files)
}

proof fn lemma_index_of_files(files: Seq<(String, Vec<u8>)>, r: PointerIndex)
    requires
        by_key(
            found_pointers(read_files(files)),
            pointer_views(r.entries@),
            |p: PointerView| p.path,
        ),
    ensures
        is_index_of(files, r),
{
    let said = read_files(files);
    lemma_index_of(said, r);
    lemma_pointer_files_among(files);
    assert forall|i: int| 0 <= i < files.len() && pointer_in(
        (#[trigger] files[i]).1@,
    ) is Some implies indexes_bytes(r, files[i].0@, files[i].1@) by {
        assert(said[i] == (files[i].0@, info_in(files[i].1@)));
        let j = choose|j: int|
            0 <= j < r.entries@.len() && (#[trigger] r.entries@[j])@ == (PointerView {
                path: said[i].0,
                file_info: said[i].1->0,
            });
        assert(r.entries@[j].file_info@ == info_of(pointer_in(files[i].1@)->0));
    }
    assert forall|j: int| 0 <= j < r.entries@.len() implies comes_from_file(
        files,
        #[trigger] r.entries@[j],
    ) by {
        let i = choose|i: int|
            0 <= i < said.len() && (#[trigger] said[i]).1 is Some && r.entries@[j]@ == (
            PointerView { path: said[i].0, file_info: said[i].1->0 });
        assert(said[i] == (files[i].0@, info_in(files[i].1@)));
        assert(r.entries@[j].file_info@ == info_of(pointer_in(files[i].1@)->0));
    }
}

/// Every file of a commit whose bytes are a pointer, at whatever path, has an entry in the
/// index with that path and with what the bytes say; every entry comes from such a file; and
/// there are as many entries as such files.
pub proof fn law_build_pointer_index(
    git_sha: &str,
    repo_id: &str,
    files: &Vec<(String, Vec<u8>)>,
    r: PointerIndex,
)
    requires
        call_ensures(build_pointer_index, (git_sha, repo_id, files), r),
    ensures
        r.repo_id@ == repo_id@,
        r.git_sha@ == git_sha@,
        forall|i: int|
            0 <= i < files@.len() && pointer_in((#[trigger] files@[i]).1@) is Some
                ==> indexes_bytes(r, files@[i].0@, files@[i].1@),
        forall|j: int|
            0 <= j < r.entries@.len() ==> comes_from_file(files@, #[trigger] r.entries@[j]),
        r.entries@.len() == pointer_files_among(files@),
{
    lemma_index_of_files(files@, r);
}

/// An index that is kept is used as it is, and nothing is built; where none is kept, it is
/// that of the files of the commit, and new.
pub proof fn law_load_or_build_pointer_index(
    cached: Option<PointerIndex>,
    git_sha: &str,
    repo_id: &str,
    files: &Vec<(String, Vec<u8>)>,
    r: (PointerIndex, bool),
)
    requires
        call_ensures(load_or_build_pointer_index, (cached, git_sha, repo_id, files), r),
    ensures
        cached matches Some(index) ==> r.0 == index && !r.1,
        cached is None ==> {
            &&& r.1
            &&& r.0.repo_id@ == repo_id@
            &&& r.0.git_sha@ == git_sha@
            &&& forall|i: int|
                0 <= i < files@.len() && pointer_in((#[trigger] files@[i]).1@) is Some
                    ==> indexes_bytes(r.0, files@[i].0@, files@[i].1@)
            &&& forall|j: int|
                0 <= j < r.0.entries@.len() ==> comes_from_file(files@, #[trigger] r.0.entries@[j])
            &&& r.0.entries@.len() == pointer_files_among(files@)
        },
{
    if cached is None {
        lemma_index_of_files(files@, r.0);
    }
}

/// A hexadecimal digit, with a small or a capital letter.
pub open spec fn is_hex_digit(c: char) -> bool {
    48 <= c as int <= 57 || 97 <= c as int <= 102 || 65 <= c as int <= 70
}

/// The data of a pointer can be asked for exactly if its hash is 64 hexadecimal digits, and
/// it is asked for by that hash.
pub proof fn law_merkle_hash(info: &XetFileInfo, r: Result<String, Error>)
    requires
        call_ensures(merkle_hash, (info,), r),
    ensures
        r is Ok <==> (info.hash matches Some(h) && h@.len() == 64 && forall|i: int|
            0 <= i < 64 ==> is_hex_digit(#[trigger] h@[i])),
        r matches Ok(hash) ==> info.hash.deep_view() == Some(hash@),
        r matches Err(e) ==> e@ == "Xet hash is corrupted"@,
{
    if let Some(h) = info.hash {
        if h@.len() == 64 && forall|i: int| 0 <= i < 64 ==> is_hex_digit(#[trigger] h@[i]) {
            assert forall|i: int| 0 <= i < h@.len() implies crate::sync::refs::is_hex(
                #[trigger] h@[i],
            ) by {
                assert(is_hex_digit(h@[i]));
            }
        }
    }
}

/// The name of a JSON file is what stands before `.json`, and nothing else has one.
pub proof fn law_json_stem(name: &str, r: Option<String>)
    requires
        call_ensures(json_stem, (name,), r),
    ensures
        r matches Some(stem) ==> stem@.len() > 0 && name@ == stem@ + ".json"@,
        forall|stem: Seq<char>|
            stem.len() > 0 && name@ == #[trigger] (stem + ".json"@) ==> (r matches Some(s) && s@
                == stem),
{
    reveal_strlit(".json");
    if let Some(stem) = r {
        assert(name@ =~= stem@ + ".json"@);
    }
    assert forall|stem: Seq<char>| stem.len() > 0 && name@ == #[trigger] (stem
        + ".json"@) implies (r matches Some(s) && s@ == stem) by {
        assert(name@.skip(name@.len() - 5) =~= ".json"@);
        assert(name@.take(name@.len() - 5) =~= stem);
    }
}

/// The path has the hash in it, or the first 16 bytes of one that is as long, whatever the
/// case of the letters in either. White space around the hash does not count.
pub open spec fn carries(path: Seq<char>, hash: Seq<char>) -> bool {
    let t = lower_text(trim_text(hash));
    ||| exists|a: Seq<char>, b: Seq<char>| lower_text(path) == #[trigger] (a + t + b)
    ||| encode_utf8(t).len() >= 16 && exists|a: Seq<char>, b: Seq<char>|
        lower_text(path) == #[trigger] (a + decode_utf8(encode_utf8(t).take(16)) + b)
}

/// The pointer gives this hash, and there is something to it.
pub open spec fn gives(info: XetFileInfo, hash: Seq<char>) -> bool {
    &&& info.hash.deep_view() == Some(hash) || info.cas_hash.deep_view() == Some(hash)
        || info.content_hash.deep_view() == Some(hash)
    &&& trim_text(hash).len() > 0
}

/// The path carries one of the hashes that the pointer gives.
pub open spec fn carries_one(path: Seq<char>, info: XetFileInfo) -> bool {
    exists|hash: Seq<char>| #[trigger] gives(info, hash) && carries(path, hash)
}

/// The pointer gives a hash at all.
pub open spec fn gives_some(info: XetFileInfo) -> bool {
    exists|hash: Seq<char>| #[trigger] gives(info, hash)
}

/// The file is one of the store that takes part.
pub open spec fn in_store(files: Seq<String>, path: Seq<char>) -> bool {
    is_among(files, path) && included(path)
}

proof fn lemma_tokens(path: Seq<char>, hash: Option<Seq<char>>)
    ensures
        tokens_of(hash).len() > 0 <==> (hash matches Some(h) && trim_text(h).len() > 0),
        names_token(path, tokens_of(hash)) <==> (hash matches Some(h) && trim_text(h).len() > 0
            && carries(path, h)),
{
    if let Some(h) = hash {
        let t = lower_text(trim_text(h));
        assert(t.len() == trim_text(h).len());
        let low = lower_text(path);
        let tokens = tokens_of(hash);
        if t.len() > 0 {
            assert(tokens[0] == t);
            if carries(path, h) {
                if exists|a: Seq<char>, b: Seq<char>| low == #[trigger] (a + t + b) {
                    let (a, b) = choose|a: Seq<char>, b: Seq<char>| low == #[trigger] (a + t + b);
                    lemma_part_between(a, t, b);
                    assert(has_part(low, tokens[0]));
                } else {
                    let c = first_16(t);
                    let (a, b) = choose|a: Seq<char>, b: Seq<char>| low == #[trigger] (a + c + b);
                    lemma_part_between(a, c, b);
                    assert(tokens[1] == c);
                    assert(has_part(low, tokens[1]));
                }
            }
            if names_token(path, tokens) {
                let i = choose|i: int| 0 <= i < tokens.len() && has_part(low, #[trigger] tokens[i]);
                lemma_part_splits(low, tokens[i]);
            }
        }
    }
}

proof fn lemma_names_joined(path: Seq<char>, a: Seq<Seq<char>>, b: Seq<Seq<char>>)
    ensures
        names_token(path, a + b) <==> names_token(path, a) || names_token(path, b),
{
    let low = lower_text(path);
    if names_token(path, a) {
        let i = choose|i: int| 0 <= i < a.len() && has_part(low, #[trigger] a[i]);
        assert((a + b)[i] == a[i]);
    }
    if names_token(path, b) {
        let i = choose|i: int| 0 <= i < b.len() && has_part(low, #[trigger] b[i]);
        assert((a + b)[a.len() + i] == b[i]);
    }
    if names_token(path, a + b) {
        let i = choose|i: int| 0 <= i < (a + b).len() && has_part(low, #[trigger] (a + b)[i]);
        if i < a.len() {
            assert(has_part(low, a[i]));
        } else {
            assert(has_part(low, b[i - a.len()]));
        }
    }
}

proof fn lemma_pointer_tokens(path: Seq<char>, info: XetFileInfo)
    ensures
        pointer_tokens(info@).len() > 0 <==> gives_some(info),
        names_token(path, pointer_tokens(info@)) <==> carries_one(path, info),
{
    let (x, y, z) = (info@.hash, info@.cas_hash, info@.content_hash);
    lemma_tokens(path, x);
    lemma_tokens(path, y);
    lemma_tokens(path, z);
    lemma_names_joined(path, tokens_of(x), tokens_of(y));
    lemma_names_joined(path, tokens_of(x) + tokens_of(y), tokens_of(z));
    if tokens_of(x).len() > 0 {
        assert(gives(info, x->0));
    }
    if tokens_of(y).len() > 0 {
        assert(gives(info, y->0));
    }
    if tokens_of(z).len() > 0 {
        assert(gives(info, z->0));
    }
    if gives_some(info) {
        let h = choose|h: Seq<char>| #[trigger] gives(info, h);
        assert(x == Some(h) || y == Some(h) || z == Some(h));
    }
    if carries_one(path, info) {
        let h = choose|h: Seq<char>| #[trigger] gives(info, h) && carries(path, h);
        assert(x == Some(h) || y == Some(h) || z == Some(h));
    }
}

/// The pointer needs the file: its path carries one of the pointer's hashes or, where no
/// path in the store does, the file is a block of data and the pointer gives a hash.
pub open spec fn needs(files: Seq<String>, info: XetFileInfo, path: Seq<char>) -> bool {
    &&& in_store(files, path)
    &&& carries_one(path, info) || (gives_some(info) && begins_xorbs(path) && forall|q: Seq<char>|
        #[trigger] in_store(files, q) ==> !carries_one(q, info))
}

/// The path is one below the directory of the blocks.
pub open spec fn begins_xorbs(path: Seq<char>) -> bool {
    exists|rest: Seq<char>| path == #[trigger] ("xorbs/"@ + rest)
}

proof fn lemma_wanted(files: Seq<String>, store: Seq<Seq<char>>, info: XetFileInfo, path: Seq<char>)
    requires
        forall|q: Seq<char>| #[trigger] store.contains(q) <==> in_store(files, q),
    ensures
        wanted(store, pointer_tokens(info@)).contains(path) <==> needs(files, info, path),
{
    let tokens = pointer_tokens(info@);
    let named = |q: Seq<char>| names_token(q, tokens);
    let block = |q: Seq<char>| "xorbs/"@.is_prefix_of(q);
    let hits = store.filter(named);
    lemma_pointer_tokens(path, info);
    lemma_prefix(path, "xorbs/"@);
    assert(hits.contains(path) <==> store.contains(path) && named(path)) by {
        if hits.contains(path) {
            store.lemma_filter_contains_rev(named, path);
            let i = choose|i: int| 0 <= i < hits.len() && hits[i] == path;
            store.lemma_filter_pred(named, i);
        }
        if store.contains(path) && named(path) {
            let i = choose|i: int| 0 <= i < store.len() && store[i] == path;
            store.lemma_filter_contains(named, i);
        }
    }
    assert(store.filter(block).contains(path) <==> store.contains(path) && block(path)) by {
        if store.filter(block).contains(path) {
            store.lemma_filter_contains_rev(block, path);
            let i = choose|i: int| 0 <= i < store.filter(block).len() && store.filter(block)[i]
                == path;
            store.lemma_filter_pred(block, i);
        }
        if store.contains(path) && block(path) {
            let i = choose|i: int| 0 <= i < store.len() && store[i] == path;
            store.lemma_filter_contains(block, i);
        }
    }
    if hits.len() > 0 {
        let q = hits[0];
        assert(hits.contains(q));
        store.lemma_filter_contains_rev(named, q);
        store.lemma_filter_pred(named, 0);
        lemma_pointer_tokens(q, info);
        assert(in_store(files, q) && carries_one(q, info));
    } else {
        assert forall|q: Seq<char>| #[trigger] in_store(files, q) implies !carries_one(q, info) by {
            lemma_pointer_tokens(q, info);
            if carries_one(q, info) {
                assert(store.contains(q));
                let i = choose|i: int| 0 <= i < store.len() && store[i] == q;
                store.lemma_filter_contains(named, i);
            }
        }
    }
    if carries_one(path, info) {
        let h = choose|h: Seq<char>| #[trigger] gives(info, h) && carries(path, h);
        assert(gives_some(info));
    }
}

/// The file is one that one of the pointers of the index needs.
pub open spec fn is_needed(files: Seq<String>, index: PointerIndex, path: Seq<char>) -> bool {
    exists|i: int|
        0 <= i < index.entries@.len() && needs(
            files,
            (#[trigger] index.entries@[i]).file_info,
            path,
        )
}

/// A plan that is made by the names of the files in a store requires exactly the files that
/// one of the pointers needs. A pointer that gives a hash needs every file whose path
/// carries the hash, and where there is none, every file below `xorbs/`. What is required is
/// in ascending order, and comes once.
pub proof fn law_plan_requires_what_is_needed<R: CasReader>(
    files: Vec<String>,
    names: PointerHashHydrator,
    index: &PointerIndex,
    cas_root: &str,
    git_sha: &str,
    reader: R,
    hydrator: &mut PointerHashHydrator,
    plan: ReachabilityPlan,
)
    requires
        call_ensures(PointerHashHydrator::new, (files,), names),
        *old(hydrator) == names,
        call_ensures(
            plan_reachable_cas::<R, PointerHashHydrator>,
            (index, cas_root, git_sha, reader, hydrator),
            Ok::<ReachabilityPlan, Error>(plan),
        ),
    ensures
        plan.git_sha@ == git_sha@,
        forall|path: Seq<char>|
            is_among(plan.required_cas_relpaths@, path) <==> #[trigger] is_needed(
                files@,
                *index,
                path,
            ),
        forall|i: int, j: int|
            0 <= i < j < plan.required_cas_relpaths@.len() ==> comes_first(
                (#[trigger] plan.required_cas_relpaths@[i])@,
                (#[trigger] plan.required_cas_relpaths@[j])@,
            ),
        plan.pointer_paths@.len() == index.entries@.len(),
        forall|i: int|
            0 <= i < index.entries@.len() ==> is_among(
                plan.pointer_paths@,
                (#[trigger] index.entries@[i]).path@,
            ),
        forall|j: int|
            0 <= j < plan.pointer_paths@.len() ==> is_path_of(
                index.entries@,
                (#[trigger] plan.pointer_paths@[j])@,
            ),
{
    let entries = pointer_views(index.entries@);
    let store = names@;
    let listed = texts(files@).filter(|p: Seq<char>| included(p));
    let same = |p: Seq<char>| p;
    let required = texts(plan.required_cas_relpaths@);
    let reads = choose|reads: Seq<CasRead>|
        {
            &&& #[trigger] made_in(cas_root@, reads)
            &&& made_by::<R>(reads)
            &&& hydrated(entries, *old(hydrator), *final(hydrator), reads)
            &&& lists_set(required, read_well(reads))
        };
    lemma_plan_requires_what_is_needed(entries, *old(hydrator), *final(hydrator), reads);
    assert forall|q: Seq<char>| #[trigger] store.contains(q) <==> in_store(files@, q) by {
        let part = |p: Seq<char>| included(p);
        if store.contains(q) {
            let i = choose|i: int| 0 <= i < store.len() && store[i] == q;
            lemma_by_key_lists(listed, store, same, i);
            texts(files@).lemma_filter_contains_rev(part, q);
            let n = choose|n: int| 0 <= n < listed.len() && listed[n] == q;
            texts(files@).lemma_filter_pred(part, n);
            let m = choose|m: int| 0 <= m < texts(files@).len() && texts(files@)[m] == q;
            assert(files@[m]@ == q);
        }
        if in_store(files@, q) {
            let m = choose|m: int| 0 <= m < files@.len() && (#[trigger] files@[m])@ == q;
            assert(texts(files@)[m] == q);
            texts(files@).lemma_filter_contains(part, m);
            lemma_order_lists_all(listed, store, same, q);
        }
    }
    assert forall|path: Seq<char>|
        is_among(plan.required_cas_relpaths@, path) <==> #[trigger] is_needed(
            files@,
            *index,
            path,
        ) by {
        assert(is_among(plan.required_cas_relpaths@, path) <==> required.contains(path)) by {
            if is_among(plan.required_cas_relpaths@, path) {
                let n = choose|n: int|
                    0 <= n < plan.required_cas_relpaths@.len() && (
                    #[trigger] plan.required_cas_relpaths@[n])@ == path;
                assert(required[n] == path);
            }
            if required.contains(path) {
                let n = choose|n: int| 0 <= n < required.len() && required[n] == path;
                assert(plan.required_cas_relpaths@[n]@ == path);
            }
        }
        assert(required.contains(path) <==> read_well(reads).contains(path));
        assert(read_well(reads).contains(path) <==> needed_by(store, entries, path));
        if needed_by(store, entries, path) {
            let i = choose|i: int|
                0 <= i < entries.len() && wanted(
                    store,
                    pointer_tokens((#[trigger] entries[i]).file_info),
                ).contains(path);
            lemma_wanted(files@, store, index.entries@[i].file_info, path);
            assert(needs(files@, index.entries@[i].file_info, path));
        }
        if is_needed(files@, *index, path) {
            let i = choose|i: int|
                0 <= i < index.entries@.len() && needs(
                    files@,
                    (#[trigger] index.entries@[i]).file_info,
                    path,
                );
            lemma_wanted(files@, store, index.entries@[i].file_info, path);
            assert(entries[i].file_info == index.entries@[i].file_info@);
        }
    }
    assert forall|i: int, j: int|
        0 <= i < j < plan.required_cas_relpaths@.len() implies comes_first(
        (#[trigger] plan.required_cas_relpaths@[i])@,
        (#[trigger] plan.required_cas_relpaths@[j])@,
    ) by {
        assert(required[i] == plan.required_cas_relpaths@[i]@);
        assert(required[j] == plan.required_cas_relpaths@[j]@);
        lemma_lt_decides(required[i], required[j]);
    }
    let paths = pointer_paths_of(entries);
    let told = texts(plan.pointer_paths@);
    lemma_order_keeps_count(paths, told, same);
    assert forall|i: int| 0 <= i < index.entries@.len() implies is_among(
        plan.pointer_paths@,
        (#[trigger] index.entries@[i]).path@,
    ) by {
        let p = index.entries@[i].path@;
        assert(paths[i] == p);
        assert(paths.contains(p));
        lemma_order_lists_all(paths, told, same, p);
        let n = choose|n: int| 0 <= n < told.len() && told[n] == p;
        assert(plan.pointer_paths@[n]@ == p);
    }
    assert forall|j: int| 0 <= j < plan.pointer_paths@.len() implies is_path_of(
        index.entries@,
        (#[trigger] plan.pointer_paths@[j])@,
    ) by {
        assert(told[j] == plan.pointer_paths@[j]@);
        lemma_by_key_lists(paths, told, same, j);
        let i = choose|i: int| 0 <= i < paths.len() && paths[i] == told[j];
        assert(index.entries@[i].path@ == paths[i]);
    }
}

/// The path is that of one of the pointers.
pub open spec fn is_path_of(entries: Seq<PointerEntry>, path: Seq<char>) -> bool {
    exists|i: int| 0 <= i < entries.len() && (#[trigger] entries[i]).path@ == path
}

/// A plan fails only where a file of the store that a pointer needs cannot be read, and with
/// that error.
pub proof fn law_plan_fails<R: CasReader>(
    index: &PointerIndex,
    cas_root: &str,
    git_sha: &str,
    reader: R,
    hydrator: &mut PointerHashHydrator,
    e: Error,
)
    requires
        call_ensures(
            plan_reachable_cas::<R, PointerHashHydrator>,
            (index, cas_root, git_sha, reader, hydrator),
            Err::<ReachabilityPlan, Error>(e),
        ),
    ensures
        exists|relpath: Seq<char>| #[trigger]
            R::answers(join(cas_root@, relpath), Err::<(), Seq<char>>(e@)),
{
    let entries = pointer_views(index.entries@);
    let reads = choose|reads: Seq<CasRead>|
        {
            &&& #[trigger] made_in(cas_root@, reads)
            &&& made_by::<R>(reads)
            &&& hydration_failed(entries, *old(hydrator), *final(hydrator), reads, e@)
        };
    let (n, mid, k) = choose|n: int, mid: PointerHashHydrator, k: int|
        {
            &&& 0 <= n < entries.len()
            &&& 0 <= k <= reads.len()
            &&& hydrated(entries.take(n), *old(hydrator), mid, reads.take(k))
            &&& #[trigger] PointerHashHydrator::hydrates(
                mid,
                *final(hydrator),
                (#[trigger] entries[n]).file_info,
                reads.skip(k),
                Err(e@),
            )
        };
    let last = reads[reads.len() - 1];
    assert(reads.skip(k).last() == last);
    assert(last.path == join(cas_root@, last.relpath));
    assert(R::answers(join(cas_root@, last.relpath), Err::<(), Seq<char>>(e@)));
}

/// A pointer that gives a hash which no path in the store carries needs every file below
/// `xorbs/`, at whatever depth; one whose hash is carried needs every file that carries it.
pub proof fn law_what_a_pointer_needs<R: CasReader>(
    files: Vec<String>,
    names: PointerHashHydrator,
    index: &PointerIndex,
    cas_root: &str,
    git_sha: &str,
    reader: R,
    hydrator: &mut PointerHashHydrator,
    plan: ReachabilityPlan,
    i: int,
    path: Seq<char>,
)
    requires
        call_ensures(PointerHashHydrator::new, (files,), names),
        *old(hydrator) == names,
        call_ensures(
            plan_reachable_cas::<R, PointerHashHydrator>,
            (index, cas_root, git_sha, reader, hydrator),
            Ok::<ReachabilityPlan, Error>(plan),
        ),
        0 <= i < index.entries@.len(),
        gives_some(index.entries@[i].file_info),
        in_store(files@, path),
    ensures
        carries_one(path, index.entries@[i].file_info) ==> is_among(
            plan.required_cas_relpaths@,
            path,
        ),
        "xorbs/"@.is_prefix_of(path) && (forall|q: Seq<char>| #[trigger]
            in_store(files@, q) ==> !carries_one(q, index.entries@[i].file_info)) ==> is_among(
            plan.required_cas_relpaths@,
            path,
        ),
{
    law_plan_requires_what_is_needed(
        files,
        names,
        index,
        cas_root,
        git_sha,
        reader,
        hydrator,
        plan,
    );
    lemma_prefix(path, "xorbs/"@);
    assert(is_needed(files@, *index, path) <== needs(files@, index.entries@[i].file_info, path));
}

} // verus!
