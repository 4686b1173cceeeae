//! Laws of the small parts: maps and sets of texts, sorting, and single answers.

use vstd::prelude::*;
use vstd::utf8::*;

use crate::commands::push::copied_line_of;
use crate::commands::setup::validation_copies;
use crate::commands::smudge::{smudge_pointer, SmudgeEnd, SmudgeStep};
use crate::error::Error;
use crate::files::{misfit, no_parent, random_suffix, AtomicPut, Filling, Step};
use crate::git::head_sha;
use crate::hash::sha256_text;
use crate::keyed::{TextMap, TextSet};
use crate::laws::local::puts;
use crate::laws::store::is_among;
use crate::laws::text::{comes_first, is_core, lemma_lt_decides, lemma_trim_is_core};
use crate::order::{lemma_order_keeps_count, sorted};
use crate::paths::{join, parent_of};
use crate::pointers::{
    cache_pointer_index, list_cached_pointer_indexes, pointer_cache_path, PointerIndex, XetFileInfo,
};
use crate::reachability::{pointer_can_be_cut, token};
use crate::remote::{FilesystemRemoteStore, RemoteCapabilities};
use crate::repo::at_line_end;
use crate::sync::refs::sha_line_of;
use crate::sync::transfer::{judge_hash, SyncSummary};
use crate::text::{decimal, lower_text, text_le, texts, trim_text};

verus! {

/// What was put under a key is what is found there, until something else is put there; what
/// is under other keys stays.
pub proof fn law_map<V>(
    m: &mut TextMap<V>,
    key: String,
    value: V,
    before: &TextMap<V>,
    after: &TextMap<V>,
    k: &str,
    found: Option<&V>,
    earlier: Option<&V>,
)
    requires
        call_ensures(TextMap::<V>::insert, (m, key, value), ()),
        *before == *old(m),
        *after == *final(m),
        call_ensures(TextMap::<V>::get, (after, k), found),
        call_ensures(TextMap::<V>::get, (before, k), earlier),
    ensures
        k@ == key@ ==> (found matches Some(v) && *v == value),
        k@ != key@ ==> match (found, earlier) {
            (Some(a), Some(b)) => *a == *b,
            (None, None) => true,
            _ => false,
        },
{
}

/// A new map has nothing in it. The keys are told in ascending order, each once, and a key is
/// told exactly if something is found under it.
pub proof fn law_map_keys<V>(
    m: &TextMap<V>,
    keys: Vec<String>,
    k: &str,
    found: Option<&V>,
    i: int,
    j: int,
    fresh: TextMap<V>,
    none: &TextMap<V>,
    nothing: Option<&V>,
)
    requires
        call_ensures(TextMap::<V>::keys, (m,), keys),
        call_ensures(TextMap::<V>::get, (m, k), found),
        call_ensures(TextMap::<V>::new, (), fresh),
        *none == fresh,
        call_ensures(TextMap::<V>::get, (none, k), nothing),
    ensures
        is_among(keys@, k@) <==> found is Some,
        0 <= i < j < keys@.len() ==> comes_first(keys@[i]@, keys@[j]@),
        nothing is None,
{
    lemma_among(keys@, k@);
    assert(texts(keys@).contains(k@) <==> m@.dom().contains(k@));
    if 0 <= i < j < keys@.len() {
        assert(texts(keys@)[i] == keys@[i]@ && texts(keys@)[j] == keys@[j]@);
        lemma_lt_decides(keys@[i]@, keys@[j]@);
    }
}

proof fn lemma_among(list: Seq<String>, t: Seq<char>)
    ensures
        is_among(list, t) <==> texts(list).contains(t),
{
    if is_among(list, t) {
        let n = choose|n: int| 0 <= n < list.len() && (#[trigger] list[n])@ == t;
        assert(texts(list)[n] == t);
    }
    if texts(list).contains(t) {
        let n = choose|n: int| 0 <= n < texts(list).len() && texts(list)[n] == t;
        assert(list[n]@ == t);
    }
}

/// A set holds what was put into it, and what it held; its members are told in ascending
/// order, each once.
pub proof fn law_set(
    s: &mut TextSet,
    text: String,
    before: &TextSet,
    after: &TextSet,
    t: &str,
    held: bool,
    holds: bool,
    members: Vec<String>,
    i: int,
    j: int,
    fresh: TextSet,
    none: &TextSet,
    empty: bool,
)
    requires
        call_ensures(TextSet::insert, (s, text), ()),
        *before == *old(s),
        *after == *final(s),
        call_ensures(TextSet::contains, (before, t), held),
        call_ensures(TextSet::contains, (after, t), holds),
        call_ensures(TextSet::members, (after,), members),
        call_ensures(TextSet::new, (), fresh),
        *none == fresh,
        call_ensures(TextSet::contains, (none, t), empty),
    ensures
        holds <==> held || t@ == text@,
        is_among(members@, t@) <==> holds,
        0 <= i < j < members@.len() ==> comes_first(members@[i]@, members@[j]@),
        !empty,
{
    lemma_among(members@, t@);
    assert(texts(members@).contains(t@) <==> after@.contains(t@));
    if 0 <= i < j < members@.len() {
        assert(texts(members@)[i] == members@[i]@ && texts(members@)[j] == members@[j]@);
        lemma_lt_decides(members@[i]@, members@[j]@);
    }
}

/// Sorted texts, and what a store on a file system lists, are the same texts, each as often,
/// in ascending order.
pub proof fn law_sorted(
    v: Vec<String>,
    r: Vec<String>,
    store: &FilesystemRemoteStore,
    listed: Vec<String>,
    caps: RemoteCapabilities,
    i: int,
    j: int,
)
    requires
        call_ensures(sorted::<String>, (v,), r),
        call_ensures(FilesystemRemoteStore::list_prefix, (store, v), listed),
        call_ensures(FilesystemRemoteStore::capabilities, (store,), caps),
    ensures
        r@.to_multiset() == v@.to_multiset(),
        listed@.to_multiset() == v@.to_multiset(),
        0 <= i < j < r@.len() ==> !comes_first(r@[j]@, r@[i]@),
        0 <= i < j < listed@.len() ==> !comes_first(listed@[j]@, listed@[i]@),
        caps.supports_locking && caps.supports_list_prefix,
{
    if 0 <= i < j < r@.len() {
        assert(text_le(r@[i]@, r@[j]@));
        lemma_lt_decides(r@[j]@, r@[i]@);
    }
    if 0 <= i < j < listed@.len() {
        assert(text_le(listed@[i]@, listed@[j]@));
        lemma_lt_decides(listed@[j]@, listed@[i]@);
    }
}

/// The indexes of pointers that are kept are all listed, by commit.
pub proof fn law_list_cached_pointer_indexes(
    found: Vec<PointerIndex>,
    r: Vec<PointerIndex>,
    i: int,
    j: int,
)
    requires
        call_ensures(list_cached_pointer_indexes, (found,), r),
    ensures
        r@.to_multiset() == found@.to_multiset(),
        r@.len() == found@.len(),
        0 <= i < j < r@.len() ==> !comes_first(r@[j].git_sha@, r@[i].git_sha@),
{
    let key = |p: PointerIndex| p.git_sha@;
    lemma_order_keeps_count(found@, r@, key);
    if 0 <= i < j < r@.len() {
        assert(text_le(key(r@[i]), key(r@[j])));
        lemma_lt_decides(r@[j].git_sha@, r@[i].git_sha@);
    }
}

/// An index of pointers is kept at its place.
pub proof fn law_cache_pointer_index(
    root: &str,
    sha: &str,
    json: &str,
    pid: u32,
    suffix: &str,
    r: Step<AtomicPut, ()>,
    place: String,
    dest: &str,
    up: Option<String>,
)
    requires
        call_ensures(cache_pointer_index, (root, sha, json, pid, suffix), r),
        call_ensures(pointer_cache_path, (root, sha), place),
        dest@ == place@,
        call_ensures(parent_of, (dest,), up),
    ensures
        puts(r, dest, up, pid, suffix, Filling::Bytes { bytes: encode_utf8(json@) }),
{
}

/// The characters are those of ASCII.
pub open spec fn is_plain_text(t: Option<String>) -> bool {
    t matches Some(s) ==> forall|i: int| 0 <= i < s@.len() ==> (#[trigger] s@[i] as int) < 128
}

proof fn lemma_plain_token(t: Seq<char>)
    requires
        forall|i: int| 0 <= i < t.len() ==> (#[trigger] t[i] as int) < 128,
    ensures
        crate::reachability::cut_at_16(token(t)),
{
    let core = trim_text(t);
    let low = token(t);
    lemma_trim_is_core(t);
    assert forall|i: int| 0 <= i < core.len() implies (#[trigger] core[i] as int) < 128 by {
        assert(t.contains(core[i])) by {
            lemma_core_within(t, core, i);
        }
        let n = choose|n: int| 0 <= n < t.len() && t[n] == core[i];
        assert((t[n] as int) < 128);
    }
    assert forall|i: int| 0 <= i < low.len() implies '\0' <= #[trigger] low[i] <= '\u{7f}' by {
        assert((core[i] as int) < 128);
    }
    assert(is_ascii_chars(low));
    is_ascii_chars_encode_utf8(low);
    let bytes = encode_utf8(low);
    encode_utf8_valid_utf8(low);
    if bytes.len() == 16 {
        is_char_boundary_start_end_of_seq(bytes);
    } else if bytes.len() > 16 {
        assert(bytes[16] == low[16] as u8);
        let b = bytes[16];
        assert(b < 128);
        assert(!is_continuation_byte(b));
        is_char_boundary_iff_not_is_continuation_byte(bytes, 16);
    }
}

proof fn lemma_core_within(t: Seq<char>, core: Seq<char>, i: int)
    requires
        is_core(t, core),
        0 <= i < core.len(),
    ensures
        t.contains(core[i]),
{
    let (a, b) = choose|a: Seq<char>, b: Seq<char>|
        t == #[trigger] (a + core + b) && crate::laws::text::is_blank(a)
            && crate::laws::text::is_blank(b);
    assert(t[a.len() + i] == core[i]);
}

/// The hashes of a pointer that are ASCII texts can always be cut to their first sixteen
/// bytes.
pub proof fn law_hashes_can_be_cut(p: &XetFileInfo, r: bool)
    requires
        call_ensures(pointer_can_be_cut, (p,), r),
        is_plain_text(p.hash),
        is_plain_text(p.cas_hash),
        is_plain_text(p.content_hash),
    ensures
        r,
{
    if let Some(t) = p.hash {
        lemma_plain_token(t@);
    }
    if let Some(t) = p.cas_hash {
        lemma_plain_token(t@);
    }
    if let Some(t) = p.content_hash {
        lemma_plain_token(t@);
    }
}

/// The text is short, or its first characters take sixteen bytes.
pub open spec fn comes_apart(text: Seq<char>) -> bool {
    encode_utf8(text).len() < 16 || exists|k: int|
        0 <= k <= text.len() && encode_utf8(#[trigger] text.take(k)).len() == 16
}

proof fn lemma_boundary(t: Seq<char>, n: int)
    requires
        0 <= n <= encode_utf8(t).len(),
    ensures
        is_char_boundary(encode_utf8(t), n) <==> exists|k: int|
            0 <= k <= t.len() && encode_utf8(#[trigger] t.take(k)).len() == n,
    decreases t.len(),
{
    let bytes = encode_utf8(t);
    encode_utf8_valid_utf8(t);
    if n == 0 {
        assert(encode_utf8(t.take(0)).len() == 0);
    } else {
        let rest = t.drop_first();
        let w = encode_scalar(t[0] as u32).len() as int;
        encode_utf8_first_scalar(t);
        encode_utf8_valid_utf8(rest);
        assert(pop_first_scalar(bytes) =~= encode_utf8(rest));
        assert forall|k: int| 1 <= k <= t.len() implies encode_utf8(#[trigger] t.take(k)).len() == w
            + encode_utf8(rest.take(k - 1)).len() by {
            assert(t.take(k).drop_first() =~= rest.take(k - 1));
        }
        assert(encode_utf8(t.take(0)).len() == 0);
        reveal_with_fuel(is_char_boundary, 2);
        assert(is_char_boundary(bytes, n) == is_char_boundary(encode_utf8(rest), n - w));
        if n >= w {
            lemma_boundary(rest, n - w);
            if is_char_boundary(bytes, n) {
                let k = choose|k: int|
                    0 <= k <= rest.len() && encode_utf8(#[trigger] rest.take(k)).len() == n - w;
                assert(encode_utf8(t.take(k + 1)).len() == n);
            }
            if exists|k: int| 0 <= k <= t.len() && encode_utf8(#[trigger] t.take(k)).len() == n {
                let k = choose|k: int|
                    0 <= k <= t.len() && encode_utf8(#[trigger] t.take(k)).len() == n;
                assert(encode_utf8(rest.take(k - 1)).len() == n - w);
            }
        }
    }
}

/// The hashes of a pointer can be cut exactly if each, trimmed and in lower case, is shorter
/// than sixteen bytes or has no character across the end of its sixteenth.
pub proof fn law_hashes_that_cannot_be_cut(p: &XetFileInfo, r: bool)
    requires
        call_ensures(pointer_can_be_cut, (p,), r),
    ensures
        r <==> {
            &&& p.hash matches Some(t) ==> comes_apart(lower_text(trim_text(t@)))
            &&& p.cas_hash matches Some(t) ==> comes_apart(lower_text(trim_text(t@)))
            &&& p.content_hash matches Some(t) ==> comes_apart(lower_text(trim_text(t@)))
        },
{
    if let Some(t) = p.hash {
        lemma_comes_apart(token(t@));
    }
    if let Some(t) = p.cas_hash {
        lemma_comes_apart(token(t@));
    }
    if let Some(t) = p.content_hash {
        lemma_comes_apart(token(t@));
    }
}

proof fn lemma_comes_apart(t: Seq<char>)
    ensures
        crate::reachability::cut_at_16(t) <==> comes_apart(t),
{
    if encode_utf8(t).len() >= 16 {
        lemma_boundary(t, 16);
    }
}

/// What is read of an object is judged by its hash.
pub proof fn law_judge_hash(
    path: &str,
    reply: Result<Option<Vec<u8>>, Error>,
    sha256: &str,
    r: Result<bool, Error>,
)
    requires
        call_ensures(judge_hash, (path, reply, sha256), r),
    ensures
        reply matches Err(e) ==> (r matches Err(why) && why@ == e@),
        reply matches Ok(None) ==> (r matches Err(why) && why@ == "remote path missing: "@ + path@),
        reply matches Ok(Some(bytes)) ==> {
            &&& sha256_text(bytes@) == sha256@ ==> (r matches Ok(good) && good)
            &&& sha256_text(bytes@) != sha256@ ==> (r matches Err(why) && why@
                == "destination hash mismatch: "@ + path@ + " expected "@ + sha256@ + " got "@
                + sha256_text(bytes@))
        },
{
}

/// Single answers: whether a text ends where a line does, a commit on a line, the commit of
/// HEAD, what is said of a reply that is none and of a place without a directory, and what
/// was copied.
pub proof fn law_single_answers(
    content: &str,
    at_end: bool,
    line: String,
    target: Option<String>,
    head: Result<String, Error>,
    odd: Error,
    orphan: Error,
    summary: SyncSummary,
    copied: String,
)
    requires
        call_ensures(at_line_end, (content,), at_end),
        call_ensures(sha_line_of, (content,), line),
        call_ensures(head_sha, (target,), head),
        call_ensures(misfit, (), odd),
        call_ensures(no_parent, (content,), orphan),
        call_ensures(copied_line_of, (summary,), copied),
    ensures
        at_end <==> content@.len() == 0 || content@.last() == '\n',
        line@ == content@ + "\n"@,
        target matches Some(t) ==> (head matches Ok(h) && h@ == t@),
        target is None ==> (head matches Err(e) && e@ == "invalid HEAD"@),
        odd@ == "unexpected reply to a file request"@,
        orphan@ == "destination has no parent: "@ + content@,
        copied@ == "copied "@ + decimal(summary.files_copied as nat) + " files ("@ + decimal(
            summary.bytes_copied as nat,
        ) + " bytes)"@,
{
}

/// A random suffix has the form of a random UUID: small hexadecimal digits in groups of eight,
/// four, four, four and twelve, with hyphens between, and the marks of such a UUID.
pub proof fn law_random_suffix(r: String, i: int)
    requires
        call_ensures(random_suffix, (), r),
    ensures
        r@.len() == 36,
        i == 8 || i == 13 || i == 18 || i == 23 ==> r@[i] == '-',
        0 <= i < 36 && i != 8 && i != 13 && i != 18 && i != 23 ==> {
            let n = r@[i] as int;
            48 <= n <= 57 || 97 <= n <= 102
        },
        r@[14] == '4',
        r@[19] == '8' || r@[19] == '9' || r@[19] == 'a' || r@[19] == 'b',
{
    let c = r@[i];
}

/// What is copied for a trial goes from below the one store to below the other, file by file.
pub proof fn law_validation_copies(
    from: &str,
    to: &str,
    relpaths: &Vec<String>,
    r: Vec<(String, String)>,
    i: int,
)
    requires
        call_ensures(validation_copies, (from, to, relpaths), r),
    ensures
        r@.len() == relpaths@.len(),
        0 <= i < relpaths@.len() ==> r@[i].0@ == join(from@, relpaths@[i]@) && r@[i].1@ == join(
            to@,
            relpaths@[i]@,
        ),
{
    if 0 <= i < relpaths@.len() {
        let k = r@[i];
    }
}

/// A pointer begins a run of the smudge filter, and what is none is passed through.
pub proof fn law_smudge_pointer(info: Option<XetFileInfo>, path: Option<String>, r: SmudgeStep)
    requires
        call_ensures(smudge_pointer, (info, path), r),
    ensures
        info is None ==> (r matches SmudgeStep::Finished { end } && (
        end matches SmudgeEnd::PassThrough { warning } && warning@
            == "xet-ai: warning: input is not a xet pointer; passing through unchanged"@)),
        info matches Some(said) ==> (r matches SmudgeStep::Ask { ask, then } && ask is Open
            && then@.at is Opening && then@.info == said@ && then@.label == match path {
            Some(p) => p@,
            None => "<unknown>"@,
        }),
{
}

} // verus!
