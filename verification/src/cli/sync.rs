//! Copying the files of a content store that are missing elsewhere, as they are.

use vstd::prelude::*;

use crate::paths::{join, join_path};
use crate::sync::layout::{allowlisted, first_component, first_name, in_allowlist};

pub use crate::sync::layout::describe_cas_tree;

verus! {

/// What was copied.
#[derive(Clone, Copy)]
pub struct SyncSummary {
    pub files_copied: u64,
    pub bytes_copied: u64,
}

impl Default for SyncSummary {
    fn default() -> (r: Self)
        ensures
            r.files_copied == 0,
            r.bytes_copied == 0,
    {
        SyncSummary { files_copied: 0, bytes_copied: 0 }
    }
}

/// The file is in a directory that takes part.
pub open spec fn in_known_dir(rel_path: Seq<char>) -> bool {
    match first_name(rel_path) {
        Some(name) => in_allowlist(name),
        None => false,
    }
}

/// Whether the file is in a directory that takes part.
pub fn sync_included(rel_path: &str) -> (r: bool)
    ensures
        r == in_known_dir(rel_path@),
{
    match first_component(rel_path) {
        Some(name) => allowlisted(name.as_str()),
        None => false,
    }
}

/// A file that was found, and whether it is there already where it would go.
pub struct Found {
    pub relpath: String,
    pub size: u64,
    pub present: bool,
}

/// The file is to be copied.
pub open spec fn is_missing(f: Found) -> bool {
    in_known_dir(f.relpath@) && !f.present
}

/// The copies that are to be made: from where, to where.
pub open spec fn copies(src: Seq<char>, dst: Seq<char>, files: Seq<Found>) -> Seq<
    (Seq<char>, Seq<char>),
>
    decreases files.len(),
{
    if files.len() == 0 {
        Seq::empty()
    } else {
        let before = copies(src, dst, files.drop_last());
        let f = files.last();
        if is_missing(f) {
            before.push((join(src, f.relpath@), join(dst, f.relpath@)))
        } else {
            before
        }
    }
}

/// The bytes that are to be copied.
pub open spec fn missing_bytes(files: Seq<Found>) -> nat
    decreases files.len(),
{
    if files.len() == 0 {
        0
    } else {
        missing_bytes(files.drop_last()) + if is_missing(files.last()) {
            files.last().size as nat
        } else {
            0
        }
    }
}

proof fn lemma_missing_of_part(files: Seq<Found>, k: int)
    requires
        0 <= k < files.len(),
    ensures
        missing_bytes(files.take(k + 1)) <= missing_bytes(files),
    decreases files.len() - k,
{
    if k + 1 < files.len() {
        lemma_missing_of_part(files, k + 1);
        assert(files.take(k + 2).drop_last() =~= files.take(k + 1));
    } else {
        assert(files.take(k + 1) =~= files);
    }
}

/// Paths in pairs, by view.
pub open spec fn pair_views(s: Seq<(String, String)>) -> Seq<(Seq<char>, Seq<char>)> {
    s.map_values(|p: (String, String)| (p.0@, p.1@))
}

/// The copies that are to be made of the files below `src` that are missing below `dst`,
/// and what they amount to. Nothing that is there is replaced.
pub fn copy_missing_recursive(src: &str, dst: &str, files: &Vec<Found>) -> (r: (
    Vec<(String, String)>,
    SyncSummary,
))
    requires
        missing_bytes(files@) <= u64::MAX,
    ensures
        pair_views(r.0@) == copies(src@, dst@, files@),
        r.1.files_copied == copies(src@, dst@, files@).len(),
        r.1.bytes_copied == missing_bytes(files@),
{
    let mut out: Vec<(String, String)> = Vec::new();
    let mut bytes: u64 = 0;
    let mut i: usize = 0;
    while i < files.len()
        invariant
            i <= files@.len(),
            pair_views(out@) == copies(src@, dst@, files@.take(i as int)),
            bytes == missing_bytes(files@.take(i as int)),
            missing_bytes(files@) <= u64::MAX,
        decreases files@.len() - i,
    {
        proof {
            assert(files@.take(i + 1).drop_last() =~= files@.take(i as int));
            lemma_missing_of_part(files@, i as int);
        }
        let f = &files[i];
        if sync_included(f.relpath.as_str()) && !f.present {
            let from = join_path(src, f.relpath.as_str());
            let to = join_path(dst, f.relpath.as_str());
            out.push((from, to));
            bytes = bytes + f.size;
        }
        i += 1;
    }
    proof {
        assert(files@.take(i as int) =~= files@);
    }
    let files_copied: u64 = out.len() as u64;
    (out, SyncSummary { files_copied, bytes_copied: bytes })
}

} // verus!
