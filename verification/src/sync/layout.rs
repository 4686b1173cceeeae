//! Which files of a content store take part in synchronisation.

use vstd::prelude::*;

use crate::order::{by_key, lemma_sorted_views, sorted};
use crate::text::{before_first, begins_with, chars_of, first_of, lemma_first_of, same_text, text_of};

verus! {

/// A component that is no name: empty, the current directory or the one above.
pub open spec fn is_no_name(c: Seq<char>) -> bool {
    c == ""@ || c == "."@ || c == ".."@
}

/// The first component of a path that is a name.
pub open spec fn first_name(p: Seq<char>) -> Option<Seq<char>>
    decreases p.len(),
{
    let k = first_of(p, '/');
    let head = p.take(k);
    if !is_no_name(head) {
        Some(head)
    } else if 0 <= k < p.len() {
        first_name(p.skip(k + 1))
    } else {
        None
    }
}

/// The first component of a path that is a name.
pub fn first_component(path: &str) -> (r: Option<String>)
    ensures
        r.deep_view() == first_name(path@),
    decreases path@.len(),
{
    let head = before_first(path, '/');
    let v = chars_of(path);
    let k: usize = chars_of(head.as_str()).len();
    proof {
        lemma_first_of(path@, '/');
    }
    if !(same_text(head.as_str(), "") || same_text(head.as_str(), ".") || same_text(
        head.as_str(),
        "..",
    )) {
        return Some(head);
    }
    if k < v.len() {
        let rest = text_of(&v, k + 1, v.len());
        first_component(rest.as_str())
    } else {
        None
    }
}

/// The directories at the top of a content store that take part.
pub open spec fn in_allowlist(name: Seq<char>) -> bool {
    name == "cas"@ || name == "shards"@ || name == "mdb"@ || name == "xorbs"@ || name
        == "merkledb"@
}

/// Whether the top directory `name` takes part.
pub fn allowlisted(name: &str) -> (r: bool)
    ensures
        r == in_allowlist(name@),
{
    same_text(name, "cas") || same_text(name, "shards") || same_text(name, "mdb") || same_text(
        name,
        "xorbs",
    ) || same_text(name, "merkledb")
}

/// A file takes part if it lies below one of the listed directories; the lookup database
/// among the xorbs does not.
pub open spec fn included(rel_path: Seq<char>) -> bool {
    &&& first_name(rel_path) matches Some(first) && in_allowlist(first)
    &&& !"xorbs/global_dedup_lookup.db/"@.is_prefix_of(rel_path)
}

/// Whether the file at `rel_path` takes part.
pub fn sync_included(rel_path: &str) -> (r: bool)
    ensures
        r == included(rel_path@),
{
    match first_component(rel_path) {
        None => false,
        Some(first) => {
            if !allowlisted(first.as_str()) {
                return false;
            }
            !begins_with(rel_path, "xorbs/global_dedup_lookup.db/")
        },
    }
}

/// A directory name with whether it takes part, by view.
pub open spec fn dir_views(s: Seq<(String, bool)>) -> Seq<(Seq<char>, bool)> {
    s.map_values(|p: (String, bool)| (p.0@, p.1))
}

/// The directories at the top of a content store by name, each with whether it takes
/// part.
pub fn describe_cas_tree(dirs: Vec<String>) -> (r: Vec<(String, bool)>)
    ensures
        by_key(
            dirs@.map_values(|d: String| (d@, in_allowlist(d@))),
            dir_views(r@),
            |p: (Seq<char>, bool)| p.0,
        ),
{
    let mut out: Vec<(String, bool)> = Vec::new();
    let mut i: usize = 0;
    let ghost told = dirs@.map_values(|d: String| (d@, in_allowlist(d@)));
    while i < dirs.len()
        invariant
            i <= dirs@.len(),
            told == dirs@.map_values(|d: String| (d@, in_allowlist(d@))),
            dir_views(out@) == told.take(i as int),
        decreases dirs@.len() - i,
    {
        let yes = allowlisted(dirs[i].as_str());
        out.push((dirs[i].clone(), yes));
        proof {
            assert(told.take(i + 1) =~= told.take(i as int).push(told[i as int]));
        }
        i += 1;
    }
    let r = sorted(out);
    proof {
        assert(dir_views(out@) =~= told);
        lemma_sorted_views(
            out@,
            r@,
            |p: (String, bool)| (p.0@, p.1),
            |p: (Seq<char>, bool)| p.0,
        );
    }
    r
}

} // verus!
