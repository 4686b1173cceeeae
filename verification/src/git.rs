//! What is made of the answers that a git repository gives.

use vstd::prelude::*;

use crate::error::{told_text, Error};
use crate::order::{by_key, lemma_sorted_texts, sorted};
use crate::text::texts;

verus! {

/// The root of a working tree. A bare repository has none.
pub fn repo_root(workdir: Option<String>) -> (r: Result<String, Error>)
    ensures
        told_text(r) == match workdir {
            Some(dir) => Ok(dir@),
            None => Err("bare repositories are not supported"@),
        },
{
    match workdir {
        Some(dir) => Ok(dir),
        None => Err(Error::saying("bare repositories are not supported")),
    }
}

/// The commit that HEAD names, if it names one.
pub fn head_sha(target: Option<String>) -> (r: Result<String, Error>)
    ensures
        told_text(r) == match target {
            Some(sha) => Ok(sha@),
            None => Err("invalid HEAD"@),
        },
{
    match target {
        Some(sha) => Ok(sha),
        None => Err(Error::saying("invalid HEAD")),
    }
}

/// The short name of the branch that HEAD is on.
pub fn head_branch(is_branch: bool, shorthand: Option<String>) -> (r: Option<String>)
    ensures
        r.deep_view() == if is_branch {
            shorthand.deep_view()
        } else {
            None
        },
{
    if is_branch {
        shorthand
    } else {
        None
    }
}

/// The short name of the branch that HEAD is on, or `HEAD`.
pub fn head_refname_or_head(is_branch: bool, shorthand: Option<String>) -> (r: String)
    ensures
        r@ == match shorthand {
            Some(name) if is_branch => name@,
            _ => "HEAD"@,
        },
{
    match head_branch(is_branch, shorthand) {
        Some(name) => name,
        None => "HEAD".to_owned(),
    }
}

/// An entry of a tree: the directory that it is in, with a slash at the end, and its
/// name, where that is text.
pub struct TreeEntry {
    pub dir: String,
    pub name: Option<String>,
    pub is_blob: bool,
}

/// The path of a tree entry.
pub open spec fn entry_path(e: TreeEntry) -> Seq<char> {
    e.dir@ + match e.name {
        Some(n) => n@,
        None => Seq::empty(),
    }
}

/// The paths of the files in a tree, in the order in which it was walked.
pub open spec fn blob_paths(walk: Seq<TreeEntry>) -> Seq<Seq<char>>
    decreases walk.len(),
{
    if walk.len() == 0 {
        Seq::empty()
    } else {
        let before = blob_paths(walk.drop_last());
        if walk.last().is_blob {
            before.push(entry_path(walk.last()))
        } else {
            before
        }
    }
}

/// The paths of the files in a commit, in ascending order, given a walk of its tree.
pub fn list_files_at_commit(walk: Vec<TreeEntry>) -> (r: Vec<String>)
    ensures
        by_key(blob_paths(walk@), texts(r@), |p: Seq<char>| p),
{
    let mut files: Vec<String> = Vec::new();
    let mut i: usize = 0;
    while i < walk.len()
        invariant
            i <= walk@.len(),
            texts(files@) == blob_paths(walk@.take(i as int)),
        decreases walk@.len() - i,
    {
        proof {
            assert(walk@.take(i + 1).drop_last() =~= walk@.take(i as int));
        }
        if walk[i].is_blob {
            let mut path = walk[i].dir.clone();
            if let Some(name) = &walk[i].name {
                path.append(name.as_str());
            }
            files.push(path);
        }
        i += 1;
    }
    let r = sorted(files);
    proof {
        assert(walk@.take(i as int) =~= walk@);
        lemma_sorted_texts(files@, r@);
    }
    r
}

} // verus!
