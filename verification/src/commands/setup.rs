//! Setting a repository up, and the places that the filters work in.

use vstd::prelude::*;

use crate::commands::naming::{
    cas_at, cas_root, choose_representative_pointer, is_representative, new_validation_base,
    validation_base,
};
use crate::commands::track::{track_in_file, tracking};
use crate::error::{told, Error};
use crate::files::is_random_uuid;
use crate::paths::{below, is_absolute, is_below, join, join_path};
use crate::pointers::{
    is_merkle_hash, merkle_hash, pointer_views, InfoView, PointerIndex, XetFileInfo,
};
use crate::repo::{append_if_missing, lists_line, resolve_path, with_line, REPO_ID_FILE};
use crate::text::{decimal, decimal_text, texts};

verus! {

/// What `init` finds in a repository.
pub struct InitFacts {
    /// The content of `.gitignore`, empty where there is none.
    pub gitignore: String,
    pub has_repo_id: bool,
    /// The content of `.gitattributes`, empty where there is none.
    pub gitattributes: String,
    pub has_shared_config: bool,
    /// Where the shared configuration is.
    pub shared_config: String,
}

/// What `init` is to do: git commands, then files.
pub struct InitPlan {
    /// The arguments of each git command.
    pub git_commands: Vec<Vec<String>>,
    /// The new content of `.gitignore`, if it changes.
    pub gitignore: Option<String>,
    /// The content of the file that holds the identity, if there is none yet.
    pub repo_id: Option<String>,
    /// The new content of `.gitattributes`, if there are patterns.
    pub gitattributes: Option<String>,
    /// Whether to write an empty shared configuration.
    pub write_config: bool,
    /// What is said: of the identity, of the configuration.
    pub repo_id_notice: Option<String>,
    pub config_notice: Option<String>,
}

/// The arguments of the git commands that make the filters known.
pub open spec fn filter_commands() -> Seq<Seq<Seq<char>>> {
    seq![
        seq!["config"@, "filter.xet_ai.clean"@, "xet-ai clean --path %f"@],
        seq!["config"@, "filter.xet_ai.smudge"@, "xet-ai smudge --path %f"@],
        seq!["config"@, "filter.xet_ai.required"@, "true"@],
    ]
}

/// Commands by view.
pub open spec fn command_views(commands: Seq<Vec<String>>) -> Seq<Seq<Seq<char>>> {
    commands.map_values(|c: Vec<String>| texts(c@))
}

fn git_config(key: &str, value: &str) -> (r: Vec<String>)
    ensures
        texts(r@) == seq!["config"@, key@, value@],
{
    let mut c: Vec<String> = Vec::new();
    c.push("config".to_owned());
    c.push(key.to_owned());
    c.push(value.to_owned());
    c
}

/// The identity, as it is written to its file.
pub open spec fn id_line(id: Seq<char>) -> Seq<char> {
    id + "\n"@
}

/// What is said of a new identity.
pub open spec fn new_id_text(id: Seq<char>) -> Seq<char> {
    "created "@ + REPO_ID_FILE@ + " with repo id "@ + id
        + "; please commit this file so clones share the same identity."@
}

/// What is said of a new shared configuration.
pub open spec fn new_config_text(path: Seq<char>) -> Seq<char> {
    "created "@ + path + "; commit if you want shared remote config"@
}

/// Plans `init`. `new_id` is a random identity, for a repository that has none.
pub fn init(
    facts: InitFacts,
    init_config: bool,
    track_patterns: &Vec<String>,
    new_id: &str,
) -> (r: InitPlan)
    ensures
        command_views(r.git_commands@) == filter_commands(),
        r.gitignore.deep_view() == if lists_line(facts.gitignore@, ".xet_ai/"@) {
            None
        } else {
            Some(with_line(facts.gitignore@, ".xet_ai/"@))
        },
        r.repo_id.deep_view() == if facts.has_repo_id {
            None
        } else {
            Some(id_line(new_id@))
        },
        r.repo_id_notice.deep_view() == if facts.has_repo_id {
            None
        } else {
            Some(new_id_text(new_id@))
        },
        r.gitattributes.deep_view() == if track_patterns@.len() == 0 {
            None
        } else {
            Some(tracking(facts.gitattributes@, texts(track_patterns@)).content)
        },
        r.write_config == (init_config && !facts.has_shared_config),
        r.config_notice.deep_view() == if init_config && !facts.has_shared_config {
            Some(new_config_text(facts.shared_config@))
        } else {
            None
        },
{
    let mut git_commands: Vec<Vec<String>> = Vec::new();
    git_commands.push(git_config("filter.xet_ai.clean", "xet-ai clean --path %f"));
    git_commands.push(git_config("filter.xet_ai.smudge", "xet-ai smudge --path %f"));
    git_commands.push(git_config("filter.xet_ai.required", "true"));
    let gitignore = append_if_missing(facts.gitignore, ".xet_ai/");
    let (repo_id, repo_id_notice) = if facts.has_repo_id {
        (None, None)
    } else {
        let mut line = new_id.to_owned();
        line.append("\n");
        let mut said = "created ".to_owned();
        said.append(REPO_ID_FILE);
        said.append(" with repo id ");
        said.append(new_id);
        said.append("; please commit this file so clones share the same identity.");
        (Some(line), Some(said))
    };
    let gitattributes = if track_patterns.len() == 0 {
        None
    } else {
        let (content, _) = track_in_file(facts.gitattributes, track_patterns);
        Some(content)
    };
    let write_config = init_config && !facts.has_shared_config;
    let config_notice = if write_config {
        let mut said = "created ".to_owned();
        said.append(facts.shared_config.as_str());
        said.append("; commit if you want shared remote config");
        Some(said)
    } else {
        None
    };
    InitPlan {
        git_commands,
        gitignore,
        repo_id,
        gitattributes,
        write_config,
        repo_id_notice,
        config_notice,
    }
}

/// The file that the input of the clean filter belongs to, as it is looked for.
pub fn clean_candidate(repo_root: &str, path: &Option<String>) -> (r: Option<String>)
    ensures
        r.deep_view() == match path {
            Some(p) => Some(
                if is_absolute(p@) {
                    p@
                } else {
                    join(repo_root@, p@)
                },
            ),
            None => None,
        },
{
    match path {
        Some(p) => Some(resolve_path(repo_root, p.as_str())),
        None => None,
    }
}

/// Where the clean filter keeps its temporary files.
pub open spec fn clean_tmp(base: Seq<char>) -> Seq<char> {
    join(base, "tmp"@)
}

/// What the clean filter reads, and whether its input must be put there first.
pub struct CleanSource {
    pub path: String,
    pub from_stdin: bool,
    /// Whether the file is the filter's own, to be deleted in the end.
    pub temporary: bool,
}

/// What the clean filter reads: the file that its input belongs to, if it is there, and
/// else a temporary file that its input is put into.
pub fn prepare_clean_source(base: &str, found: Option<String>, pid: u32) -> (r: CleanSource)
    ensures
        r.path@ == match found {
            Some(p) => p@,
            None => join(clean_tmp(base@), "clean-stdin-"@ + decimal(pid as nat) + ".tmp"@),
        },
        r.from_stdin == (found is None),
        r.temporary == below(r.path@, clean_tmp(base@)),
{
    let tmp_dir = join_path(base, "tmp");
    let from_stdin = found.is_none();
    let path = match found {
        Some(p) => p,
        None => {
            let mut name = "clean-stdin-".to_owned();
            name.append(decimal_text(pid as u64).as_str());
            name.append(".tmp");
            join_path(tmp_dir.as_str(), name.as_str())
        },
    };
    let temporary = is_below(path.as_str(), tmp_dir.as_str());
    CleanSource { path, from_stdin, temporary }
}

/// A copy that is made to try a plan: from the content store to a store of its own.
pub open spec fn trial_copy(local_cas: Seq<char>, trial_cas: Seq<char>, relpath: Seq<char>) -> (
    Seq<char>,
    Seq<char>,
) {
    (join(local_cas, relpath), join(trial_cas, relpath))
}

/// The copies that are made to try a plan, for the files that are there.
pub fn validation_copies(local_cas: &str, trial_cas: &str, relpaths: &Vec<String>) -> (r: Vec<
    (String, String),
>)
    ensures
        r@.len() == relpaths@.len(),
        forall|i: int|
            0 <= i < relpaths@.len() ==> ((#[trigger] r@[i]).0@, r@[i].1@) == trial_copy(
                local_cas@,
                trial_cas@,
                relpaths@[i]@,
            ),
{
    let mut out: Vec<(String, String)> = Vec::new();
    let mut i: usize = 0;
    while i < relpaths.len()
        invariant
            i <= relpaths@.len(),
            out@.len() == i,
            forall|j: int|
                0 <= j < i ==> ((#[trigger] out@[j]).0@, out@[j].1@) == trial_copy(
                    local_cas@,
                    trial_cas@,
                    relpaths@[j]@,
                ),
        decreases relpaths@.len() - i,
    {
        out.push(
            (
                join_path(local_cas, relpaths[i].as_str()),
                join_path(trial_cas, relpaths[i].as_str()),
            ),
        );
        i += 1;
    }
    out
}

/// A trial of a plan: the pointer that is hydrated, the directory that this is done in,
/// its content store, and what is copied there first, as far as it is there.
pub struct Validation {
    pub pointer: XetFileInfo,
    pub base: String,
    pub cas: String,
    pub copies: Vec<(String, String)>,
}

/// The trial of a plan for a commit. A commit without pointers needs none: the plan is
/// enough.
pub fn validate_minimal_plan(
    repo_root: &str,
    sha: &str,
    relpaths: &Vec<String>,
    index: &PointerIndex,
) -> (r: Option<Validation>)
    ensures
        r is None <==> index.entries@.len() == 0,
        r matches Some(v) ==> {
            &&& exists|i: int| #[trigger]
                is_representative(pointer_views(index.entries@), i) && v.pointer
                    == index.entries@[i].file_info
            &&& exists|suffix: Seq<char>| #[trigger]
                is_random_uuid(suffix) && v.base@ == validation_base(repo_root@, sha@, suffix)
            &&& v.cas@ == join(v.base@, "xet"@)
            &&& v.copies@.len() == relpaths@.len()
            &&& forall|i: int|
                0 <= i < relpaths@.len() ==> ((#[trigger] v.copies@[i]).0@, v.copies@[i].1@)
                    == trial_copy(cas_at(repo_root@), v.cas@, relpaths@[i]@)
        },
{
    match choose_representative_pointer(index) {
        None => None,
        Some(pointer) => {
            let base = new_validation_base(repo_root, sha);
            let cas = join_path(base.as_str(), "xet");
            let copies = validation_copies(cas_root(repo_root).as_str(), cas.as_str(), relpaths);
            Some(Validation { pointer, base, cas, copies })
        },
    }
}

/// What a trial says of a plan, given the pointer that was to be hydrated and whether that
/// went well. A commit without pointers needs no trial, and a pointer whose hash is no hash
/// cannot be tried.
pub open spec fn trial_outcome(pointer: Option<InfoView>, hydrated: bool) -> Result<
    bool,
    Seq<char>,
> {
    match pointer {
        None => Ok(true),
        Some(info) => match info.hash {
            Some(hash) if is_merkle_hash(hash) => Ok(hydrated),
            _ => Err("Xet hash is corrupted"@),
        },
    }
}

/// The pointer that a trial is about.
pub open spec fn tried_pointer(trial: Option<Validation>) -> Option<InfoView> {
    match trial {
        None => None,
        Some(v) => Some(v.pointer@),
    }
}

/// Whether a plan is enough, given its trial and what came of hydrating the pointer.
pub fn validation_verdict(trial: &Option<Validation>, hydrated: &Result<(), Error>) -> (r: Result<
    bool,
    Error,
>)
    ensures
        told(r) == trial_outcome(tried_pointer(*trial), hydrated is Ok),
{
    match trial {
        None => Ok(true),
        Some(v) => match merkle_hash(&v.pointer) {
            Err(e) => Err(e),
            Ok(_) => Ok(hydrated.is_ok()),
        },
    }
}

} // verus!
