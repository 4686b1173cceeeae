//! What is made of the output of git commands.

use vstd::prelude::*;

use crate::error::{in_context, told_text, Error};
use crate::text::{lossy_text, read_text, trim_text, trimmed};

pub use crate::repo::{
    append_if_missing, load_repo_id, repo_id_path, resolve_path, run_git, REPO_ID_FILE,
};

verus! {

/// What a git command left behind.
pub struct GitOutput {
    pub success: bool,
    pub stdout: Vec<u8>,
    pub stderr: Vec<u8>,
}

/// What a git command wrote, without the white space around it, if it could be run and
/// succeeded. `failure` goes before what it wrote about its failure.
pub open spec fn captured(output: Result<GitOutput, Error>, failure: Seq<char>) -> Result<
    Seq<char>,
    Seq<char>,
> {
    match output {
        Err(e) => Err(in_context("failed to execute git"@, e@)),
        Ok(o) => if o.success {
            Ok(trim_text(lossy_text(o.stdout@)))
        } else {
            Err(failure + lossy_text(o.stderr@))
        },
    }
}

fn capture(output: Result<GitOutput, Error>, failure: &str) -> (r: Result<String, Error>)
    ensures
        told_text(r) == captured(output, failure@),
{
    match output {
        Err(e) => Err(e.context("failed to execute git")),
        Ok(o) => {
            if o.success {
                Ok(trimmed(read_text(o.stdout.as_slice()).as_str()))
            } else {
                let mut m = failure.to_owned();
                m.append(read_text(o.stderr.as_slice()).as_str());
                Err(Error::new(m))
            }
        },
    }
}

/// The root of the working tree, given what `git rev-parse --show-toplevel` left behind.
pub fn repo_root(output: Result<GitOutput, Error>) -> (r: Result<String, Error>)
    ensures
        told_text(r) == captured(output, "not inside a git repository: "@),
{
    capture(output, "not inside a git repository: ")
}

/// What a git command wrote.
pub fn run_git_capture_stdout(output: Result<GitOutput, Error>) -> (r: Result<String, Error>)
    ensures
        told_text(r) == captured(output, "git command failed: "@),
{
    capture(output, "git command failed: ")
}

/// The commit that HEAD names, given what `git rev-parse HEAD` left behind.
pub fn git_head_sha(output: Result<GitOutput, Error>) -> (r: Result<String, Error>)
    ensures
        told_text(r) == captured(output, "git command failed: "@),
{
    run_git_capture_stdout(output)
}

/// The branch that HEAD is on, given what `git symbolic-ref --short HEAD` left behind.
pub fn git_current_branch_short(output: Result<GitOutput, Error>) -> (r: Result<
    Option<String>,
    Error,
>)
    ensures
        match r {
            Err(e) => output matches Err(cause) && e@ == in_context(
                "failed to execute git"@,
                cause@,
            ),
            Ok(branch) => output matches Ok(o) && branch.deep_view() == if o.success {
                Some(trim_text(lossy_text(o.stdout@)))
            } else {
                None
            },
        },
{
    match output {
        Err(e) => Err(e.context("failed to execute git")),
        Ok(o) => {
            if o.success {
                Ok(Some(trimmed(read_text(o.stdout.as_slice()).as_str())))
            } else {
                Ok(None)
            }
        },
    }
}

} // verus!
