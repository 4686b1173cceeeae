//! The state that a repository holds: its identity, and lines in its dot files.

use vstd::prelude::*;

use crate::error::{in_context, told, told_text, Error};
use crate::git;
use crate::paths::{is_absolute, join, join_path, path_is_absolute};
use crate::text::{
    first_of, lemma_first_of_is, lines_of, same_text, split_lines, texts, trim_text, trimmed,
    without_return,
};

verus! {

/// The file that holds the identity of a repository.
pub const REPO_ID_FILE: &'static str = ".xet_ai_repo_id";

/// The root of the working tree.
pub fn repo_root(workdir: Option<String>) -> (r: Result<String, Error>)
    ensures
        told_text(r) == match workdir {
            Some(dir) => Ok(dir@),
            None => Err("bare repositories are not supported"@),
        },
{
    git::repo_root(workdir)
}

/// What is made of the exit status of a git command.
pub fn run_git(success: bool) -> (r: Result<(), Error>)
    ensures
        told(r) == if success {
            Ok(())
        } else {
            Err("git command failed"@)
        },
{
    if success {
        Ok(())
    } else {
        Err(Error::saying("git command failed"))
    }
}

/// One of the lines is `line`, but for white space around it.
pub open spec fn lists_line(content: Seq<char>, line: Seq<char>) -> bool {
    exists|i: int| 0 <= i < lines_of(content).len() && trim_text(#[trigger] lines_of(content)[i]) == line
}

/// The text ends where a line does.
pub open spec fn ends_line(content: Seq<char>) -> bool {
    content.len() == 0 || content.last() == '\n'
}

/// The text, with an end to its last line.
pub open spec fn completed(content: Seq<char>) -> Seq<char> {
    if ends_line(content) {
        content
    } else {
        content.push('\n')
    }
}

/// The text with one more line.
pub open spec fn with_line(content: Seq<char>, line: Seq<char>) -> Seq<char> {
    (completed(content) + line).push('\n')
}

/// Whether the text ends where a line does.
pub fn at_line_end(content: &str) -> (r: bool)
    ensures
        r == ends_line(content@),
{
    let n: usize = content.unicode_len();
    n == 0 || content.get_char(n - 1) == '\n'
}

/// Adds a line to a text.
pub fn push_line(content: String, line: &str) -> (r: String)
    ensures
        r@ == with_line(content@, line@),
{
    let mut content = content;
    if !at_line_end(content.as_str()) {
        content.push('\n');
    }
    content.append(line);
    content.push('\n');
    content
}

/// The content of a file with `line` in it: `None` where the file has such a line and
/// stays as it is. A file that is not there is given as an empty text.
pub fn append_if_missing(content: String, line: &str) -> (r: Option<String>)
    ensures
        r.deep_view() == if lists_line(content@, line@) {
            None
        } else {
            Some(with_line(content@, line@))
        },
{
    let lines = split_lines(content.as_str());
    let mut i: usize = 0;
    while i < lines.len()
        invariant
            i <= lines@.len(),
            texts(lines@) == lines_of(content@),
            forall|j: int| 0 <= j < i ==> trim_text(#[trigger] lines_of(content@)[j]) != line@,
        decreases lines@.len() - i,
    {
        let t = trimmed(lines[i].as_str());
        proof {
            assert(lines_of(content@)[i as int] == lines@[i as int]@);
        }
        if same_text(t.as_str(), line) {
            return None;
        }
        i += 1;
    }
    Some(push_line(content, line))
}

/// A line that is added to a text becomes its last line.
pub proof fn lemma_line_added(content: Seq<char>, line: Seq<char>)
    requires
        !line.contains('\n'),
        ends_line(content),
    ensures
        lines_of((content + line).push('\n')) == lines_of(content).push(without_return(line)),
    decreases content.len(),
{
    let all = (content + line).push('\n');
    if content.len() == 0 {
        let k = line.len() as int;
        lemma_first_of_is(all, '\n', k);
        assert(all.take(k) =~= line);
        assert(lines_of(all.skip(k + 1)).len() == 0);
    } else {
        crate::text::lemma_first_of(content, '\n');
        let k = first_of(content, '\n');
        lemma_first_of_is(all, '\n', k);
        let rest = content.skip(k + 1);
        assert(all.skip(k + 1) =~= (rest + line).push('\n'));
        assert(all.take(k) =~= content.take(k));
        lemma_line_added(rest, line);
    }
}

/// Where the last line had no end, giving it one changes no line but for a carriage
/// return that then belongs to the end.
pub proof fn lemma_line_completed(content: Seq<char>)
    ensures
        lines_of(completed(content)).len() == lines_of(content).len(),
        forall|i: int|
            0 <= i < lines_of(content).len() ==> trim_text(
                #[trigger] lines_of(completed(content))[i],
            ) == trim_text(lines_of(content)[i]),
    decreases content.len(),
{
    if !ends_line(content) {
        let all = content.push('\n');
        crate::text::lemma_first_of(content, '\n');
        let k = first_of(content, '\n');
        lemma_first_of_is(all, '\n', k);
        assert(all.take(k) =~= content.take(k));
        if k < content.len() {
            let rest = content.skip(k + 1);
            assert(all.skip(k + 1) =~= rest.push('\n'));
            lemma_line_completed(rest);
        } else {
            assert(content.take(k) =~= content);
            assert(lines_of(all.skip(k + 1)).len() == 0);
            lemma_trim_without_return(content);
        }
    }
}

proof fn lemma_trim_end_of_white(s: Seq<char>, c: char)
    requires
        crate::text::is_white(c),
    ensures
        trim_text(s.push(c)) == trim_text(s),
    decreases s.len(),
{
    let t = s.push(c);
    if s.len() == 0 {
        assert(t.drop_first() =~= s);
    } else if crate::text::is_white(s[0]) {
        assert(t.drop_first() =~= s.drop_first().push(c));
        lemma_trim_end_of_white(s.drop_first(), c);
    } else {
        assert(t.drop_last() =~= s);
    }
}

proof fn lemma_trim_without_return(s: Seq<char>)
    ensures
        trim_text(without_return(s)) == trim_text(s),
{
    if s.len() > 0 && s.last() == '\r' {
        lemma_trim_end_of_white(s.drop_last(), '\r');
        assert(s.drop_last().push('\r') =~= s);
    }
}

/// A line that was added is found, and so is every line that was there before.
pub proof fn lemma_lists_what_was_added(content: Seq<char>, line: Seq<char>, other: Seq<char>)
    requires
        !line.contains('\n'),
        trim_text(line) == line,
    ensures
        lists_line(with_line(content, line), other) <==> (lists_line(content, other) || other == line),
{
    let whole = completed(content);
    let all = with_line(content, line);
    lemma_line_completed(content);
    lemma_line_added(whole, line);
    lemma_trim_without_return(line);
    let n = lines_of(whole).len() as int;
    assert(trim_text(lines_of(all)[n]) == line);
    if lists_line(content, other) {
        let i = choose|i: int|
            0 <= i < lines_of(content).len() && trim_text(#[trigger] lines_of(content)[i]) == other;
        assert(trim_text(lines_of(all)[i]) == other);
    }
}

/// Adding a line twice is adding it once.
pub proof fn lemma_append_is_idempotent(content: Seq<char>, line: Seq<char>)
    requires
        !line.contains('\n'),
        trim_text(line) == line,
    ensures
        lists_line(with_line(content, line), line),
{
    lemma_lists_what_was_added(content, line, line);
}

/// A path as seen from the root of the repository.
pub fn resolve_path(repo_root: &str, path: &str) -> (r: String)
    ensures
        r@ == if is_absolute(path@) {
            path@
        } else {
            join(repo_root@, path@)
        },
{
    if path_is_absolute(path) {
        path.to_owned()
    } else {
        join_path(repo_root, path)
    }
}

/// Where the identity of the repository is.
pub fn repo_id_path(repo_root: &str) -> (r: String)
    ensures
        r@ == join(repo_root@, REPO_ID_FILE@),
{
    join_path(repo_root, REPO_ID_FILE)
}

/// The identity of a repository, given the attempt to read the file that holds it.
pub open spec fn repo_id_said(content: Result<Seq<char>, Seq<char>>) -> Result<
    Seq<char>,
    Seq<char>,
> {
    match content {
        Err(e) => Err(in_context("missing "@ + REPO_ID_FILE@ + "; run `xet-ai init`"@, e)),
        Ok(text) => if trim_text(text).len() == 0 {
            Err(REPO_ID_FILE@ + " is empty"@)
        } else {
            Ok(trim_text(text))
        },
    }
}

/// The identity of a repository, given the attempt to read the file that holds it.
pub fn load_repo_id(content: Result<String, Error>) -> (r: Result<String, Error>)
    ensures
        told_text(r) == repo_id_said(told_text(content)),
{
    match content {
        Err(e) => {
            let mut m = "missing ".to_owned();
            m.append(REPO_ID_FILE);
            m.append("; run `xet-ai init`");
            Err(e.context(m.as_str()))
        },
        Ok(text) => {
            let id = trimmed(text.as_str());
            if id.as_str().is_empty() {
                let mut m = REPO_ID_FILE.to_owned();
                m.append(" is empty");
                return Err(Error::new(m));
            }
            Ok(id)
        },
    }
}

/// The commit that HEAD names, if it names one.
pub fn git_head_sha(target: Option<String>) -> (r: Result<String, Error>)
    ensures
        told_text(r) == match target {
            Some(sha) => Ok(sha@),
            None => Err("invalid HEAD"@),
        },
{
    git::head_sha(target)
}

/// The short name of the branch that HEAD is on.
pub fn git_current_branch_short(is_branch: bool, shorthand: Option<String>) -> (r: Option<String>)
    ensures
        r.deep_view() == if is_branch {
            shorthand.deep_view()
        } else {
            None
        },
{
    git::head_branch(is_branch, shorthand)
}

} // verus!
