//! Tracking patterns: lines in `.gitattributes` that have files filtered.

use vstd::prelude::*;

use crate::keyed::TextSet;
use crate::repo::{
    lemma_lists_what_was_added, lists_line, push_line, with_line,
};
use crate::text::{
    begins_with, contains_part, has_part, is_white, lines_of, split_lines, texts, trim_text, trimmed,
};

verus! {

/// The line for a pattern.
pub open spec fn line_for(pattern: Seq<char>) -> Seq<char> {
    pattern + " filter=xet_ai diff=xet_ai -text"@
}

/// The line for a pattern.
pub fn track_line(pattern: &str) -> (r: String)
    ensures
        r@ == line_for(pattern@),
{
    let mut line = pattern.to_owned();
    line.append(" filter=xet_ai diff=xet_ai -text");
    line
}

/// The lines of a text, without the white space around each.
pub open spec fn known_lines(content: Seq<char>) -> Set<Seq<char>> {
    Set::new(|line: Seq<char>| lists_line(content, line))
}

/// A file of attributes, the lines that are known to be in it, and the patterns that were
/// added.
pub struct Tracking {
    pub content: Seq<char>,
    pub known: Set<Seq<char>>,
    pub added: Seq<Seq<char>>,
}

/// The patterns are added one after the other, each unless its line is known.
pub open spec fn tracking(content: Seq<char>, patterns: Seq<Seq<char>>) -> Tracking
    decreases patterns.len(),
{
    if patterns.len() == 0 {
        Tracking { content, known: known_lines(content), added: Seq::empty() }
    } else {
        let t = tracking(content, patterns.drop_last());
        let line = line_for(patterns.last());
        if t.known.contains(line) {
            t
        } else {
            Tracking {
                content: with_line(t.content, line),
                known: t.known.insert(line),
                added: t.added.push(patterns.last()),
            }
        }
    }
}

fn lines_known(content: &str) -> (r: TextSet)
    ensures
        r@ == known_lines(content@),
{
    let lines = split_lines(content);
    let mut known = TextSet::new();
    let mut i: usize = 0;
    while i < lines.len()
        invariant
            i <= lines@.len(),
            texts(lines@) == lines_of(content@),
            known@ == Set::new(
                |line: Seq<char>|
                    exists|j: int|
                        0 <= j < i && trim_text(#[trigger] lines_of(content@)[j]) == line,
            ),
        decreases lines@.len() - i,
    {
        let ghost all = lines_of(content@);
        proof {
            assert(all[i as int] == lines@[i as int]@);
        }
        known.insert(trimmed(lines[i].as_str()));
        i += 1;
    }
    known
}

/// The content of an attributes file in which the patterns are tracked, and the patterns
/// that were not before. A file that is not there is given as an empty text.
pub fn track_in_file(content: String, patterns: &Vec<String>) -> (r: (String, Vec<String>))
    ensures
        r.0@ == tracking(content@, texts(patterns@)).content,
        texts(r.1@) == tracking(content@, texts(patterns@)).added,
{
    let ghost content0 = content@;
    let mut known = lines_known(content.as_str());
    let mut content = content;
    let mut added: Vec<String> = Vec::new();
    let mut i: usize = 0;
    while i < patterns.len()
        invariant
            i <= patterns@.len(),
            content@ == tracking(content0, texts(patterns@).take(i as int)).content,
            known@ == tracking(content0, texts(patterns@).take(i as int)).known,
            texts(added@) == tracking(content0, texts(patterns@).take(i as int)).added,
        decreases patterns@.len() - i,
    {
        proof {
            assert(texts(patterns@).take(i + 1).drop_last() =~= texts(patterns@).take(i as int));
        }
        let line = track_line(patterns[i].as_str());
        if !known.contains(line.as_str()) {
            content = push_line(content, line.as_str());
            known.insert(line);
            added.push(patterns[i].clone());
        }
        i += 1;
    }
    proof {
        assert(texts(patterns@).take(i as int) =~= texts(patterns@));
    }
    (content, added)
}

/// The line has files filtered. What begins with `#` is a comment.
pub open spec fn filters_files(line: Seq<char>) -> bool {
    !"#"@.is_prefix_of(trim_text(line)) && has_part(trim_text(line), "filter=xet_ai"@)
}

/// Some line of an attributes file has files filtered.
pub open spec fn tracks_files(content: Seq<char>) -> bool {
    exists|i: int| 0 <= i < lines_of(content).len() && filters_files(#[trigger] lines_of(content)[i])
}

/// Whether some line of an attributes file has files filtered.
pub fn has_tracked_patterns(content: &str) -> (r: bool)
    ensures
        r == tracks_files(content@),
{
    let lines = split_lines(content);
    let ghost all = lines_of(content@);
    let mut i: usize = 0;
    while i < lines.len()
        invariant
            i <= lines@.len(),
            all == lines_of(content@),
            texts(lines@) == all,
            forall|j: int| 0 <= j < i ==> !filters_files(#[trigger] all[j]),
        decreases lines@.len() - i,
    {
        let line = trimmed(lines[i].as_str());
        proof {
            assert(all[i as int] == lines@[i as int]@);
        }
        if !begins_with(line.as_str(), "#") && contains_part(line.as_str(), "filter=xet_ai") {
            return true;
        }
        i += 1;
    }
    false
}

/// A pattern that a line can begin with: not empty, on one line and not after white space.
pub open spec fn is_pattern(pattern: Seq<char>) -> bool {
    pattern.len() > 0 && !is_white(pattern[0]) && !pattern.contains('\n')
}

/// All of them are patterns that a line can begin with.
pub open spec fn are_patterns(patterns: Seq<Seq<char>>) -> bool {
    forall|i: int| 0 <= i < patterns.len() ==> is_pattern(#[trigger] patterns[i])
}

proof fn lemma_line_stands(pattern: Seq<char>)
    requires
        is_pattern(pattern),
    ensures
        trim_text(line_for(pattern)) == line_for(pattern),
        !line_for(pattern).contains('\n'),
{
    reveal_strlit(" filter=xet_ai diff=xet_ai -text");
}

/// The lines that are known are those that are in the file, and each pattern's is.
proof fn lemma_tracking_knows(content: Seq<char>, patterns: Seq<Seq<char>>)
    requires
        are_patterns(patterns),
    ensures
        tracking(content, patterns).known == known_lines(tracking(content, patterns).content),
        forall|line: Seq<char>| #[trigger]
            lists_line(content, line) ==> lists_line(tracking(content, patterns).content, line),
        forall|i: int|
            0 <= i < patterns.len() ==> lists_line(
                tracking(content, patterns).content,
                line_for(#[trigger] patterns[i]),
            ),
    decreases patterns.len(),
{
    if patterns.len() > 0 {
        let rest = patterns.drop_last();
        lemma_tracking_knows(content, rest);
        let t = tracking(content, rest);
        let t2 = tracking(content, patterns);
        let line = line_for(patterns.last());
        lemma_line_stands(patterns.last());
        if !t.known.contains(line) {
            assert forall|other: Seq<char>| known_lines(t2.content).contains(other)
                == t2.known.contains(other) by {
                lemma_lists_what_was_added(t.content, line, other);
            }
            assert forall|other: Seq<char>| #[trigger] lists_line(t.content, other) implies lists_line(
                t2.content,
                other,
            ) by {
                lemma_lists_what_was_added(t.content, line, other);
            }
            lemma_lists_what_was_added(t.content, line, line);
        }
        assert forall|i: int| 0 <= i < patterns.len() implies lists_line(
            t2.content,
            line_for(#[trigger] patterns[i]),
        ) by {
            if i < rest.len() {
                assert(rest[i] == patterns[i]);
            }
        }
    }
}

/// Tracking patterns that are tracked already changes nothing, so no line is there twice
/// on account of it.
pub proof fn lemma_tracking_is_idempotent(content: Seq<char>, patterns: Seq<Seq<char>>)
    requires
        are_patterns(patterns),
    ensures
        ({
            let once = tracking(content, patterns).content;
            let twice = tracking(once, patterns);
            twice.content == once && twice.added.len() == 0
        }),
{
    lemma_tracking_knows(content, patterns);
    lemma_tracked_already(tracking(content, patterns).content, patterns);
}

/// Patterns whose lines are there are not added.
pub proof fn lemma_tracked_already(content: Seq<char>, patterns: Seq<Seq<char>>)
    requires
        forall|i: int|
            0 <= i < patterns.len() ==> lists_line(content, line_for(#[trigger] patterns[i])),
    ensures
        tracking(content, patterns) == (Tracking {
            content,
            known: known_lines(content),
            added: Seq::empty(),
        }),
    decreases patterns.len(),
{
    if patterns.len() > 0 {
        let rest = patterns.drop_last();
        lemma_tracked_already(content, rest);
    }
}

/// What `track` tells: the patterns that were added, or that there was nothing to do.
pub open spec fn track_report(added: Seq<Seq<char>>) -> Seq<Seq<char>> {
    if added.len() == 0 {
        seq!["no changes"@]
    } else {
        added.map_values(|p: Seq<char>| "tracked pattern: "@ + p)
    }
}

/// What `track` tells.
pub fn track(added: &Vec<String>) -> (r: Vec<String>)
    ensures
        texts(r@) == track_report(texts(added@)),
{
    let mut out: Vec<String> = Vec::new();
    if added.len() == 0 {
        out.push("no changes".to_owned());
        return out;
    }
    let ghost lines = texts(added@).map_values(|p: Seq<char>| "tracked pattern: "@ + p);
    let mut i: usize = 0;
    while i < added.len()
        invariant
            i <= added@.len(),
            lines == texts(added@).map_values(|p: Seq<char>| "tracked pattern: "@ + p),
            texts(out@) == lines.take(i as int),
        decreases added@.len() - i,
    {
        let mut line = "tracked pattern: ".to_owned();
        line.append(added[i].as_str());
        proof {
            assert(lines.take(i + 1) =~= lines.take(i as int).push(lines[i as int]));
        }
        out.push(line);
        i += 1;
    }
    out
}

} // verus!
