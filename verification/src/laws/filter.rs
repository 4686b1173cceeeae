//! Laws of the smudge filter: what it makes of a pointer, and of data that is not there.

use vstd::prelude::*;

use crate::commands::smudge::{smudge, Smudge, SmudgeAsk, SmudgeEnd, SmudgeEvent, SmudgeStep};
use crate::config::EffectiveConfig;
use crate::error::Error;
use crate::laws::pointers::is_hex_digit;
use crate::laws::text::{lemma_part_between, lemma_part_splits};
use crate::pointers::{info_view, read_pointer, XetFileInfo};
use crate::text::{has_part, lower_text};

verus! {

/// The text, with its capital ASCII letters made small, has one of the phrases in it,
/// wherever, by which a message tells that something is not there.
pub open spec fn speaks_of_missing(message: Seq<char>) -> bool {
    exists|a: Seq<char>, phrase: Seq<char>, b: Seq<char>|
        (phrase == "not found"@ || phrase == "no such"@ || phrase == "missing"@) && lower_text(
            message,
        ) == #[trigger] (a + phrase + b)
}

/// The input is passed through, with a word on what to do to get the data of the file.
pub open spec fn passes_through(r: SmudgeStep, label: Seq<char>) -> bool {
    r matches SmudgeStep::Finished { end } && (end matches SmudgeEnd::PassThrough { warning }
        && warning@
        == "xet-ai: warning: missing CAS data; run `xet-ai pull <remote>` then `git checkout -f -- "@
        + label + "`"@)
}

/// The hash of a pointer that the filter works on is one that data can be found by.
pub open spec fn has_good_hash(m: Smudge) -> bool {
    m@.info.hash matches Some(hash) && hash.len() == 64 && forall|i: int|
        0 <= i < 64 ==> is_hex_digit(#[trigger] hash[i])
}

/// Input that is no pointer is passed through, and the filter says so. For a pointer the
/// content store is opened. What the pointer says, and the file that it belongs to, are held
/// on to.
pub proof fn law_smudge_begins(
    input: &[u8],
    path: Option<String>,
    found: Option<XetFileInfo>,
    r: SmudgeStep,
)
    requires
        call_ensures(smudge, (input, path), r),
        call_ensures(read_pointer, (input,), found),
    ensures
        found is None ==> (r matches SmudgeStep::Finished { end } && (
        end matches SmudgeEnd::PassThrough { warning } && warning@
            == "xet-ai: warning: input is not a xet pointer; passing through unchanged"@)),
        found matches Some(info) ==> (r matches SmudgeStep::Ask { ask, then } && ask is Open
            && then@.at is Opening && then@.info == info@ && then@.label == match path {
            Some(p) => p@,
            None => "<unknown>"@,
        }),
{
    assert(info_view(found) matches Some(i) ==> found is Some);
}

/// Once the store is open, the large file is asked for by the hash that the pointer gives. A
/// hash that nothing can be found by is an error.
pub proof fn law_smudge_hydrates(m: Smudge, r: SmudgeStep)
    requires
        call_ensures(Smudge::next, (m, SmudgeEvent::Opened), r),
        m@.at is Opening,
    ensures
        has_good_hash(m) ==> (r matches SmudgeStep::Ask { ask, then } && (
        ask matches SmudgeAsk::Hydrate { hash } && Some(hash@) == m@.info.hash)
            && then@.at is Hydrating && then@.info == m@.info && then@.label == m@.label),
        !has_good_hash(m) ==> (r matches SmudgeStep::Finished { end } && (
        end matches SmudgeEnd::Error { notice, error } && notice is None && error@
            == "Xet hash is corrupted"@)),
{
}

/// A large file that was written ends the run.
pub proof fn law_written_is_the_end(m: Smudge, r: SmudgeStep)
    requires
        call_ensures(Smudge::next, (m, SmudgeEvent::Hydrated { trouble: None }), r),
    ensures
        m@.at is Hydrating || m@.at is HydratingAgain <==> (r matches SmudgeStep::Finished { end }
            && end is Written),
{
}

/// A first attempt to hydrate that fails with a message which has one of the phrases
/// anywhere in it, in whatever case, is no error: the configuration is asked for. One that
/// has none of them is an error, told as it is.
pub proof fn law_missing_data_is_looked_for(m: Smudge, e: Error, r: SmudgeStep)
    requires
        call_ensures(Smudge::next, (m, SmudgeEvent::Hydrated { trouble: Some(e) }), r),
        m@.at is Hydrating,
    ensures
        speaks_of_missing(e@) ==> (r matches SmudgeStep::Ask { ask, then } && ask is Configure
            && then@.at is Configuring && then@.info == m@.info && then@.label == m@.label),
        !speaks_of_missing(e@) ==> (r matches SmudgeStep::Finished { end } && (
        end matches SmudgeEnd::Error { notice, error } && error@ == e@ && (notice matches Some(n)
            && n@ == "xet-ai: error: failed to hydrate pointer: "@ + e@))),
{
    let low = lower_text(e@);
    if speaks_of_missing(e@) {
        let (a, phrase, b) = choose|a: Seq<char>, phrase: Seq<char>, b: Seq<char>|
            (phrase == "not found"@ || phrase == "no such"@ || phrase == "missing"@) && low
                == #[trigger] (a + phrase + b);
        lemma_part_between(a, phrase, b);
    }
    assert forall|phrase: Seq<char>| #[trigger] has_part(low, phrase) && (phrase == "not found"@
        || phrase == "no such"@ || phrase == "missing"@) implies speaks_of_missing(e@) by {
        lemma_part_splits(low, phrase);
        let (a, b) = choose|a: Seq<char>, b: Seq<char>| low == #[trigger] (a + phrase + b);
        assert(low == a + phrase + b);
    }
}

/// The same with the text around the phrase named: whatever stands before it and after it.
pub proof fn law_missing_data_is_no_error(
    m: Smudge,
    e: Error,
    a: Seq<char>,
    b: Seq<char>,
    r: SmudgeStep,
)
    requires
        call_ensures(Smudge::next, (m, SmudgeEvent::Hydrated { trouble: Some(e) }), r),
        m@.at is Hydrating,
        lower_text(e@) == a + "not found"@ + b || lower_text(e@) == a + "no such"@ + b
            || lower_text(e@) == a + "missing"@ + b,
    ensures
        r matches SmudgeStep::Ask { ask, .. } && ask is Configure,
{
    assert(speaks_of_missing(e@));
    law_missing_data_is_looked_for(m, e, r);
}

/// Missing data is pulled, once, from the default remote, if such pulls are wanted and this
/// is none. Else the pointer is passed through.
pub proof fn law_smudge_pulls(
    m: Smudge,
    effective: EffectiveConfig,
    already_attempted: bool,
    r: SmudgeStep,
)
    requires
        call_ensures(
            Smudge::next,
            (m, SmudgeEvent::Configured { effective, already_attempted }),
            r,
        ),
        m@.at is Configuring,
    ensures
        effective.auto_pull_on_smudge && !already_attempted && effective.default_remote is Some
            ==> (r matches SmudgeStep::Ask { ask, then } && (ask matches SmudgeAsk::Pull { remote }
            && remote@ == effective.default_remote->0@) && then@.at is Pulling && then@.info
            == m@.info && then@.label == m@.label),
        !(effective.auto_pull_on_smudge && !already_attempted && effective.default_remote is Some)
            ==> passes_through(r, m@.label),
{
}

/// After a pull that succeeded, the same file is asked for again. After one that did not,
/// the pointer is passed through.
pub proof fn law_smudge_tries_again(m: Smudge, ok: bool, r: SmudgeStep)
    requires
        call_ensures(Smudge::next, (m, SmudgeEvent::Pulled { ok }), r),
        m@.at is Pulling,
    ensures
        ok && has_good_hash(m) ==> (r matches SmudgeStep::Ask { ask, then } && (
        ask matches SmudgeAsk::HydrateAgain { hash } && Some(hash@) == m@.info.hash)
            && then@.at is HydratingAgain && then@.info == m@.info && then@.label == m@.label),
        !(ok && has_good_hash(m)) ==> passes_through(r, m@.label),
{
}

/// A second attempt that fails, for whatever reason, passes the pointer through.
pub proof fn law_second_failure_is_no_error(m: Smudge, e: Error, r: SmudgeStep)
    requires
        call_ensures(Smudge::next, (m, SmudgeEvent::Hydrated { trouble: Some(e) }), r),
        m@.at is HydratingAgain,
    ensures
        passes_through(r, m@.label),
{
}

/// What cannot be done at all fails the filter, with the error as it is.
pub proof fn law_smudge_fails(m: Smudge, error: Error, r: SmudgeStep)
    requires
        call_ensures(Smudge::next, (m, SmudgeEvent::Failed { error }), r),
    ensures
        r matches SmudgeStep::Finished { end } && (end matches SmudgeEnd::Error {
            notice,
            error: told,
        } && notice is None && told@ == error@),
{
}

/// An event that answers something else than what was asked fails the filter.
pub proof fn law_smudge_misfit(m: Smudge, event: SmudgeEvent, r: SmudgeStep)
    requires
        call_ensures(Smudge::next, (m, event), r),
        !(event is Failed),
        event is Opened ==> !(m@.at is Opening),
        event is Hydrated ==> !(m@.at is Hydrating) && !(m@.at is HydratingAgain),
        event is Configured ==> !(m@.at is Configuring),
        event is Pulled ==> !(m@.at is Pulling),
    ensures
        r matches SmudgeStep::Finished { end } && (end matches SmudgeEnd::Error { notice, error }
            && notice is None && error@ == "unexpected event in the smudge filter"@),
{
}

} // verus!
