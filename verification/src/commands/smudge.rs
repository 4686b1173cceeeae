//! The smudge filter: a pointer comes in and the large file goes out. Where its data is
//! missing the pointer goes out instead, after one attempt to pull the data.

use vstd::prelude::*;

use crate::commands::naming::should_attempt_smudge_autopull;
use crate::config::EffectiveConfig;
use crate::error::Error;
use crate::pointers::{
    info_in, info_view, is_merkle_hash, merkle_hash, pointer_in, read_pointer, InfoView, Said,
    XetFileInfo,
};
use crate::text::{contains_part, has_part, lower_text, lowered};

verus! {

/// What the filter asks for.
pub enum SmudgeAsk {
    /// Open the content store.
    Open,
    /// Write out the large file with this hash.
    Hydrate { hash: String },
    /// Read the configuration.
    Configure,
    /// Pull from this remote, without a word, and not from within another such pull.
    Pull { remote: String },
    /// Open the content store again, and try again to write out the large file.
    HydrateAgain { hash: String },
}

/// What the filter asks for, by view.
pub enum SmudgeWish {
    Open,
    Hydrate { hash: Seq<char> },
    Configure,
    Pull { remote: Seq<char> },
    HydrateAgain { hash: Seq<char> },
}

impl View for SmudgeAsk {
    type V = SmudgeWish;

    open spec fn view(&self) -> SmudgeWish {
        match *self {
            SmudgeAsk::Open => SmudgeWish::Open,
            SmudgeAsk::Hydrate { hash } => SmudgeWish::Hydrate { hash: hash@ },
            SmudgeAsk::Configure => SmudgeWish::Configure,
            SmudgeAsk::Pull { remote } => SmudgeWish::Pull { remote: remote@ },
            SmudgeAsk::HydrateAgain { hash } => SmudgeWish::HydrateAgain { hash: hash@ },
        }
    }
}

/// What came of what the filter asked for.
pub enum SmudgeEvent {
    /// The content store is open.
    Opened,
    /// The large file was written, or this is why it was not.
    Hydrated { trouble: Option<Error> },
    /// The configuration that is in force, and whether this runs within such a pull.
    Configured { effective: EffectiveConfig, already_attempted: bool },
    /// Whether the pull succeeded.
    Pulled { ok: bool },
    /// The work could not be done at all.
    Failed { error: Error },
}

/// How far the filter has come.
#[derive(Clone, Copy)]
pub enum SmudgePhase {
    Opening,
    Hydrating,
    Configuring,
    Pulling,
    HydratingAgain,
}

/// A run of the filter.
pub struct Smudge {
    info: XetFileInfo,
    label: String,
    phase: SmudgePhase,
}

/// A run of the filter, by view.
pub struct SmudgeState {
    pub info: InfoView,
    pub label: Seq<char>,
    pub at: SmudgePhase,
}

impl View for Smudge {
    type V = SmudgeState;

    closed spec fn view(&self) -> SmudgeState {
        SmudgeState { info: self.info@, label: self.label@, at: self.phase }
    }
}

/// How a run of the filter ends.
pub enum SmudgeEnd {
    /// The large file was written.
    Written,
    /// The input is to be passed through, and this is said.
    PassThrough { warning: String },
    /// The filter fails. What is said first is said only of a pointer that could not be
    /// hydrated.
    Error { notice: Option<String>, error: Error },
}

/// How a run of the filter ends, by view.
pub enum SmudgeVerdict {
    Written,
    PassThrough { warning: Seq<char> },
    Error { notice: Option<Seq<char>>, error: Seq<char> },
}

impl View for SmudgeEnd {
    type V = SmudgeVerdict;

    open spec fn view(&self) -> SmudgeVerdict {
        match *self {
            SmudgeEnd::Written => SmudgeVerdict::Written,
            SmudgeEnd::PassThrough { warning } => SmudgeVerdict::PassThrough { warning: warning@ },
            SmudgeEnd::Error { notice, error } => SmudgeVerdict::Error {
                notice: notice.deep_view(),
                error: error@,
            },
        }
    }
}

/// How the filter goes on.
pub enum SmudgeStep {
    Ask { ask: SmudgeAsk, then: Smudge },
    Finished { end: SmudgeEnd },
}

/// A step, by view.
pub enum SmudgeMove {
    Ask { ask: SmudgeWish, then: SmudgeState },
    Finished { end: SmudgeVerdict },
}

impl View for SmudgeStep {
    type V = SmudgeMove;

    open spec fn view(&self) -> SmudgeMove {
        match *self {
            SmudgeStep::Ask { ask, then } => SmudgeMove::Ask { ask: ask@, then: then@ },
            SmudgeStep::Finished { end } => SmudgeMove::Finished { end: end@ },
        }
    }
}

/// What is said of input that is no pointer.
pub open spec fn no_pointer_text() -> Seq<char> {
    "xet-ai: warning: input is not a xet pointer; passing through unchanged"@
}

/// What is said where the data is missing.
pub open spec fn no_data_text(label: Seq<char>) -> Seq<char> {
    "xet-ai: warning: missing CAS data; run `xet-ai pull <remote>` then `git checkout -f -- "@
        + label + "`"@
}

/// What is said of a pointer that could not be hydrated for another reason.
pub open spec fn not_hydrated_text(why: Seq<char>) -> Seq<char> {
    "xet-ai: error: failed to hydrate pointer: "@ + why
}

/// The message speaks of data that is not there.
pub open spec fn says_missing(message: Seq<char>) -> bool {
    let m = lower_text(message);
    has_part(m, "not found"@) || has_part(m, "no such"@) || has_part(m, "missing"@)
}

fn tells_missing(message: &str) -> (r: bool)
    ensures
        r == says_missing(message@),
{
    let m = lowered(message);
    contains_part(m.as_str(), "not found") || contains_part(m.as_str(), "no such")
        || contains_part(m.as_str(), "missing")
}

/// The hash that a pointer gives, if it is one that data can be found by.
pub open spec fn good_hash(info: InfoView) -> Option<Seq<char>> {
    match info.hash {
        Some(hash) if is_merkle_hash(hash) => Some(hash),
        _ => None,
    }
}

/// The pointer is passed through, because its data is missing.
pub open spec fn gives_up(m: SmudgeState) -> SmudgeMove {
    SmudgeMove::Finished { end: SmudgeVerdict::PassThrough { warning: no_data_text(m.label) } }
}

/// The large file was written.
pub open spec fn written() -> SmudgeMove {
    SmudgeMove::Finished { end: SmudgeVerdict::Written }
}

/// The remote to pull from, if one is to be pulled from.
pub open spec fn pulls_from(effective: EffectiveConfig, already_attempted: bool) -> Option<
    Seq<char>,
> {
    if effective.auto_pull_on_smudge && !already_attempted {
        effective.default_remote.deep_view()
    } else {
        None
    }
}

/// How the filter goes on after an event.
pub open spec fn smudge_next(m: SmudgeState, event: SmudgeEvent) -> SmudgeMove {
    match (m.at, event) {
        (_, SmudgeEvent::Failed { error }) => SmudgeMove::Finished {
            end: SmudgeVerdict::Error { notice: None, error: error@ },
        },
        (SmudgePhase::Opening, SmudgeEvent::Opened) => match good_hash(m.info) {
            Some(hash) => SmudgeMove::Ask {
                ask: SmudgeWish::Hydrate { hash },
                then: SmudgeState { at: SmudgePhase::Hydrating, ..m },
            },
            None => SmudgeMove::Finished {
                end: SmudgeVerdict::Error { notice: None, error: "Xet hash is corrupted"@ },
            },
        },
        (SmudgePhase::Hydrating, SmudgeEvent::Hydrated { trouble }) => match trouble {
            None => written(),
            Some(e) => if says_missing(e@) {
                SmudgeMove::Ask {
                    ask: SmudgeWish::Configure,
                    then: SmudgeState { at: SmudgePhase::Configuring, ..m },
                }
            } else {
                SmudgeMove::Finished {
                    end: SmudgeVerdict::Error {
                        notice: Some(not_hydrated_text(e@)),
                        error: e@,
                    },
                }
            },
        },
        (
            SmudgePhase::Configuring,
            SmudgeEvent::Configured { effective, already_attempted },
        ) => match pulls_from(effective, already_attempted) {
            Some(remote) => SmudgeMove::Ask {
                ask: SmudgeWish::Pull { remote },
                then: SmudgeState { at: SmudgePhase::Pulling, ..m },
            },
            None => gives_up(m),
        },
        (SmudgePhase::Pulling, SmudgeEvent::Pulled { ok }) => match good_hash(m.info) {
            Some(hash) if ok => SmudgeMove::Ask {
                ask: SmudgeWish::HydrateAgain { hash },
                then: SmudgeState { at: SmudgePhase::HydratingAgain, ..m },
            },
            _ => gives_up(m),
        },
        (SmudgePhase::HydratingAgain, SmudgeEvent::Hydrated { trouble }) => match trouble {
            None => written(),
            Some(_) => gives_up(m),
        },
        (_, _) => SmudgeMove::Finished {
            end: SmudgeVerdict::Error {
                notice: None,
                error: "unexpected event in the smudge filter"@,
            },
        },
    }
}

impl Smudge {
    fn at(self, phase: SmudgePhase) -> (r: Smudge)
        ensures
            r@ == (SmudgeState { at: phase, ..self@ }),
    {
        Smudge { info: self.info, label: self.label, phase }
    }

    fn give_up(self) -> (r: SmudgeStep)
        ensures
            r@ == gives_up(self@),
    {
        let mut m =
            "xet-ai: warning: missing CAS data; run `xet-ai pull <remote>` then `git checkout -f -- ".to_owned();
        m.append(self.label.as_str());
        m.append("`");
        SmudgeStep::Finished { end: SmudgeEnd::PassThrough { warning: m } }
    }

    /// Goes on after an event.
    pub fn next(self, event: SmudgeEvent) -> (r: SmudgeStep)
        ensures
            r@ == smudge_next(self@, event),
    {
        match (self.phase, event) {
            (_, SmudgeEvent::Failed { error }) => SmudgeStep::Finished {
                end: SmudgeEnd::Error { notice: None, error },
            },
            (SmudgePhase::Opening, SmudgeEvent::Opened) => match merkle_hash(&self.info) {
                Ok(hash) => SmudgeStep::Ask {
                    ask: SmudgeAsk::Hydrate { hash },
                    then: self.at(SmudgePhase::Hydrating),
                },
                Err(error) => SmudgeStep::Finished {
                    end: SmudgeEnd::Error { notice: None, error },
                },
            },
            (SmudgePhase::Hydrating, SmudgeEvent::Hydrated { trouble }) => match trouble {
                None => SmudgeStep::Finished { end: SmudgeEnd::Written },
                Some(e) => {
                    if tells_missing(e.message.as_str()) {
                        SmudgeStep::Ask {
                            ask: SmudgeAsk::Configure,
                            then: self.at(SmudgePhase::Configuring),
                        }
                    } else {
                        let mut m = "xet-ai: error: failed to hydrate pointer: ".to_owned();
                        m.append(e.message.as_str());
                        SmudgeStep::Finished {
                            end: SmudgeEnd::Error { notice: Some(m), error: e },
                        }
                    }
                },
            },
            (
                SmudgePhase::Configuring,
                SmudgeEvent::Configured { effective, already_attempted },
            ) => match should_attempt_smudge_autopull(&effective, already_attempted) {
                Some(remote) => SmudgeStep::Ask {
                    ask: SmudgeAsk::Pull { remote },
                    then: self.at(SmudgePhase::Pulling),
                },
                None => self.give_up(),
            },
            (SmudgePhase::Pulling, SmudgeEvent::Pulled { ok }) => match merkle_hash(&self.info) {
                Ok(hash) if ok => SmudgeStep::Ask {
                    ask: SmudgeAsk::HydrateAgain { hash },
                    then: self.at(SmudgePhase::HydratingAgain),
                },
                _ => self.give_up(),
            },
            (SmudgePhase::HydratingAgain, SmudgeEvent::Hydrated { trouble }) => match trouble {
                None => SmudgeStep::Finished { end: SmudgeEnd::Written },
                Some(_) => self.give_up(),
            },
            (_, _) => SmudgeStep::Finished {
                end: SmudgeEnd::Error {
                    notice: None,
                    error: Error::saying("unexpected event in the smudge filter"),
                },
            },
        }
    }
}

/// How a run of the filter begins, given what its input says where it is a pointer.
pub open spec fn smudge_start(info: Option<InfoView>, path: Option<Seq<char>>) -> SmudgeMove {
    match info {
        Some(info) => SmudgeMove::Ask {
            ask: SmudgeWish::Open,
            then: SmudgeState {
                info,
                label: match path {
                    Some(p) => p,
                    None => "<unknown>"@,
                },
                at: SmudgePhase::Opening,
            },
        },
        None => SmudgeMove::Finished {
            end: SmudgeVerdict::PassThrough { warning: no_pointer_text() },
        },
    }
}

/// Begins a run of the filter, given what its input says where it is a pointer.
pub fn smudge_pointer(info: Option<XetFileInfo>, path: Option<String>) -> (r: SmudgeStep)
    ensures
        r@ == smudge_start(info_view(info), path.deep_view()),
{
    match info {
        None => SmudgeStep::Finished {
            end: SmudgeEnd::PassThrough {
                warning: "xet-ai: warning: input is not a xet pointer; passing through unchanged".to_owned(),
            },
        },
        Some(info) => {
            let label = match path {
                Some(p) => p,
                None => "<unknown>".to_owned(),
            };
            SmudgeStep::Ask {
                ask: SmudgeAsk::Open,
                then: Smudge { info, label, phase: SmudgePhase::Opening },
            }
        },
    }
}

/// Begins a run of the filter on its input. `path` is the file that the input belongs to,
/// where that is known. Input that is no pointer is passed through.
pub fn smudge(input: &[u8], path: Option<String>) -> (r: SmudgeStep)
    ensures
        r@ == smudge_start(info_in(input@), path.deep_view()),
{
    smudge_pointer(read_pointer(input), path)
}

/// How many more events a run can wait for.
pub open spec fn events_left(at: SmudgePhase) -> nat {
    match at {
        SmudgePhase::Opening => 5,
        SmudgePhase::Hydrating => 4,
        SmudgePhase::Configuring => 3,
        SmudgePhase::Pulling => 2,
        SmudgePhase::HydratingAgain => 1,
    }
}

/// A run goes forward only, so that it pulls once at most and tries to hydrate twice at
/// most. It pulls only if that was asked for in the configuration and it does not run
/// within such a pull, and it asks for nothing further where it does not.
pub proof fn lemma_smudge_pulls_once(m: SmudgeState, event: SmudgeEvent)
    ensures
        smudge_next(m, event) matches SmudgeMove::Ask { ask, then } ==> {
            &&& events_left(then.at) < events_left(m.at)
            &&& (ask is Pull <==> then.at is Pulling)
            &&& (ask is Pull ==> m.at is Configuring && (event matches SmudgeEvent::Configured {
                effective,
                already_attempted,
            } && effective.auto_pull_on_smudge && !already_attempted))
            &&& (ask is HydrateAgain ==> m.at is Pulling)
            &&& (ask is Hydrate ==> m.at is Opening)
        },
{
}

/// Input is lost in no case: a run ends with the large file, with the input passed
/// through, or with an error, and with an error only for a reason other than missing data.
pub proof fn lemma_missing_data_is_no_error(m: SmudgeState, event: SmudgeEvent)
    requires
        event matches SmudgeEvent::Hydrated { trouble } && trouble matches Some(e) && says_missing(e@),
        m.at is Hydrating || m.at is HydratingAgain,
    ensures
        match smudge_next(m, event) {
            SmudgeMove::Ask { .. } => true,
            SmudgeMove::Finished { end } => end == (SmudgeVerdict::PassThrough {
                warning: no_data_text(m.label),
            }),
        },
{
}

/// What the one filter wrote, the other takes up: of a pointer file with a good hash it is
/// that hash by which the content store is asked for the large file.
pub proof fn lemma_smudge_asks_for_the_hash(bytes: Seq<u8>, said: Said, path: Option<Seq<char>>)
    requires
        pointer_in(bytes) == Some(said),
        is_merkle_hash(said.0),
    ensures
        smudge_start(info_in(bytes), path) matches SmudgeMove::Ask { ask, then } && ask is Open && (
        smudge_next(then, SmudgeEvent::Opened) matches SmudgeMove::Ask { ask, .. } && ask == (
        SmudgeWish::Hydrate { hash: said.0 })),
{
}

} // verus!
