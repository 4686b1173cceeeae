//! A push, as a conversation: it asks for one piece of local work at a time, is told how
//! that went, and talks to the remote in between.

use vstd::prelude::*;

use crate::commands::naming::PushMode;
use crate::commands::setup::{trial_outcome, tried_pointer, validation_verdict, Validation};
use crate::commands::transactions::{
    publish, published_by, transaction_id, tx_identity, TransactionArtifacts, TxView,
};
use crate::commands::upkeep::{
    looked_for_stale, stale_text, stale_transactions, stale_warning, told_texts,
};
use crate::error::{told, Error};
use crate::reachability::ReachabilityPlan;
use crate::remote::{lemma_log_grows, new_calls, RemoteCall, RemoteSession, RemoteStore};
use crate::sync::manifest::{
    entry_views, missing_inputs, missing_relpaths, missing_required_relpaths, missing_text,
    requested, EntryView, Manifest,
};
use crate::sync::transfer::{
    entry_uploaded, fits, no_transfer, object_path, push_with_manifest_store, pushed, tally,
    SyncSummary,
};
use crate::text::{decimal, decimal_text, same_text, texts};

verus! {

/// What a push asks for.
pub enum PushAsk {
    /// Find the pointers of the commit and what they need.
    Plan,
    /// Try whether these files of the content store are enough.
    Validate { required: Vec<String> },
    /// Build the manifest: of these files, or of the whole content store.
    Build { only: Option<Vec<String>> },
    /// Take the push lock.
    Lock,
    /// Say what there is to say before the files are sent.
    Announce,
    /// Keep the manifest and the index of pointers, and say what is to be published.
    Keep { manifest: Manifest },
    /// Give the push lock back.
    Release,
}

/// What a push asks for, by view.
pub enum PushWish {
    Plan,
    Validate { required: Seq<Seq<char>> },
    Build { only: Option<Seq<Seq<char>>> },
    Lock,
    Announce,
    Keep { manifest: Manifest },
    Release,
}

impl View for PushAsk {
    type V = PushWish;

    open spec fn view(&self) -> PushWish {
        match *self {
            PushAsk::Plan => PushWish::Plan,
            PushAsk::Validate { required } => PushWish::Validate { required: texts(required@) },
            PushAsk::Build { only } => PushWish::Build {
                only: match only {
                    Some(relpaths) => Some(texts(relpaths@)),
                    None => None,
                },
            },
            PushAsk::Lock => PushWish::Lock,
            PushAsk::Announce => PushWish::Announce,
            PushAsk::Keep { manifest } => PushWish::Keep { manifest },
            PushAsk::Release => PushWish::Release,
        }
    }
}

/// What is published besides the manifest: where, when and under which name.
pub struct Publication {
    /// The branch that HEAD is on.
    pub branch: Option<String>,
    pub unix_ts: u64,
    pub uuid: String,
    pub manifest_json: Vec<u8>,
    pub pointer_json: Vec<u8>,
}

/// What came of what a push asked for.
pub enum PushEvent {
    /// The plan, and the files that it requires, each with the size of the file that is
    /// there.
    Planned { plan: ReachabilityPlan, found: Vec<(String, Option<u64>)> },
    /// The trial of the plan, none where there was nothing to try, and what came of hydrating
    /// its pointer.
    Validated { trial: Option<Validation>, hydrated: Result<(), Error> },
    Built { manifest: Manifest },
    Locked,
    Announced,
    Kept { publication: Publication },
    Released,
    Failed { error: Error },
}

/// How far a push has come.
pub enum PushPhase {
    Planning,
    Validating { pointers: usize, relpaths: Vec<String> },
    Building { pointers: usize, required: usize, missing: usize, all_cas: bool },
    Locking { pointers: usize, required: usize, all_cas: bool, manifest: Manifest },
    Announcing { pointers: usize, required: usize, all_cas: bool, manifest: Manifest },
    Keeping {
        pointers: usize,
        required: usize,
        all_cas: bool,
        entries: usize,
        total_bytes: u64,
        summary: SyncSummary,
    },
    Releasing { outcome: Result<Vec<String>, Error> },
}

/// How far a push has come, by view.
pub enum PushAt {
    Planning,
    Validating { pointers: usize, relpaths: Seq<Seq<char>> },
    Building { pointers: usize, required: usize, missing: usize, all_cas: bool },
    Locking { pointers: usize, required: usize, all_cas: bool, manifest: Manifest },
    Announcing { pointers: usize, required: usize, all_cas: bool, manifest: Manifest },
    Keeping {
        pointers: usize,
        required: usize,
        all_cas: bool,
        entries: usize,
        total_bytes: u64,
        summary: SyncSummary,
    },
    Releasing { outcome: Result<Seq<Seq<char>>, Seq<char>> },
}

impl View for PushPhase {
    type V = PushAt;

    open spec fn view(&self) -> PushAt {
        match *self {
            PushPhase::Planning => PushAt::Planning,
            PushPhase::Validating { pointers, relpaths } => PushAt::Validating {
                pointers,
                relpaths: texts(relpaths@),
            },
            PushPhase::Building { pointers, required, missing, all_cas } => PushAt::Building {
                pointers,
                required,
                missing,
                all_cas,
            },
            PushPhase::Locking { pointers, required, all_cas, manifest } => PushAt::Locking {
                pointers,
                required,
                all_cas,
                manifest,
            },
            PushPhase::Announcing { pointers, required, all_cas, manifest } => PushAt::Announcing {
                pointers,
                required,
                all_cas,
                manifest,
            },
            PushPhase::Keeping {
                pointers,
                required,
                all_cas,
                entries,
                total_bytes,
                summary,
            } => PushAt::Keeping { pointers, required, all_cas, entries, total_bytes, summary },
            PushPhase::Releasing { outcome } => PushAt::Releasing { outcome: told_texts(outcome) },
        }
    }
}

/// What was asked of a push.
#[derive(Clone, Copy)]
pub struct PushOptions {
    pub mode: PushMode,
    /// Say what would be pushed, and change nothing on the remote.
    pub plan_only: bool,
    /// Try the plan even if nothing is pushed.
    pub validate: bool,
}

/// A push.
pub struct PushRun {
    options: PushOptions,
    git_sha: String,
    local_cas_root: String,
    refname: Option<String>,
    phase: PushPhase,
}

impl PushRun {
    /// The sizes in a manifest that is to be sent can be added up.
    #[verifier::type_invariant]
    spec fn can_be_counted(self) -> bool {
        match self.phase {
            PushPhase::Locking { manifest, .. } => fits(entry_views(manifest.entries@)),
            PushPhase::Announcing { manifest, .. } => fits(entry_views(manifest.entries@)),
            _ => true,
        }
    }
}

/// A push, by view.
pub struct PushState {
    pub options: PushOptions,
    pub git_sha: Seq<char>,
    pub local_cas_root: Seq<char>,
    pub refname: Option<Seq<char>>,
    pub at: PushAt,
}

impl View for PushRun {
    type V = PushState;

    closed spec fn view(&self) -> PushState {
        PushState {
            options: self.options,
            git_sha: self.git_sha@,
            local_cas_root: self.local_cas_root@,
            refname: self.refname.deep_view(),
            at: self.phase@,
        }
    }
}

/// How a push goes on: with something to say and something to ask for, or not at all.
pub enum PushStep {
    Ask { ask: PushAsk, notices: Vec<String>, then: PushRun },
    Finished { outcome: Result<Vec<String>, Error> },
}

/// A step, by view.
pub enum PushMove {
    Ask { ask: PushWish, notices: Seq<Seq<char>>, then: PushState },
    Finished { outcome: Result<Seq<Seq<char>>, Seq<char>> },
}

impl View for PushStep {
    type V = PushMove;

    open spec fn view(&self) -> PushMove {
        match *self {
            PushStep::Ask { ask, notices, then } => PushMove::Ask {
                ask: ask@,
                notices: texts(notices@),
                then: then@,
            },
            PushStep::Finished { outcome } => PushMove::Finished { outcome: told_texts(outcome) },
        }
    }
}

/// What is said of an event that does not answer what was asked for.
pub open spec fn push_misfit_text() -> Seq<char> {
    "unexpected event in a push"@
}

/// What is said where minimal pushing turns out not to be enough.
pub open spec fn fallback_text() -> Seq<char> {
    "xet-ai: warning: minimal reachability validation failed; falling back to --all-cas for this push"@
}

/// What is said where a plan is not tried.
pub open spec fn unvalidated_text() -> Seq<char> {
    "xet-ai: warning: running minimal push without validation (--minimal-no-validate)"@
}

/// Ask for something, with something to say.
pub open spec fn asks(m: PushState, ask: PushWish, notices: Seq<Seq<char>>, at: PushAt) -> PushMove {
    PushMove::Ask { ask, notices, then: PushState { at, ..m } }
}

/// The push failed before it held the lock.
pub open spec fn fails(e: Seq<char>) -> PushMove {
    PushMove::Finished { outcome: Err(e) }
}

/// The push is over, and the lock is given back first.
pub open spec fn ends(m: PushState, outcome: Result<Seq<Seq<char>>, Seq<char>>) -> PushMove {
    asks(m, PushWish::Release, Seq::empty(), PushAt::Releasing { outcome })
}

/// The lock is held from when it was taken until it is given back.
pub open spec fn holds_lock(at: PushAt) -> bool {
    at is Announcing || at is Keeping || at is Releasing
}

/// The push is over because something failed. Where the lock is not held, there is none to
/// give back.
pub open spec fn stops(m: PushState, e: Seq<char>) -> PushMove {
    match m.at {
        PushAt::Releasing { outcome } => PushMove::Finished { outcome },
        at => if holds_lock(at) {
            ends(m, Err(e))
        } else {
            fails(e)
        },
    }
}

/// The plan is to be tried: by default it is where something is pushed, and where nothing
/// is, if that is wanted.
pub open spec fn tries_plan(options: PushOptions) -> bool {
    options.mode == PushMode::MinimalValidate && (!options.plan_only || options.validate)
}

/// What is said where everything is sent, because files that the commit needs are missing.
pub open spec fn missing_fallback_text(missing: nat, required: nat) -> Seq<char> {
    "xet-ai: warning: missing required CAS inputs: "@ + decimal(missing) + " of "@ + decimal(
        required,
    ) + "; falling back to --all-cas for this push"@
}

fn missing_fallback(missing: usize, required: usize) -> (r: String)
    ensures
        r@ == missing_fallback_text(missing as nat, required as nat),
{
    let mut m = "xet-ai: warning: missing required CAS inputs: ".to_owned();
    m.append(decimal_text(missing as u64).as_str());
    m.append(" of ");
    m.append(decimal_text(required as u64).as_str());
    m.append("; falling back to --all-cas for this push");
    m
}

/// The texts that are not among the others.
pub open spec fn without(s: Seq<Seq<char>>, others: Seq<Seq<char>>) -> Seq<Seq<char>>
    decreases s.len(),
{
    if s.len() == 0 {
        Seq::empty()
    } else if others.contains(s.last()) {
        without(s.drop_last(), others)
    } else {
        without(s.drop_last(), others).push(s.last())
    }
}

/// What is said of a plan that is not tried.
pub open spec fn untried_notice(mode: PushMode) -> Seq<Seq<char>> {
    if mode == PushMode::MinimalNoValidate {
        seq![unvalidated_text()]
    } else {
        Seq::empty()
    }
}

/// How a push goes on once the plan is made. Where files are missing that it requires,
/// nothing is published that leaves them out: a push that would try the plan sends
/// everything instead, and one that would not fails. One that only plans goes on with what
/// is there, to tell of it.
pub open spec fn after_plan(
    m: PushState,
    pointers: usize,
    required: Seq<Seq<char>>,
    missing: Seq<Seq<char>>,
) -> PushMove {
    let all_cas = m.options.mode == PushMode::AllCas;
    let count = required.len() as usize;
    let lacking = missing.len() as usize;
    if all_cas {
        asks(
            m,
            PushWish::Build { only: None },
            Seq::empty(),
            PushAt::Building { pointers, required: count, missing: lacking, all_cas: true },
        )
    } else if missing.len() > 0 {
        if tries_plan(m.options) {
            asks(
                m,
                PushWish::Build { only: None },
                seq![missing_fallback_text(missing.len(), required.len())],
                PushAt::Building { pointers, required: count, missing: lacking, all_cas: true },
            )
        } else if m.options.plan_only {
            asks(
                m,
                PushWish::Build { only: Some(without(required, missing)) },
                untried_notice(m.options.mode),
                PushAt::Building { pointers, required: count, missing: lacking, all_cas: false },
            )
        } else {
            fails(missing_text(missing))
        }
    } else if tries_plan(m.options) {
        asks(
            m,
            PushWish::Validate { required },
            Seq::empty(),
            PushAt::Validating { pointers, relpaths: required },
        )
    } else {
        asks(
            m,
            PushWish::Build { only: Some(required) },
            untried_notice(m.options.mode),
            PushAt::Building { pointers, required: count, missing: lacking, all_cas: false },
        )
    }
}

/// How a push goes on once the plan was tried: where it is not enough, everything is sent.
pub open spec fn after_trial(
    m: PushState,
    pointers: usize,
    required: Seq<Seq<char>>,
    verdict: Result<bool, Seq<char>>,
) -> PushMove {
    match verdict {
        Err(e) => fails(e),
        Ok(enough) => asks(
            m,
            PushWish::Build {
                only: if enough {
                    Some(required)
                } else {
                    None
                },
            },
            if enough {
                Seq::empty()
            } else {
                seq![fallback_text()]
            },
            PushAt::Building {
                pointers,
                required: required.len() as usize,
                missing: 0,
                all_cas: !enough,
            },
        ),
    }
}

/// The line that tells what a commit needs.
pub open spec fn reachability_line(pointers: usize, required: usize) -> Seq<char> {
    "reachability: "@ + decimal(pointers as nat) + " pointer files, "@ + decimal(required as nat)
        + " required CAS files"@
}

fn reachability_line_of(pointers: usize, required: usize) -> (r: String)
    ensures
        r@ == reachability_line(pointers, required),
{
    let mut m = "reachability: ".to_owned();
    m.append(decimal_text(pointers as u64).as_str());
    m.append(" pointer files, ");
    m.append(decimal_text(required as u64).as_str());
    m.append(" required CAS files");
    m
}

/// The line that tells how much is missing of what a commit needs.
pub open spec fn missing_line(missing: usize, required: usize) -> Seq<char> {
    "missing required CAS inputs: "@ + decimal(missing as nat) + " of "@ + decimal(required as nat)
}

fn missing_line_of(missing: usize, required: usize) -> (r: String)
    ensures
        r@ == missing_line(missing, required),
{
    let mut m = "missing required CAS inputs: ".to_owned();
    m.append(decimal_text(missing as u64).as_str());
    m.append(" of ");
    m.append(decimal_text(required as u64).as_str());
    m
}

/// What a push tells that only plans.
pub open spec fn plan_report(
    git_sha: Seq<char>,
    pointers: usize,
    required: usize,
    missing: usize,
    all_cas: bool,
    entries: nat,
    total_bytes: u64,
) -> Seq<Seq<char>> {
    let head = seq![
        "plan for "@ + git_sha + ": "@ + decimal(entries) + " entries (total bytes "@ + decimal(
            total_bytes as nat,
        ) + ")"@,
    ];
    let middle = if all_cas {
        Seq::empty()
    } else {
        seq![reachability_line(pointers, required)]
    };
    let lacking = if missing > 0 {
        seq![missing_line(missing, required)]
    } else {
        Seq::empty()
    };
    head + middle + lacking + seq!["plan only: the remote was not changed"@]
}

fn plan_report_of(
    git_sha: &str,
    pointers: usize,
    required: usize,
    missing: usize,
    all_cas: bool,
    entries: usize,
    total_bytes: u64,
) -> (r: Vec<String>)
    ensures
        texts(r@) == plan_report(
            git_sha@,
            pointers,
            required,
            missing,
            all_cas,
            entries as nat,
            total_bytes,
        ),
{
    let mut out: Vec<String> = Vec::new();
    let mut m = "plan for ".to_owned();
    m.append(git_sha);
    m.append(": ");
    m.append(decimal_text(entries as u64).as_str());
    m.append(" entries (total bytes ");
    m.append(decimal_text(total_bytes).as_str());
    m.append(")");
    out.push(m);
    if !all_cas {
        out.push(reachability_line_of(pointers, required));
    }
    if missing > 0 {
        out.push(missing_line_of(missing, required));
    }
    out.push("plan only: the remote was not changed".to_owned());
    proof {
        assert(texts(out@) =~= plan_report(
            git_sha@,
            pointers,
            required,
            missing,
            all_cas,
            entries as nat,
            total_bytes,
        ));
    }
    out
}

/// What a push tells.
pub open spec fn push_report(
    git_sha: Seq<char>,
    pointers: usize,
    required: usize,
    all_cas: bool,
    entries: nat,
    total_bytes: u64,
    summary: SyncSummary,
) -> Seq<Seq<char>> {
    let head = seq![
        copied_line(summary),
        "wrote manifest "@ + git_sha + " with "@ + decimal(entries) + " entries (total bytes "@
            + decimal(total_bytes as nat) + ")"@,
    ];
    let middle = if all_cas {
        Seq::empty()
    } else {
        seq![reachability_line(pointers, required)]
    };
    head + middle + seq!["updated HEAD -> "@ + git_sha]
}

/// The line that tells what was copied.
pub open spec fn copied_line(summary: SyncSummary) -> Seq<char> {
    "copied "@ + decimal(summary.files_copied as nat) + " files ("@ + decimal(
        summary.bytes_copied as nat,
    ) + " bytes)"@
}

/// The line that tells what was copied.
pub fn copied_line_of(summary: SyncSummary) -> (r: String)
    ensures
        r@ == copied_line(summary),
{
    let mut m = "copied ".to_owned();
    m.append(decimal_text(summary.files_copied).as_str());
    m.append(" files (");
    m.append(decimal_text(summary.bytes_copied).as_str());
    m.append(" bytes)");
    m
}

fn push_report_of(
    git_sha: &str,
    pointers: usize,
    required: usize,
    all_cas: bool,
    entries: usize,
    total_bytes: u64,
    summary: SyncSummary,
) -> (r: Vec<String>)
    ensures
        texts(r@) == push_report(
            git_sha@,
            pointers,
            required,
            all_cas,
            entries as nat,
            total_bytes,
            summary,
        ),
{
    let mut out: Vec<String> = Vec::new();
    out.push(copied_line_of(summary));
    let mut m = "wrote manifest ".to_owned();
    m.append(git_sha);
    m.append(" with ");
    m.append(decimal_text(entries as u64).as_str());
    m.append(" entries (total bytes ");
    m.append(decimal_text(total_bytes).as_str());
    m.append(")");
    out.push(m);
    if !all_cas {
        out.push(reachability_line_of(pointers, required));
    }
    let mut m = "updated HEAD -> ".to_owned();
    m.append(git_sha);
    out.push(m);
    out
}

/// The ref that is published: the one that was asked for, else the branch, else `HEAD`.
pub open spec fn ref_to_publish(wanted: Option<Seq<char>>, branch: Option<Seq<char>>) -> Seq<char> {
    match wanted {
        Some(name) => name,
        None => match branch {
            Some(name) => name,
            None => "HEAD"@,
        },
    }
}

/// The ref that is published.
pub fn push_refname(wanted: &Option<String>, branch: &Option<String>) -> (r: String)
    ensures
        r@ == ref_to_publish(wanted.deep_view(), branch.deep_view()),
{
    match wanted {
        Some(name) => name.clone(),
        None => match branch {
            Some(name) => name.clone(),
            None => "HEAD".to_owned(),
        },
    }
}

/// The transaction that a push publishes.
pub open spec fn push_tx(m: PushState, p: Publication) -> TxView {
    TxView {
        txid: tx_identity(m.git_sha, p.unix_ts, p.uuid@),
        git_sha: m.git_sha,
        refname: ref_to_publish(m.refname, p.branch.deep_view()),
        manifest_json: p.manifest_json@,
        pointer_json: p.pointer_json@,
    }
}

/// How a push begins: with the plan, before anything is asked of the remote.
pub open spec fn push_start(job: PushState) -> PushMove {
    asks(job, PushWish::Plan, Seq::empty(), PushAt::Planning)
}

/// The calls that a push makes at a step, and how it goes on.
pub open spec fn push_goes_on(
    m: PushState,
    event: PushEvent,
    calls: Seq<RemoteCall>,
    step: PushMove,
) -> bool {
    match (m.at, event) {
        (PushAt::Planning, PushEvent::Planned { plan, found }) => calls.len() == 0 && step
            == after_plan(
            m,
            plan.pointer_paths@.len() as usize,
            texts(plan.required_cas_relpaths@),
            missing_relpaths(requested(found@)),
        ),
        (
            PushAt::Validating { pointers, relpaths },
            PushEvent::Validated { trial, hydrated },
        ) => calls.len() == 0 && step == after_trial(
            m,
            pointers,
            relpaths,
            trial_outcome(tried_pointer(trial), hydrated is Ok),
        ),
        (
            PushAt::Building { pointers, required, missing, all_cas },
            PushEvent::Built { manifest },
        ) => if m.options.plan_only {
            calls.len() == 0 && step == (PushMove::Finished {
                outcome: Ok(
                    plan_report(
                        m.git_sha,
                        pointers,
                        required,
                        missing,
                        all_cas,
                        manifest.entries@.len(),
                        manifest.total_bytes,
                    ),
                ),
            })
        } else {
            &&& calls.len() == 1
            &&& calls[0] matches RemoteCall::Capabilities { reply: caps }
            &&& step == if caps.supports_locking {
                asks(
                    m,
                    PushWish::Lock,
                    Seq::empty(),
                    PushAt::Locking { pointers, required, all_cas, manifest },
                )
            } else {
                fails("remote backend does not support push locking"@)
            }
        },
        (
            PushAt::Locking { pointers, required, all_cas, manifest },
            PushEvent::Locked,
        ) => locked_talk(
            m,
            PushAt::Announcing { pointers, required, all_cas, manifest },
            calls,
            step,
        ),
        (
            PushAt::Announcing { pointers, required, all_cas, manifest },
            PushEvent::Announced,
        ) => sent_talk(m, pointers, required, all_cas, manifest, calls, step),
        (
            PushAt::Keeping { pointers, required, all_cas, entries, total_bytes, summary },
            PushEvent::Kept { publication },
        ) => exists|o: Result<(), Seq<char>>|
            {
                &&& #[trigger] published_by(calls, push_tx(m, publication), o)
                &&& step == match o {
                    Err(e) => ends(m, Err(e)),
                    Ok(_) => ends(
                        m,
                        Ok(
                            push_report(
                                m.git_sha,
                                pointers,
                                required,
                                all_cas,
                                entries as nat,
                                total_bytes,
                                summary,
                            ),
                        ),
                    ),
                }
            },
        (_, _) => calls.len() == 0 && step == stops(m, reason(event)),
    }
}

/// The files that the manifest lists are sent.
pub open spec fn sent_talk(
    m: PushState,
    pointers: usize,
    required: usize,
    all_cas: bool,
    manifest: Manifest,
    calls: Seq<RemoteCall>,
    step: PushMove,
) -> bool {
    exists|o: Result<SyncSummary, Seq<char>>|
        {
            &&& #[trigger] pushed(
                m.local_cas_root,
                entry_views(manifest.entries@),
                no_transfer(),
                calls,
                o,
            )
            &&& step == match o {
                Err(e) => ends(m, Err(e)),
                Ok(summary) => asks(
                    m,
                    PushWish::Keep { manifest },
                    Seq::empty(),
                    PushAt::Keeping {
                        pointers,
                        required,
                        all_cas,
                        entries: manifest.entries@.len() as usize,
                        total_bytes: manifest.total_bytes,
                        summary,
                    },
                ),
            }
        }
}

/// Once the lock is held, transactions are looked for that earlier pushes left behind.
pub open spec fn locked_talk(
    m: PushState,
    at: PushAt,
    calls: Seq<RemoteCall>,
    step: PushMove,
) -> bool {
    &&& calls.len() >= 1
    &&& calls[0] matches RemoteCall::Capabilities { reply: caps }
    &&& if !caps.supports_list_prefix {
        calls.len() == 1 && step == asks(m, PushWish::Announce, Seq::empty(), at)
    } else {
        exists|stale: Result<Seq<Seq<char>>, Seq<char>>|
            {
                &&& #[trigger] looked_for_stale(calls.skip(1), stale)
                &&& step == match stale {
                    Err(e) => ends(m, Err(e)),
                    Ok(ids) => asks(
                        m,
                        PushWish::Announce,
                        if ids.len() == 0 {
                            Seq::empty()
                        } else {
                            seq![stale_text(ids)]
                        },
                        at,
                    ),
                }
            }
    }
}

fn same_texts(v: &Vec<String>) -> (r: Vec<String>)
    ensures
        texts(r@) == texts(v@),
{
    let mut out: Vec<String> = Vec::new();
    let mut i: usize = 0;
    while i < v.len()
        invariant
            i <= v@.len(),
            texts(out@) == texts(v@.take(i as int)),
        decreases v@.len() - i,
    {
        out.push(v[i].clone());
        proof {
            assert(texts(v@.take(i + 1)) =~= texts(v@.take(i as int)).push(v@[i as int]@));
        }
        i += 1;
    }
    out
}

/// Whether the text is among the others.
fn is_among(text: &str, others: &Vec<String>) -> (r: bool)
    ensures
        r == texts(others@).contains(text@),
{
    let mut i: usize = 0;
    while i < others.len()
        invariant
            i <= others@.len(),
            forall|j: int| 0 <= j < i ==> texts(others@)[j] != text@,
        decreases others@.len() - i,
    {
        if same_text(others[i].as_str(), text) {
            assert(texts(others@)[i as int] == text@);
            return true;
        }
        i += 1;
    }
    false
}

fn texts_without(v: &Vec<String>, others: &Vec<String>) -> (r: Vec<String>)
    ensures
        texts(r@) == without(texts(v@), texts(others@)),
{
    let ghost all = texts(v@);
    let mut out: Vec<String> = Vec::new();
    let mut i: usize = 0;
    proof {
        assert(texts(out@) =~= without(all.take(0), texts(others@)));
    }
    while i < v.len()
        invariant
            i <= v@.len(),
            all == texts(v@),
            texts(out@) == without(all.take(i as int), texts(others@)),
        decreases v@.len() - i,
    {
        let ghost before = out@;
        proof {
            assert(all.take(i + 1).drop_last() =~= all.take(i as int));
        }
        if !is_among(v[i].as_str(), others) {
            out.push(v[i].clone());
            proof {
                assert(texts(out@) =~= texts(before).push(all[i as int]));
            }
        }
        i += 1;
    }
    proof {
        assert(all.take(i as int) =~= all);
    }
    out
}

fn quiet() -> (r: Vec<String>)
    ensures
        texts(r@) == Seq::<Seq<char>>::empty(),
{
    Vec::new()
}

fn notice(text: String) -> (r: Vec<String>)
    ensures
        texts(r@) == seq![text@],
{
    let mut out: Vec<String> = Vec::new();
    out.push(text);
    out
}

/// Why a push stops at an event that it cannot go on with.
pub open spec fn reason(event: PushEvent) -> Seq<char> {
    match event {
        PushEvent::Failed { error } => error@,
        _ => push_misfit_text(),
    }
}

fn why(event: PushEvent) -> (r: Error)
    ensures
        r@ == reason(event),
{
    match event {
        PushEvent::Failed { error } => error,
        _ => Error::saying("unexpected event in a push"),
    }
}

impl PushRun {
    fn at(self, phase: PushPhase) -> (r: PushRun)
        requires
            phase matches PushPhase::Locking { manifest, .. } ==> fits(
                entry_views(manifest.entries@),
            ),
            phase matches PushPhase::Announcing { manifest, .. } ==> fits(
                entry_views(manifest.entries@),
            ),
        ensures
            r@ == (PushState { at: phase@, ..self@ }),
    {
        PushRun {
            options: self.options,
            git_sha: self.git_sha,
            local_cas_root: self.local_cas_root,
            refname: self.refname,
            phase,
        }
    }

    fn ended(self, outcome: Result<Vec<String>, Error>) -> (r: PushStep)
        ensures
            r@ == ends(self@, told_texts(outcome)),
    {
        PushStep::Ask {
            ask: PushAsk::Release,
            notices: quiet(),
            then: self.at(PushPhase::Releasing { outcome }),
        }
    }

    fn locked<S: RemoteStore>(self, phase: PushPhase, store: &mut RemoteSession<S>) -> (r: PushStep)
        requires
            phase matches PushPhase::Announcing { manifest, .. } && fits(
                entry_views(manifest.entries@),
            ),
        ensures
            final(store).continues(old(store)),
            old(store).log().is_prefix_of(final(store).log()),
            locked_talk(self@, phase@, new_calls(old(store).log(), final(store).log()), r@),
    {
        let ghost log0 = store.log();
        let caps = store.capabilities();
        let ghost log1 = store.log();
        if !caps.supports_list_prefix {
            return PushStep::Ask {
                ask: PushAsk::Announce,
                notices: quiet(),
                then: self.at(phase),
            };
        }
        let stale = stale_transactions(store);
        proof {
            lemma_log_grows(log0, log1, store.log());
            let calls = new_calls(log0, store.log());
            assert(calls.skip(1) =~= new_calls(log1, store.log()));
        }
        match stale {
            Err(e) => self.ended(Err(e)),
            Ok(ids) => {
                let notices = if ids.len() == 0 {
                    quiet()
                } else {
                    notice(stale_warning(&ids))
                };
                PushStep::Ask { ask: PushAsk::Announce, notices, then: self.at(phase) }
            },
        }
    }

    fn planned(self, plan: ReachabilityPlan, found: Vec<(String, Option<u64>)>) -> (r: PushStep)
        ensures
            r@ == after_plan(
                self@,
                plan.pointer_paths@.len() as usize,
                texts(plan.required_cas_relpaths@),
                missing_relpaths(requested(found@)),
            ),
    {
        let pointers: usize = plan.pointer_paths.len();
        let required = plan.required_cas_relpaths;
        let count: usize = required.len();
        let missing = missing_required_relpaths(&found);
        let lacking: usize = missing.len();
        proof {
            assert(texts(missing@).len() == missing@.len());
            assert(texts(required@).len() == required@.len());
        }
        let PushOptions { mode, plan_only, validate } = self.options;
        let tries = mode == PushMode::MinimalValidate && (!plan_only || validate);
        if mode == PushMode::AllCas {
            return PushStep::Ask {
                ask: PushAsk::Build { only: None },
                notices: quiet(),
                then: self.at(
                    PushPhase::Building { pointers, required: count, missing: lacking, all_cas: true },
                ),
            };
        }
        if lacking > 0 && tries {
            return PushStep::Ask {
                ask: PushAsk::Build { only: None },
                notices: notice(missing_fallback(lacking, count)),
                then: self.at(
                    PushPhase::Building { pointers, required: count, missing: lacking, all_cas: true },
                ),
            };
        }
        if lacking > 0 && !plan_only {
            return PushStep::Finished { outcome: Err(missing_inputs(&missing)) };
        }
        if tries {
            return PushStep::Ask {
                ask: PushAsk::Validate { required: same_texts(&required) },
                notices: quiet(),
                then: self.at(PushPhase::Validating { pointers, relpaths: required }),
            };
        }
        let notices = if mode == PushMode::MinimalNoValidate {
            notice(
                "xet-ai: warning: running minimal push without validation (--minimal-no-validate)".to_owned(),
            )
        } else {
            quiet()
        };
        let only = if lacking > 0 {
            texts_without(&required, &missing)
        } else {
            required
        };
        PushStep::Ask {
            ask: PushAsk::Build { only: Some(only) },
            notices,
            then: self.at(
                PushPhase::Building { pointers, required: count, missing: lacking, all_cas: false },
            ),
        }
    }

    fn tried(
        self,
        pointers: usize,
        required: Vec<String>,
        trial: Option<Validation>,
        hydrated: Result<(), Error>,
    ) -> (r: PushStep)
        ensures
            r@ == after_trial(
                self@,
                pointers,
                texts(required@),
                trial_outcome(tried_pointer(trial), hydrated is Ok),
            ),
    {
        let count: usize = required.len();
        let enough = match validation_verdict(&trial, &hydrated) {
            Ok(enough) => enough,
            Err(e) => return PushStep::Finished { outcome: Err(e) },
        };
        let (only, notices) = if enough {
            (Some(required), quiet())
        } else {
            (
                None,
                notice(
                    "xet-ai: warning: minimal reachability validation failed; falling back to --all-cas for this push".to_owned(),
                ),
            )
        };
        PushStep::Ask {
            ask: PushAsk::Build { only },
            notices,
            then: self.at(
                PushPhase::Building { pointers, required: count, missing: 0, all_cas: !enough },
            ),
        }
    }

    fn built<S: RemoteStore>(
        self,
        pointers: usize,
        required: usize,
        missing: usize,
        all_cas: bool,
        manifest: Manifest,
        store: &mut RemoteSession<S>,
    ) -> (r: PushStep)
        requires
            self@.at == (PushAt::Building { pointers, required, missing, all_cas }),
            fits(entry_views(manifest.entries@)),
        ensures
            final(store).continues(old(store)),
            old(store).log().is_prefix_of(final(store).log()),
            push_goes_on(
                self@,
                (PushEvent::Built { manifest }),
                new_calls(old(store).log(), final(store).log()),
                r@,
            ),
    {
        let entries: usize = manifest.entries.len();
        let total_bytes: u64 = manifest.total_bytes;
        if self.options.plan_only {
            let report = plan_report_of(
                self.git_sha.as_str(),
                pointers,
                required,
                missing,
                all_cas,
                entries,
                total_bytes,
            );
            return PushStep::Finished { outcome: Ok(report) };
        }
        let caps = store.capabilities();
        if !caps.supports_locking {
            return PushStep::Finished {
                outcome: Err(Error::saying("remote backend does not support push locking")),
            };
        }
        PushStep::Ask {
            ask: PushAsk::Lock,
            notices: quiet(),
            then: self.at(PushPhase::Locking { pointers, required, all_cas, manifest }),
        }
    }

    fn announced<S: RemoteStore>(
        self,
        pointers: usize,
        required: usize,
        all_cas: bool,
        manifest: Manifest,
        store: &mut RemoteSession<S>,
    ) -> (r: PushStep)
        requires
            fits(entry_views(manifest.entries@)),
        ensures
            final(store).continues(old(store)),
            old(store).log().is_prefix_of(final(store).log()),
            sent_talk(
                self@,
                pointers,
                required,
                all_cas,
                manifest,
                new_calls(old(store).log(), final(store).log()),
                r@,
            ),
    {
        let entries: usize = manifest.entries.len();
        let total_bytes: u64 = manifest.total_bytes;
        let sent = push_with_manifest_store(self.local_cas_root.as_str(), store, &manifest);
        match sent {
            Err(e) => self.ended(Err(e)),
            Ok(summary) => PushStep::Ask {
                ask: PushAsk::Keep { manifest },
                notices: quiet(),
                then: self.at(
                    PushPhase::Keeping {
                        pointers,
                        required,
                        all_cas,
                        entries,
                        total_bytes,
                        summary,
                    },
                ),
            },
        }
    }

    fn kept<S: RemoteStore>(
        self,
        pointers: usize,
        required: usize,
        all_cas: bool,
        entries: usize,
        total_bytes: u64,
        summary: SyncSummary,
        publication: Publication,
        store: &mut RemoteSession<S>,
    ) -> (r: PushStep)
        requires
            self@.at == (PushAt::Keeping {
                pointers,
                required,
                all_cas,
                entries,
                total_bytes,
                summary,
            }),
        ensures
            final(store).continues(old(store)),
            old(store).log().is_prefix_of(final(store).log()),
            push_goes_on(
                self@,
                (PushEvent::Kept { publication }),
                new_calls(old(store).log(), final(store).log()),
                r@,
            ),
    {
        let ghost log0 = store.log();
        let ghost m = self@;
        let ghost p = publication;
        let txid = transaction_id(
            self.git_sha.as_str(),
            publication.unix_ts,
            publication.uuid.as_str(),
        );
        let refname = push_refname(&self.refname, &publication.branch);
        let tx = TransactionArtifacts {
            txid,
            git_sha: self.git_sha.clone(),
            refname,
            manifest_json: publication.manifest_json,
            pointer_json: publication.pointer_json,
        };
        let done = publish(store, &tx);
        proof {
            assert(published_by(new_calls(log0, store.log()), push_tx(m, p), told(done)));
        }
        match done {
            Err(e) => self.ended(Err(e)),
            Ok(_) => {
                let report = push_report_of(
                    self.git_sha.as_str(),
                    pointers,
                    required,
                    all_cas,
                    entries,
                    total_bytes,
                    summary,
                );
                self.ended(Ok(report))
            },
        }
    }

    /// Goes on after an event.
    pub fn next<S: RemoteStore>(self, event: PushEvent, store: &mut RemoteSession<S>) -> (r:
        PushStep)
        requires
            event matches PushEvent::Built { manifest } ==> fits(entry_views(manifest.entries@)),
        ensures
            final(store).continues(old(store)),
            old(store).log().is_prefix_of(final(store).log()),
            push_goes_on(
                self@,
                event,
                new_calls(old(store).log(), final(store).log()),
                r@,
            ),
    {
        proof {
            use_type_invariant(&self);
        }
        let PushRun { options, git_sha, local_cas_root, refname, phase } = self;
        let job = PushRun { options, git_sha, local_cas_root, refname, phase: PushPhase::Planning };
        match (phase, event) {
            (PushPhase::Releasing { outcome }, _) => PushStep::Finished { outcome },
            (PushPhase::Planning, PushEvent::Planned { plan, found }) => job.planned(plan, found),
            (
                PushPhase::Validating { pointers, relpaths },
                PushEvent::Validated { trial, hydrated },
            ) => job.tried(pointers, relpaths, trial, hydrated),
            (
                PushPhase::Building { pointers, required, missing, all_cas },
                PushEvent::Built { manifest },
            ) => job.at(PushPhase::Building { pointers, required, missing, all_cas }).built(
                pointers,
                required,
                missing,
                all_cas,
                manifest,
                store,
            ),
            (
                PushPhase::Locking { pointers, required, all_cas, manifest },
                PushEvent::Locked,
            ) => job.locked(
                PushPhase::Announcing { pointers, required, all_cas, manifest },
                store,
            ),
            (
                PushPhase::Announcing { pointers, required, all_cas, manifest },
                PushEvent::Announced,
            ) => job.announced(pointers, required, all_cas, manifest, store),
            (
                PushPhase::Keeping { pointers, required, all_cas, entries, total_bytes, summary },
                PushEvent::Kept { publication },
            ) => job.at(
                PushPhase::Keeping { pointers, required, all_cas, entries, total_bytes, summary },
            ).kept(
                pointers,
                required,
                all_cas,
                entries,
                total_bytes,
                summary,
                publication,
                store,
            ),
            (PushPhase::Announcing { .. }, event) => job.ended(Err(why(event))),
            (PushPhase::Keeping { .. }, event) => job.ended(Err(why(event))),
            (_, event) => PushStep::Finished { outcome: Err(why(event)) },
        }
    }
}

/// Begins a push of the commit `git_sha`, under the ref `refname` if one is given.
pub fn push(
    options: PushOptions,
    git_sha: &str,
    local_cas_root: &str,
    refname: Option<String>,
) -> (r: PushStep)
    ensures
        r@ == push_start(
            (PushState {
                options,
                git_sha: git_sha@,
                local_cas_root: local_cas_root@,
                refname: refname.deep_view(),
                at: PushAt::Planning,
            }),
        ),
{
    PushStep::Ask {
        ask: PushAsk::Plan,
        notices: quiet(),
        then: PushRun {
            options,
            git_sha: git_sha.to_owned(),
            local_cas_root: local_cas_root.to_owned(),
            refname,
            phase: PushPhase::Planning,
        },
    }
}

/// A push that only plans makes no call on the remote at all, does not take the lock and
/// keeps nothing, from its beginning to its end.
pub proof fn lemma_plan_only_is_silent(
    m: PushState,
    event: PushEvent,
    calls: Seq<RemoteCall>,
    step: PushMove,
)
    requires
        m.options.plan_only,
        m.at is Planning || m.at is Validating || m.at is Building,
        push_goes_on(m, event, calls, step),
    ensures
        calls.len() == 0,
        step matches PushMove::Ask { ask, then, .. } ==> {
            &&& (ask is Validate || ask is Build)
            &&& then.options == m.options
            &&& (then.at is Validating || then.at is Building)
        },
{
}

/// A push plans, tries the plan and builds the manifest before anything is asked of the
/// remote and before the lock: until then it makes no call, the lock is asked for only once
/// the manifest is there, with nothing but what the remote can do looked at, and it is that
/// manifest that is held from then on.
pub proof fn lemma_plans_before_it_locks(
    m: PushState,
    event: PushEvent,
    calls: Seq<RemoteCall>,
    step: PushMove,
)
    requires
        m.at is Planning || m.at is Validating || m.at is Building,
        push_goes_on(m, event, calls, step),
    ensures
        forall|i: int| 0 <= i < calls.len() ==> #[trigger] calls[i] is Capabilities,
        calls.len() > 0 ==> m.at is Building && event is Built && !m.options.plan_only,
        step matches PushMove::Ask { ask, then, .. } ==> {
            &&& !holds_lock(then.at)
            &&& (ask is Lock <==> then.at is Locking)
            &&& (ask is Lock ==> m.at is Building && (event matches PushEvent::Built { manifest }
                && then.at->Locking_manifest == manifest))
        },
{
}

/// Without the lock a push goes nowhere, and once it has the lock, it sends the manifest
/// that it had built.
pub proof fn lemma_nothing_is_sent_without_the_lock(
    m: PushState,
    event: PushEvent,
    calls: Seq<RemoteCall>,
    step: PushMove,
)
    requires
        push_goes_on(m, event, calls, step),
    ensures
        !holds_lock(m.at) ==> forall|i: int|
            0 <= i < calls.len() ==> !((#[trigger] calls[i]) is CopyIn) && !(calls[i] is Write),
        m.at is Locking && !(event is Locked) ==> calls.len() == 0 && step is Finished,
        m.at matches PushAt::Locking { manifest, .. } ==> (step matches PushMove::Ask { then, .. }
            ==> then.at is Announcing ==> then.at->Announcing_manifest == manifest),
{
    if m.at is Locking && event is Locked {
        assert forall|i: int| 0 <= i < calls.len() implies !((#[trigger] calls[i]) is CopyIn)
            && !(calls[i] is Write) by {
            if i > 1 {
                assert(calls.skip(1).skip(1)[i - 2] == calls[i]);
            }
        }
    }
}

/// The call writes an object.
pub open spec fn is_write(call: RemoteCall) -> bool {
    call is Write
}

proof fn lemma_transfer_writes_nothing(
    root: Seq<char>,
    entries: Seq<EntryView>,
    done: SyncSummary,
    calls: Seq<RemoteCall>,
    outcome: Result<SyncSummary, Seq<char>>,
)
    requires
        pushed(root, entries, done, calls, outcome),
    ensures
        forall|i: int| 0 <= i < calls.len() ==> !is_write(#[trigger] calls[i]),
    decreases entries.len(),
{
    if entries.len() > 0 {
        let (k, o) = choose|k: int, o: Result<u64, Seq<char>>|
            {
                &&& 0 <= k <= calls.len()
                &&& #[trigger] entry_uploaded(calls.take(k), root, entries[0], o)
                &&& match o {
                    Err(e) => k == calls.len() && outcome == Err::<SyncSummary, Seq<char>>(e),
                    Ok(copied) => pushed(
                        root,
                        entries.drop_first(),
                        tally(done, copied),
                        calls.skip(k),
                        outcome,
                    ),
                }
            };
        if let Ok(copied) = o {
            lemma_transfer_writes_nothing(
                root,
                entries.drop_first(),
                tally(done, copied),
                calls.skip(k),
                outcome,
            );
        }
        assert forall|i: int| 0 <= i < calls.len() implies !is_write(#[trigger] calls[i]) by {
            if i >= k {
                assert(calls.skip(k)[i - k] == calls[i]);
            }
        }
    }
}

/// Refs, HEADs and manifests are written at the last step alone, and that is reached only
/// by a step at which every file that the manifest lists was brought to the remote and
/// verified there.
pub proof fn lemma_publishes_after_transfer(
    m: PushState,
    event: PushEvent,
    calls: Seq<RemoteCall>,
    step: PushMove,
)
    requires
        push_goes_on(m, event, calls, step),
    ensures
        !(m.at is Keeping) ==> forall|i: int|
            0 <= i < calls.len() ==> !is_write(#[trigger] calls[i]),
        step matches PushMove::Ask { then, .. } && then.at is Keeping ==> {
            &&& m.at matches PushAt::Announcing { manifest, .. }
            &&& event is Announced
            &&& exists|summary: SyncSummary| #[trigger]
                pushed(
                    m.local_cas_root,
                    entry_views(manifest.entries@),
                    no_transfer(),
                    calls,
                    Ok(summary),
                )
        },
{
    if m.at is Announcing && event is Announced {
        let manifest = m.at->Announcing_manifest;
        let o = choose|o: Result<SyncSummary, Seq<char>>|
            {
                &&& #[trigger] pushed(
                    m.local_cas_root,
                    entry_views(manifest.entries@),
                    no_transfer(),
                    calls,
                    o,
                )
                &&& (o is Err ==> step == ends(m, Err(o->Err_0)))
                &&& (o is Ok ==> step is Ask)
            };
        lemma_transfer_writes_nothing(
            m.local_cas_root,
            entry_views(manifest.entries@),
            no_transfer(),
            calls,
            o,
        );
    }
    if m.at is Locking && event is Locked {
        assert forall|i: int| 0 <= i < calls.len() implies !is_write(#[trigger] calls[i]) by {
            if i > 0 {
                if i > 1 {
                    assert(calls.skip(1).skip(1)[i - 2] == calls[i]);
                }
            }
        }
    }
}

/// How the push came out, where the step says so: it is over, or only the lock is left to
/// be given back.
pub open spec fn outcome_told(step: PushMove) -> Option<Result<Seq<Seq<char>>, Seq<char>>> {
    match step {
        PushMove::Finished { outcome } => Some(outcome),
        PushMove::Ask { then, .. } => match then.at {
            PushAt::Releasing { outcome } => Some(outcome),
            _ => None,
        },
    }
}

/// A push that took the lock gives it back before it is over, however it comes out: no
/// step but the one after the lock was given back finishes it, that step tells what had
/// come out by then, and nothing is called on the remote in between.
pub proof fn lemma_lock_is_given_back(
    m: PushState,
    event: PushEvent,
    calls: Seq<RemoteCall>,
    step: PushMove,
)
    requires
        holds_lock(m.at) || (m.at is Locking && event is Locked),
        push_goes_on(m, event, calls, step),
    ensures
        step is Finished <==> m.at is Releasing,
        m.at matches PushAt::Releasing { outcome } ==> calls.len() == 0 && step
            == (PushMove::Finished { outcome }),
        step matches PushMove::Ask { ask, then, .. } ==> {
            &&& (ask is Release <==> then.at is Releasing)
            &&& !(ask is Lock)
            &&& holds_lock(then.at)
            &&& then.options == m.options
        },
{
}

/// A push whose transfer fails publishes nothing: no object is written, what was copied
/// before the failure lies among the objects, and all that is left to do is to give the
/// lock back and to tell of the failure.
pub proof fn lemma_failed_transfer_publishes_nothing(
    m: PushState,
    manifest: Manifest,
    calls: Seq<RemoteCall>,
    step: PushMove,
)
    requires
        m.at matches PushAt::Announcing { manifest: held, .. } && held == manifest,
        push_goes_on(m, PushEvent::Announced, calls, step),
        !(step matches PushMove::Ask { ask, .. } && ask is Keep),
    ensures
        exists|e: Seq<char>| #[trigger]
            pushed(
                m.local_cas_root,
                entry_views(manifest.entries@),
                no_transfer(),
                calls,
                Err(e),
            ) && step == asks(
                m,
                PushWish::Release,
                Seq::empty(),
                PushAt::Releasing { outcome: Err(e) },
            ),
        forall|i: int| 0 <= i < calls.len() ==> !is_write(#[trigger] calls[i]),
        forall|i: int|
            0 <= i < calls.len() ==> ((#[trigger] calls[i]) matches RemoteCall::CopyIn { path, .. }
                ==> exists|j: int|
                0 <= j < manifest.entries@.len() && path == object_path(
                    #[trigger] manifest.entries@[j].relpath@,
                )),
{
    lemma_publishes_after_transfer(m, PushEvent::Announced, calls, step);
    let o = choose|o: Result<SyncSummary, Seq<char>>|
        {
            &&& #[trigger] pushed(
                m.local_cas_root,
                entry_views(manifest.entries@),
                no_transfer(),
                calls,
                o,
            )
            &&& (o is Err ==> step == ends(m, Err(o->Err_0)))
            &&& (o matches Ok(_) ==> step matches PushMove::Ask { ask, .. } && ask is Keep)
        };
    assert(o is Err);
    lemma_transfer_copies_objects(
        m.local_cas_root,
        entry_views(manifest.entries@),
        no_transfer(),
        calls,
        o,
    );
    assert forall|i: int| 0 <= i < calls.len() && (#[trigger] calls[i]) is CopyIn implies exists|
        j: int,
    |
        0 <= j < manifest.entries@.len() && calls[i]->CopyIn_path == object_path(
            #[trigger] manifest.entries@[j].relpath@,
        ) by {
        let j = choose|j: int|
            0 <= j < entry_views(manifest.entries@).len() && calls[i]->CopyIn_path == object_path(
                (#[trigger] entry_views(manifest.entries@)[j]).relpath,
            );
        assert(manifest.entries@[j].relpath@ == entry_views(manifest.entries@)[j].relpath);
    }
}

/// A transfer copies in nothing but the entries' own objects.
proof fn lemma_transfer_copies_objects(
    root: Seq<char>,
    entries: Seq<EntryView>,
    done: SyncSummary,
    calls: Seq<RemoteCall>,
    outcome: Result<SyncSummary, Seq<char>>,
)
    requires
        pushed(root, entries, done, calls, outcome),
    ensures
        forall|i: int|
            0 <= i < calls.len() ==> ((#[trigger] calls[i]) matches RemoteCall::CopyIn { path, .. }
                ==> exists|j: int|
                0 <= j < entries.len() && path == object_path((#[trigger] entries[j]).relpath)),
    decreases entries.len(),
{
    if entries.len() > 0 {
        let (k, o) = choose|k: int, o: Result<u64, Seq<char>>|
            {
                &&& 0 <= k <= calls.len()
                &&& #[trigger] entry_uploaded(calls.take(k), root, entries[0], o)
                &&& match o {
                    Err(e) => k == calls.len() && outcome == Err::<SyncSummary, Seq<char>>(e),
                    Ok(copied) => pushed(
                        root,
                        entries.drop_first(),
                        tally(done, copied),
                        calls.skip(k),
                        outcome,
                    ),
                }
            };
        if let Ok(copied) = o {
            lemma_transfer_copies_objects(
                root,
                entries.drop_first(),
                tally(done, copied),
                calls.skip(k),
                outcome,
            );
        }
        assert forall|i: int| 0 <= i < calls.len() && (#[trigger] calls[i]) is CopyIn implies exists|
            j: int,
        |
            0 <= j < entries.len() && calls[i]->CopyIn_path == object_path(
                (#[trigger] entries[j]).relpath,
            ) by {
            if i >= k {
                assert(calls.skip(k)[i - k] == calls[i]);
                let rest = entries.drop_first();
                let j = choose|j: int|
                    0 <= j < rest.len() && calls[i]->CopyIn_path == object_path(
                        (#[trigger] rest[j]).relpath,
                    );
                assert(rest[j] == entries[j + 1]);
            } else {
                assert(calls.take(k)[i] == calls[i]);
                assert(calls[i]->CopyIn_path == object_path(entries[0].relpath));
            }
        }
    }
}

/// Where a plan turns out not to be enough, where files that it requires are missing and
/// it was to be tried, or where everything was asked for, the manifest is built of the
/// whole content store.
pub proof fn lemma_falls_back_to_everything(
    m: PushState,
    event: PushEvent,
    calls: Seq<RemoteCall>,
    step: PushMove,
)
    requires
        push_goes_on(m, event, calls, step),
        (m.at is Validating && (event matches PushEvent::Validated { trial, hydrated }
            && trial_outcome(tried_pointer(trial), hydrated is Ok) == Ok::<bool, Seq<char>>(
            false,
        ))) || (m.at is Planning && event is Planned && m.options.mode == PushMode::AllCas) || (
        m.at is Planning && event is Planned && tries_plan(m.options) && missing_relpaths(
            requested(event->found@),
        ).len() > 0),
    ensures
        step matches PushMove::Ask { ask, .. } && ask == (PushWish::Build { only: None }),
{
}

/// A push never publishes a manifest that leaves out files which the commit needs and
/// which are missing: it sends everything, with a warning, or it fails and names them.
pub proof fn lemma_missing_inputs_are_not_passed_over(
    m: PushState,
    plan: ReachabilityPlan,
    found: Vec<(String, Option<u64>)>,
    calls: Seq<RemoteCall>,
    step: PushMove,
)
    requires
        m.at is Planning,
        !m.options.plan_only,
        m.options.mode != PushMode::AllCas,
        missing_relpaths(requested(found@)).len() > 0,
        push_goes_on(m, (PushEvent::Planned { plan, found }), calls, step),
    ensures
        m.options.mode == PushMode::MinimalValidate ==> (step matches PushMove::Ask {
            ask,
            notices,
            ..
        } && ask == (PushWish::Build { only: None }) && notices == seq![
            missing_fallback_text(
                missing_relpaths(requested(found@)).len(),
                plan.required_cas_relpaths@.len(),
            ),
        ]),
        m.options.mode == PushMode::MinimalNoValidate ==> outcome_told(step) == Some(
            Err::<Seq<Seq<char>>, Seq<char>>(missing_text(missing_relpaths(requested(found@)))),
        ),
{
}

/// A minimal push whose files are all there asks for a manifest of exactly the files that
/// the plan requires. Where the plan is tried first, it is the same files that are tried,
/// and if they are enough it is these that the manifest is built of.
pub proof fn lemma_builds_what_was_planned(
    m: PushState,
    plan: ReachabilityPlan,
    found: Vec<(String, Option<u64>)>,
    calls: Seq<RemoteCall>,
    step: PushMove,
)
    requires
        m.at is Planning,
        m.options.mode != PushMode::AllCas,
        missing_relpaths(requested(found@)).len() == 0,
        push_goes_on(m, (PushEvent::Planned { plan, found }), calls, step),
    ensures
        step matches PushMove::Ask { ask, then, .. } && match ask {
            PushWish::Build { only } => only == Some(texts(plan.required_cas_relpaths@)),
            PushWish::Validate { required } => {
                &&& required == texts(plan.required_cas_relpaths@)
                &&& forall|
                    trial: Option<Validation>,
                    hydrated: Result<(), Error>,
                    more: Seq<RemoteCall>,
                    next: PushMove,
                |
                    #[trigger]
                    push_goes_on(then, PushEvent::Validated { trial, hydrated }, more, next)
                        && trial_outcome(tried_pointer(trial), hydrated is Ok) == Ok::<
                        bool,
                        Seq<char>,
                    >(true) ==> (next matches PushMove::Ask { ask, .. } && ask == (PushWish::Build {
                        only: Some(required),
                    }))
            },
            _ => false,
        },
{
}

/// A push that only plans tries the plan only where that is wanted, and where the files
/// that it requires are there.
pub proof fn lemma_plan_only_validates_on_request(
    m: PushState,
    plan: ReachabilityPlan,
    found: Vec<(String, Option<u64>)>,
    calls: Seq<RemoteCall>,
    step: PushMove,
)
    requires
        m.at is Planning,
        m.options.plan_only,
        push_goes_on(m, (PushEvent::Planned { plan, found }), calls, step),
    ensures
        step matches PushMove::Ask { ask, .. } && (ask is Validate <==> m.options.validate
            && m.options.mode == PushMode::MinimalValidate && missing_relpaths(
            requested(found@),
        ).len() == 0),
{
}

} // verus!
