//! Laws of a push: what it asks for, in which order, and what it tells.

use vstd::prelude::*;

use crate::commands::naming::PushMode;
use crate::commands::push::{
    plan_report, push_report, stops, without, PushAsk, PushAt, PushEvent, PushOptions, PushRun,
    PushStep, Publication,
};
use crate::commands::setup::{validation_verdict, Validation};
use crate::commands::upkeep::{looked_for_stale, stale_text};
use crate::error::Error;
use crate::laws::publish::ended_well;
use crate::laws::remotes::{asked_of, lemma_stale, was_not_confirmed};
use crate::laws::store::{bytes_in, is_among, lemma_bytes_in};
use crate::laws::transfer::{brought_to, has_entry_object, lemma_push_counts};
use crate::reachability::ReachabilityPlan;
use crate::remote::{new_calls, RemoteCall, RemoteSession, RemoteStore};
use crate::sync::manifest::{entry_views, missing_required_relpaths, Manifest};
use crate::sync::roundtrip::{keeps, kept_after, lemma_push_keeps_everything, truthful, Objects};
use crate::sync::transfer::{no_transfer, pushed, SyncSummary};
use crate::sync::world::Files;
use crate::text::{decimal, joined, texts};

verus! {

/// The two lists say the same.
pub open spec fn same_list(a: Seq<String>, b: Seq<String>) -> bool {
    a.len() == b.len() && forall|i: int| 0 <= i < a.len() ==> (#[trigger] a[i])@ == b[i]@
}

proof fn lemma_same_list(a: Seq<String>, b: Seq<String>)
    requires
        texts(a) == texts(b),
    ensures
        same_list(a, b),
{
    assert(texts(a).len() == a.len() && texts(b).len() == b.len());
    assert forall|i: int| 0 <= i < a.len() implies (#[trigger] a[i])@ == b[i]@ by {
        assert(texts(a)[i] == a[i]@ && texts(b)[i] == b[i]@);
    }
}

/// One thing is said, and it is this.
pub open spec fn says_only(v: Seq<String>, line: Seq<char>) -> bool {
    v.len() == 1 && v[0]@ == line
}

proof fn lemma_said(v: Seq<String>, lines: Seq<Seq<char>>)
    requires
        texts(v) == lines,
    ensures
        v.len() == lines.len(),
        forall|i: int| 0 <= i < v.len() ==> (#[trigger] v[i])@ == lines[i],
{
    assert(texts(v).len() == v.len());
    assert forall|i: int| 0 <= i < v.len() implies (#[trigger] v[i])@ == lines[i] by {
        assert(texts(v)[i] == v[i]@);
    }
}

/// The push is over, with this error.
pub open spec fn fails_with(r: PushStep, why: Seq<char>) -> bool {
    r matches PushStep::Finished { outcome } && (outcome matches Err(e) && e@ == why)
}

/// The lock is to be given back, and then the push is over with this error.
pub open spec fn gives_back_and_fails(r: PushStep, why: Seq<char>) -> bool {
    r matches PushStep::Ask { ask, notices, then } && ask is Release && notices@.len() == 0 && (
    then@.at matches PushAt::Releasing { outcome } && outcome == Err::<Seq<Seq<char>>, Seq<char>>(
        why,
    ))
}

/// A push begins by asking for the plan, and holds on to what it was told.
pub proof fn law_push_begins(
    options: PushOptions,
    git_sha: &str,
    local_cas_root: &str,
    refname: Option<String>,
    r: PushStep,
)
    requires
        call_ensures(crate::commands::push::push, (options, git_sha, local_cas_root, refname), r),
    ensures
        r matches PushStep::Ask { ask, notices, then } && ask is Plan && notices@.len() == 0
            && then@.at is Planning && then@.options == options && then@.git_sha == git_sha@
            && then@.local_cas_root == local_cas_root@ && match refname {
            Some(name) => then@.refname == Some(name@),
            None => then@.refname is None,
        },
{
    if let PushStep::Ask { ask, notices, then } = r {
        lemma_said(notices@, Seq::empty());
    }
}

/// Whatever happens, a push that goes on goes on with the same commit, the same content
/// store, the same ref and the same options.
pub proof fn law_push_holds_on<S: RemoteStore>(
    m: PushRun,
    event: PushEvent,
    s: &mut RemoteSession<S>,
    r: PushStep,
)
    requires
        call_ensures(PushRun::next::<S>, (m, event, s), r),
    ensures
        r matches PushStep::Ask { then, .. } ==> then@.git_sha == m@.git_sha && then@.refname
            == m@.refname && then@.local_cas_root == m@.local_cas_root && then@.options
            == m@.options,
{
}

proof fn lemma_without(s: Seq<Seq<char>>, others: Seq<Seq<char>>, t: Seq<char>)
    ensures
        without(s, others).contains(t) <==> s.contains(t) && !others.contains(t),
    decreases s.len(),
{
    if s.len() > 0 {
        let q = s.drop_last();
        let w = without(q, others);
        lemma_without(q, others, t);
        if s.contains(t) && t != s.last() {
            let n = choose|n: int| 0 <= n < s.len() && s[n] == t;
            assert(q[n] == t);
        }
        if q.contains(t) {
            let n = choose|n: int| 0 <= n < q.len() && q[n] == t;
            assert(s[n] == t);
        }
        if w.contains(t) && !others.contains(s.last()) {
            let n = choose|n: int| 0 <= n < w.len() && w[n] == t;
            assert(without(s, others)[n] == t);
        }
        assert(s[s.len() - 1] == s.last());
        if !others.contains(s.last()) {
            assert(without(s, others).last() == s.last());
            if without(s, others).contains(t) && t != s.last() {
                let n = choose|n: int|
                    0 <= n < without(s, others).len() && without(s, others)[n] == t;
                assert(w[n] == t);
            }
        }
    }
}

/// The manifest is to be built of these files, or of everything.
pub open spec fn asks_to_build(r: PushStep, only: Option<Seq<String>>) -> bool {
    r matches PushStep::Ask { ask, then, .. } && then@.at is Building && (
    ask matches PushAsk::Build { only: chosen } && match (chosen, only) {
        (Some(a), Some(b)) => same_list(a@, b),
        (None, None) => true,
        _ => false,
    })
}

/// What is said besides what is asked for.
pub open spec fn notices_of(r: PushStep) -> Seq<String> {
    match r {
        PushStep::Ask { notices, .. } => notices@,
        PushStep::Finished { .. } => Seq::empty(),
    }
}

/// Once the plan is made, and without a word to the remote: a push of everything has the
/// manifest built of everything. A push that tries its plan does so with the files that are
/// required, or, where some of them are missing, falls back to everything, and says so. One
/// that does not try it has the manifest built of the files that are required; where some are
/// missing it fails, or, where it only plans, leaves them out.
pub proof fn law_planned<S: RemoteStore>(
    m: PushRun,
    plan: ReachabilityPlan,
    found: Vec<(String, Option<u64>)>,
    s: &mut RemoteSession<S>,
    r: PushStep,
    looked_at: &Vec<(String, Option<u64>)>,
    missing: Vec<String>,
    t: Seq<char>,
)
    requires
        call_ensures(PushRun::next::<S>, (m, PushEvent::Planned { plan, found }, s), r),
        m@.at is Planning,
        looked_at@ == found@,
        call_ensures(missing_required_relpaths, (looked_at,), missing),
    ensures
        new_calls(old(s).log(), final(s).log()).len() == 0,
        ({
            let required = plan.required_cas_relpaths@;
            let tries = m@.options.mode == PushMode::MinimalValidate && (!m@.options.plan_only
                || m@.options.validate);
            let all = m@.options.mode == PushMode::AllCas;
            &&& all ==> asks_to_build(r, None) && notices_of(r).len() == 0
            &&& !all && tries && missing@.len() > 0 ==> asks_to_build(r, None) && says_only(
                notices_of(r),
                "xet-ai: warning: missing required CAS inputs: "@ + decimal(missing@.len())
                    + " of "@ + decimal(required.len())
                    + "; falling back to --all-cas for this push"@,
            )
            &&& !all && tries && missing@.len() == 0 ==> notices_of(r).len() == 0 && (
            r matches PushStep::Ask { ask, then, .. } && then@.at is Validating && (
            ask matches PushAsk::Validate { required: tried } && same_list(tried@, required)))
            &&& !all && !tries && missing@.len() == 0 ==> asks_to_build(r, Some(required))
            &&& !all && !tries && missing@.len() > 0 && m@.options.plan_only ==> (
            r matches PushStep::Ask { ask, .. } && (ask matches PushAsk::Build { only } && (
            only matches Some(chosen) && (is_among(chosen@, t) <==> is_among(required, t)
                && !is_among(missing@, t)))))
            &&& !all && !tries && missing@.len() > 0 && !m@.options.plan_only ==> fails_with(
                r,
                "missing required CAS inputs: "@ + joined(texts(missing@), ", "@),
            )
            &&& !all && !tries && r is Ask ==> if m@.options.mode == PushMode::MinimalNoValidate {
                says_only(
                    notices_of(r),
                    "xet-ai: warning: running minimal push without validation (--minimal-no-validate)"@,
                )
            } else {
                notices_of(r).len() == 0
            }
        }),
        r matches PushStep::Ask { then, .. } ==> (then@.at matches PushAt::Building {
            pointers,
            required,
            missing: lacking,
            all_cas,
        } ==> pointers == plan.pointer_paths@.len() && required
            == plan.required_cas_relpaths@.len() && lacking == missing@.len() && (all_cas <==> (
        m@.options.mode == PushMode::AllCas || (missing@.len() > 0 && m@.options.mode
            == PushMode::MinimalValidate && (!m@.options.plan_only || m@.options.validate))))),
{
    let required = plan.required_cas_relpaths@;
    assert(texts(missing@).len() == missing@.len());
    assert(texts(required).len() == required.len());
    assert(missing.len() == missing@.len() && plan.required_cas_relpaths.len() == required.len());
    assert(plan.pointer_paths.len() == plan.pointer_paths@.len());
    if let PushStep::Ask { ask, notices, then } = r {
        lemma_said(notices@, r@->notices);
        match ask {
            PushAsk::Build { only: Some(chosen) } => {
                if missing@.len() == 0 {
                    lemma_same_list(chosen@, required);
                } else {
                    lemma_without(texts(required), texts(missing@), t);
                    lemma_among(chosen@, t);
                    lemma_among(required, t);
                    lemma_among(missing@, t);
                }
            },
            PushAsk::Validate { required: tried } => {
                lemma_same_list(tried@, required);
            },
            _ => {},
        }
    }
}

proof fn lemma_among(list: Seq<String>, t: Seq<char>)
    ensures
        is_among(list, t) <==> texts(list).contains(t),
{
    if is_among(list, t) {
        let n = choose|n: int| 0 <= n < list.len() && (#[trigger] list[n])@ == t;
        assert(texts(list)[n] == t);
    }
    if texts(list).contains(t) {
        let n = choose|n: int| 0 <= n < texts(list).len() && texts(list)[n] == t;
        assert(list[n]@ == t);
    }
}

/// What the trial of a plan says: without pointers the plan is enough; else it is exactly if
/// the pointer could be hydrated. A pointer whose hash is no hash cannot be tried.
pub proof fn law_validation_verdict(
    trial: &Option<Validation>,
    hydrated: &Result<(), Error>,
    r: Result<bool, Error>,
)
    requires
        call_ensures(validation_verdict, (trial, hydrated), r),
    ensures
        trial is None ==> (r matches Ok(enough) && enough),
        trial matches Some(v) ==> {
            let good = v.pointer@.hash matches Some(h) && h.len() == 64 && forall|i: int|
                0 <= i < 64 ==> crate::laws::pointers::is_hex_digit(#[trigger] h[i]);
            &&& good ==> (r matches Ok(enough) && (enough <==> hydrated is Ok))
            &&& !good ==> (r matches Err(e) && e@ == "Xet hash is corrupted"@)
        },
{
}

/// Once the plan was tried: where it is enough, the manifest is built of what was tried, and
/// where it is not, of everything, with a warning. Where it could not be tried, the push
/// fails.
pub proof fn law_tried<S: RemoteStore>(
    m: PushRun,
    trial: Option<Validation>,
    hydrated: Result<(), Error>,
    s: &mut RemoteSession<S>,
    r: PushStep,
    relpaths: Vec<String>,
    a: &Option<Validation>,
    b: &Result<(), Error>,
    verdict: Result<bool, Error>,
)
    requires
        call_ensures(PushRun::next::<S>, (m, PushEvent::Validated { trial, hydrated }, s), r),
        m@.at matches PushAt::Validating { relpaths: tried, .. } && tried == texts(relpaths@),
        *a == trial && *b == hydrated,
        call_ensures(validation_verdict, (a, b), verdict),
    ensures
        new_calls(old(s).log(), final(s).log()).len() == 0,
        verdict matches Ok(enough) && enough ==> asks_to_build(r, Some(relpaths@)) && notices_of(
            r,
        ).len() == 0,
        verdict matches Ok(enough) && !enough ==> asks_to_build(r, None) && says_only(
            notices_of(r),
            "xet-ai: warning: minimal reachability validation failed; falling back to --all-cas for this push"@,
        ),
        verdict matches Err(e) ==> fails_with(r, e@),
        r matches PushStep::Ask { then, .. } ==> (then@.at matches PushAt::Building {
            pointers,
            required,
            missing,
            all_cas,
        } ==> pointers == m@.at->Validating_pointers && required == relpaths@.len() && missing == 0
            && (all_cas <==> verdict == Ok::<bool, Error>(false))),
{
    assert(texts(relpaths@).len() == relpaths@.len());
    assert(relpaths.len() == relpaths@.len());
    if let PushStep::Ask { ask, notices, then } = r {
        lemma_said(notices@, r@->notices);
        if let PushAsk::Build { only: Some(chosen) } = ask {
            lemma_same_list(chosen@, relpaths@);
        }
    }
}

/// Once the manifest is built, a push that only plans tells what it found, and is over,
/// without a word to the remote. One that does not asks for the lock, if the remote has one.
pub proof fn law_built<S: RemoteStore>(
    m: PushRun,
    manifest: Manifest,
    s: &mut RemoteSession<S>,
    r: PushStep,
)
    requires
        call_ensures(PushRun::next::<S>, (m, PushEvent::Built { manifest }, s), r),
        m@.at is Building,
    ensures
        ({
            let calls = new_calls(old(s).log(), final(s).log());
            let pointers = m@.at->Building_pointers;
            let required = m@.at->Building_required;
            let missing = m@.at->Building_missing;
            let all_cas = m@.at->Building_all_cas;
            &&& m@.options.plan_only ==> calls.len() == 0 && (r matches PushStep::Finished {
                outcome,
            } && (outcome matches Ok(lines) && {
                let n = lines@.len();
                &&& n == 2 + (if all_cas {
                    0int
                } else {
                    1
                }) + (if missing > 0 {
                    1int
                } else {
                    0
                })
                &&& lines@[0]@ == "plan for "@ + m@.git_sha + ": "@ + decimal(
                    manifest.entries@.len(),
                ) + " entries (total bytes "@ + decimal(manifest.total_bytes as nat) + ")"@
                &&& !all_cas ==> lines@[1]@ == "reachability: "@ + decimal(pointers as nat)
                    + " pointer files, "@ + decimal(required as nat) + " required CAS files"@
                &&& missing > 0 ==> lines@[n - 2]@ == "missing required CAS inputs: "@ + decimal(
                    missing as nat,
                ) + " of "@ + decimal(required as nat)
                &&& lines@[n - 1]@ == "plan only: the remote was not changed"@
            }))
            &&& !m@.options.plan_only ==> calls.len() == 1 && (
            calls[0] matches RemoteCall::Capabilities { reply: caps } && {
                &&& caps.supports_locking ==> notices_of(r).len() == 0 && (
                r matches PushStep::Ask { ask, then, .. } && ask is Lock && (
                then@.at matches PushAt::Locking {
                    pointers: p,
                    required: q,
                    all_cas: a,
                    manifest: held,
                } && p == pointers && q == required && a == all_cas && held == manifest))
                &&& !caps.supports_locking ==> fails_with(
                    r,
                    "remote backend does not support push locking"@,
                )
            })
        }),
{
    match r {
        PushStep::Ask { ask, notices, then } => {
            lemma_said(notices@, r@->notices);
        },
        PushStep::Finished { outcome } => {
            if let Ok(lines) = outcome {
                lemma_said(
                    lines@,
                    plan_report(
                        m@.git_sha,
                        m@.at->Building_pointers,
                        m@.at->Building_required,
                        m@.at->Building_missing,
                        m@.at->Building_all_cas,
                        manifest.entries@.len(),
                        manifest.total_bytes,
                    ),
                );
                let k = lines@[0];
                let j = lines@[1];
                let i = lines@[lines@.len() - 1];
                let h = lines@[lines@.len() - 2];
            }
        },
    }
}

/// Once the lock is held, a remote that can list is asked for transactions that were left
/// behind, by the place of their markers; what it told is warned of. Then, or without that,
/// the push goes on to send. Where the remote cannot say, the push is over.
pub proof fn law_locked<S: RemoteStore>(
    m: PushRun,
    s: &mut RemoteSession<S>,
    r: PushStep,
)
    requires
        call_ensures(PushRun::next::<S>, (m, PushEvent::Locked, s), r),
        m@.at is Locking,
    ensures
        ({
            let calls = new_calls(old(s).log(), final(s).log());
            let goes_on = r matches PushStep::Ask { ask, then, .. } && ask is Announce && (
            then@.at matches PushAt::Announcing { pointers, required, all_cas, manifest }
                && pointers == m@.at->Locking_pointers && required == m@.at->Locking_required
                && all_cas == m@.at->Locking_all_cas && manifest == m@.at->Locking_manifest);
            &&& calls.len() >= 1
            &&& calls[0] matches RemoteCall::Capabilities { reply: caps }
            &&& !caps.supports_list_prefix ==> calls.len() == 1 && goes_on && notices_of(r).len()
                == 0
            &&& caps.supports_list_prefix ==> calls.len() >= 2 && (
            calls[1] matches RemoteCall::List { prefix, reply } && prefix == "tx/STAGED"@ && match reply {
                Ok(_) => goes_on && warns_of(calls, notices_of(r)),
                Err(e) => gives_back_and_fails(r, e),
            })
        }),
{
    let calls = new_calls(old(s).log(), final(s).log());
    if let PushStep::Ask { ask, notices, then } = r {
        lemma_said(notices@, r@->notices);
        if calls.len() > 1 {
            let asked = calls.skip(1);
            assert(asked[0] == calls[1]);
            let stale = choose|stale: Result<Seq<Seq<char>>, Seq<char>>|
                {
                    &&& #[trigger] looked_for_stale(asked, stale)
                    &&& (stale is Ok ==> notices@.len() <= 1 && (notices@.len() == 0
                        <==> stale->Ok_0.len() == 0) && (notices@.len() == 1 ==> notices@[0]@
                        == stale_text(stale->Ok_0)))
                };
            if let Ok(ids) = stale {
                assert forall|id: Seq<char>| ids.contains(id) <==> #[trigger] was_not_confirmed(
                    calls,
                    id,
                ) by {
                    lemma_stale(asked, stale, id);
                    lemma_later_calls(calls, id);
                }
                assert(names_those_left(calls, ids));
                if ids.len() > 0 {
                    assert(ids.contains(ids[0]));
                    assert(was_not_confirmed(calls, ids[0]));
                } else {
                    assert forall|id: Seq<char>| !#[trigger] was_not_confirmed(calls, id) by {
                        assert(!ids.contains(id));
                    }
                }
            }
        }
    }
}

proof fn lemma_later_calls(calls: Seq<RemoteCall>, id: Seq<char>)
    requires
        calls.len() > 0,
        calls[0] is Capabilities,
    ensures
        was_not_confirmed(calls, id) <==> was_not_confirmed(calls.skip(1), id),
{
    let asked = calls.skip(1);
    if was_not_confirmed(calls, id) {
        let j = choose|j: int|
            0 <= j < calls.len() && asked_of(#[trigger] calls[j], id) && !(
            calls[j] matches RemoteCall::Exists { reply, .. } && reply == Ok::<bool, Seq<char>>(
                true,
            ));
        assert(asked[j - 1] == calls[j]);
    }
    if was_not_confirmed(asked, id) {
        let j = choose|j: int|
            0 <= j < asked.len() && asked_of(#[trigger] asked[j], id) && !(
            asked[j] matches RemoteCall::Exists { reply, .. } && reply == Ok::<bool, Seq<char>>(
                true,
            ));
        assert(calls[j + 1] == asked[j]);
    }
}

/// These are the transactions of which the remote did not say that they were published.
pub open spec fn names_those_left(calls: Seq<RemoteCall>, ids: Seq<Seq<char>>) -> bool {
    forall|id: Seq<char>| ids.contains(id) <==> #[trigger] was_not_confirmed(calls, id)
}

/// Transactions that were left behind are warned of, all of them, and if there are none,
/// nothing is said.
pub open spec fn warns_of(calls: Seq<RemoteCall>, notices: Seq<String>) -> bool {
    &&& notices.len() == 0 ==> forall|id: Seq<char>| !#[trigger] was_not_confirmed(calls, id)
    &&& notices.len() > 0 ==> exists|ids: Seq<Seq<char>>| #[trigger]
        names_those_left(calls, ids) && ids.len() > 0 && says_only(
            notices,
            "xet-ai: warning: found staged transactions from previous pushes: "@ + joined(
                ids,
                ", "@,
            ),
        )
}

/// Once everything was said, the files are sent. On a remote that works, a push that goes on
/// left there the object of every entry of the manifest that it held, as the entry says; it
/// asks for that manifest to be kept, and has counted its entries. One that does not gives
/// the lock back, and fails. No object was changed or lost.
pub proof fn law_announced<S: RemoteStore>(
    m: PushRun,
    s: &mut RemoteSession<S>,
    r: PushStep,
    w: Files,
    objects: Objects,
    i: int,
    path: Seq<char>,
)
    requires
        call_ensures(PushRun::next::<S>, (m, PushEvent::Announced, s), r),
        m@.at is Announcing,
        bytes_in(m@.at->Announcing_manifest.entries@) <= u64::MAX,
        m@.at->Announcing_manifest.entries@.len() <= usize::MAX,
        truthful(w, objects, new_calls(old(s).log(), final(s).log())),
    ensures
        ({
            let calls = new_calls(old(s).log(), final(s).log());
            let after = kept_after(w, objects, calls);
            let manifest = m@.at->Announcing_manifest;
            let n = manifest.entries@.len();
            &&& objects.contains_key(path) ==> after.contains_key(path) && after[path]
                == objects[path]
            &&& r matches PushStep::Ask { ask, notices, then } && notices@.len() == 0 && match ask {
                PushAsk::Keep { manifest: held } => {
                    &&& held == manifest
                    &&& 0 <= i < n ==> has_entry_object(
                        after,
                        manifest.entries@[i].relpath@,
                        manifest.entries@[i].size,
                        manifest.entries@[i].sha256@,
                    )
                    &&& then@.at matches PushAt::Keeping {
                        pointers,
                        required,
                        all_cas,
                        entries,
                        total_bytes,
                        summary,
                    } && pointers == m@.at->Announcing_pointers && required
                        == m@.at->Announcing_required && all_cas == m@.at->Announcing_all_cas
                        && entries == n && total_bytes == manifest.total_bytes
                        && summary.files_verified == n && summary.bytes_copied == brought_to(
                        w,
                        calls,
                    ).0 && summary.files_copied == brought_to(w, calls).1
                },
                PushAsk::Release => then@.at matches PushAt::Releasing { outcome }
                    && outcome is Err,
                _ => false,
            }
        }),
{
    let calls = new_calls(old(s).log(), final(s).log());
    let manifest = m@.at->Announcing_manifest;
    let views = entry_views(manifest.entries@);
    lemma_bytes_in(manifest.entries@);
    if let PushStep::Ask { ask, notices, then } = r {
        lemma_said(notices@, r@->notices);
        let o = choose|o: Result<SyncSummary, Seq<char>>|
            {
                &&& #[trigger] pushed(m@.local_cas_root, views, no_transfer(), calls, o)
                &&& (o is Ok ==> r@->ask is Keep && then@.at == (PushAt::Keeping {
                    pointers: m@.at->Announcing_pointers,
                    required: m@.at->Announcing_required,
                    all_cas: m@.at->Announcing_all_cas,
                    entries: manifest.entries@.len() as usize,
                    total_bytes: manifest.total_bytes,
                    summary: o->Ok_0,
                }))
                &&& (o is Err ==> r@->ask is Release)
            };
        lemma_push_keeps_everything(w, objects, m@.local_cas_root, views, calls, o);
        if let Ok(summary) = o {
            lemma_push_counts(w, objects, m@.local_cas_root, views, no_transfer(), calls, summary);
            if 0 <= i < manifest.entries@.len() {
                assert(views[i] == manifest.entries@[i]@);
                assert(keeps(kept_after(w, objects, calls), views[i]));
            }
        }
    }
}

/// Once everything is published, a push tells what was copied, the manifest, what the commit
/// needs unless everything was pushed, and the commit.
pub proof fn law_push_tells<S: RemoteStore>(
    m: PushRun,
    publication: Publication,
    s: &mut RemoteSession<S>,
    r: PushStep,
    s2: &mut RemoteSession<S>,
    event: PushEvent,
    next: PushRun,
    r2: PushStep,
)
    requires
        call_ensures(PushRun::next::<S>, (m, PushEvent::Kept { publication }, s), r),
        m@.at is Keeping,
        ended_well(r),
        r matches PushStep::Ask { then, .. } && next == then,
        call_ensures(PushRun::next::<S>, (next, event, s2), r2),
    ensures
        notices_of(r).len() == 0,
        new_calls(old(s2).log(), final(s2).log()).len() == 0,
        r2 matches PushStep::Finished { outcome } && (outcome matches Ok(lines) && {
            let summary = m@.at->Keeping_summary;
            let n = lines@.len();
            &&& n == if m@.at->Keeping_all_cas {
                3
            } else {
                4int
            }
            &&& lines@[0]@ == "copied "@ + decimal(summary.files_copied as nat) + " files ("@
                + decimal(summary.bytes_copied as nat) + " bytes)"@
            &&& lines@[1]@ == "wrote manifest "@ + m@.git_sha + " with "@ + decimal(
                m@.at->Keeping_entries as nat,
            ) + " entries (total bytes "@ + decimal(m@.at->Keeping_total_bytes as nat) + ")"@
            &&& !m@.at->Keeping_all_cas ==> lines@[2]@ == "reachability: "@ + decimal(
                m@.at->Keeping_pointers as nat,
            ) + " pointer files, "@ + decimal(m@.at->Keeping_required as nat)
                + " required CAS files"@
            &&& lines@[n - 1]@ == "updated HEAD -> "@ + m@.git_sha
        }),
{
    let said = push_report(
        m@.git_sha,
        m@.at->Keeping_pointers,
        m@.at->Keeping_required,
        m@.at->Keeping_all_cas,
        m@.at->Keeping_entries as nat,
        m@.at->Keeping_total_bytes,
        m@.at->Keeping_summary,
    );
    if let PushStep::Ask { ask, notices, then } = r {
        lemma_said(notices@, r@->notices);
    }
    assert(next@.at == PushAt::Releasing { outcome: Ok::<Seq<Seq<char>>, Seq<char>>(said) });
    assert(r2@ == stops(next@, crate::commands::push::reason(event)));
    if let PushStep::Finished { outcome } = r2 {
        if let Ok(lines) = outcome {
            lemma_said(lines@, said);
            let k = lines@[0];
            let j = lines@[1];
            let i = lines@[2];
            let h = lines@[lines@.len() - 1];
        }
    }
}

/// Work that fails ends the push with that error: at once where the lock is not held, and
/// else once it was given back. Nothing is asked of the remote for that.
pub proof fn law_push_fails<S: RemoteStore>(
    m: PushRun,
    error: Error,
    s: &mut RemoteSession<S>,
    r: PushStep,
)
    requires
        call_ensures(PushRun::next::<S>, (m, PushEvent::Failed { error }, s), r),
    ensures
        new_calls(old(s).log(), final(s).log()).len() == 0,
        m@.at is Planning || m@.at is Validating || m@.at is Building || m@.at is Locking
            ==> fails_with(r, error@),
        m@.at is Announcing || m@.at is Keeping ==> gives_back_and_fails(r, error@),
        m@.at matches PushAt::Releasing { outcome: Err(e) } ==> fails_with(r, e),
{
    if let PushStep::Ask { ask, notices, then } = r {
        lemma_said(notices@, r@->notices);
    }
}

/// The event answers what was asked for.
pub open spec fn answers(at: PushAt, event: PushEvent) -> bool {
    ||| at is Planning && event is Planned
    ||| at is Validating && event is Validated
    ||| at is Building && event is Built
    ||| at is Locking && event is Locked
    ||| at is Announcing && event is Announced
    ||| at is Keeping && event is Kept
    ||| at is Releasing
    ||| event is Failed
}

/// An event that answers something else than what was asked fails the push, without a word to
/// the remote; where the lock is held, it is given back first.
pub proof fn law_push_misfit<S: RemoteStore>(
    m: PushRun,
    event: PushEvent,
    s: &mut RemoteSession<S>,
    r: PushStep,
)
    requires
        call_ensures(PushRun::next::<S>, (m, event, s), r),
        !answers(m@.at, event),
    ensures
        new_calls(old(s).log(), final(s).log()).len() == 0,
        m@.at is Announcing || m@.at is Keeping ==> gives_back_and_fails(
            r,
            "unexpected event in a push"@,
        ),
        !(m@.at is Announcing || m@.at is Keeping) ==> fails_with(r, "unexpected event in a push"@),
{
    if let PushStep::Ask { ask, notices, then } = r {
        lemma_said(notices@, r@->notices);
    }
}

} // verus!
