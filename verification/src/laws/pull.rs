//! Laws of a pull: which commit it is about, where its manifest comes from, what is kept of
//! it, and what is told.

use vstd::prelude::*;

use crate::commands::naming::manifest_path;
use crate::commands::pull::{
    pull, pull_report, remote_head, resolve_remote_ref, resolved_by, Pull, PullAsk, PullEvent,
    PullPhase, PullStep,
};
use crate::error::Error;
use crate::laws::publish::is_commit;
use crate::pointers::pointer_cache_path;
use crate::remote::{new_calls, RemoteCall, RemoteSession, RemoteStore};
use crate::sync::manifest::Manifest;
use crate::sync::refs::{is_hex, is_sha1};
use crate::sync::roundtrip::{truthful, Objects};
use crate::sync::transfer::SyncSummary;
use crate::sync::world::Files;
use crate::text::{decimal, lossy_text, texts, trim_text};

verus! {

proof fn lemma_commit(t: Seq<char>)
    ensures
        is_commit(t) <==> is_sha1(t),
{
    assert forall|i: int| 0 <= i < t.len() implies (crate::laws::pointers::is_hex_digit(
        #[trigger] t[i],
    ) <==> is_hex(t[i])) by {}
}

/// On a remote that works, the commit that is meant is the one that is given by its full
/// name; else the one that the ref names, which is the object below `refs/`; and without a
/// ref the one that the HEAD of the manifests names. An object that is not there is an error,
/// which tells what to do or which ref it is.
pub open spec fn means(
    objects: Objects,
    git_ref: Option<String>,
    r: Result<Seq<char>, Seq<char>>,
) -> bool {
    match git_ref {
        Some(v) => if is_commit(v@) {
            r == Ok::<Seq<char>, Seq<char>>(v@)
        } else if objects.contains_key("refs/"@ + v@) {
            r == Ok::<Seq<char>, Seq<char>>(trim_text(lossy_text(objects["refs/"@ + v@])))
        } else {
            r == Err::<Seq<char>, Seq<char>>("remote ref not found: refs/"@ + v@)
        },
        None => if objects.contains_key("manifests/HEAD"@) {
            r == Ok::<Seq<char>, Seq<char>>(trim_text(lossy_text(objects["manifests/HEAD"@])))
        } else {
            r == Err::<Seq<char>, Seq<char>>("remote has no data HEAD; run `xet-ai push` first"@)
        },
    }
}

/// A result, by what it tells.
pub open spec fn tells(r: Result<String, Error>) -> Result<Seq<char>, Seq<char>> {
    match r {
        Ok(t) => Ok(t@),
        Err(e) => Err(e@),
    }
}

/// A ref resolves to what it means.
pub proof fn law_resolve_remote_ref<S: RemoteStore>(
    s: &mut RemoteSession<S>,
    git_ref: &Option<String>,
    r: Result<String, Error>,
    s2: &mut RemoteSession<S>,
    head: Result<String, Error>,
    w: Files,
    objects: Objects,
)
    requires
        call_ensures(resolve_remote_ref::<S>, (s, git_ref), r),
        truthful(w, objects, new_calls(old(s).log(), final(s).log())),
        call_ensures(remote_head::<S>, (s2,), head),
        truthful(w, objects, new_calls(old(s2).log(), final(s2).log())),
    ensures
        means(objects, *git_ref, tells(r)),
        means(objects, None, tells(head)),
{
    reveal_with_fuel(truthful, 2);
    if let Some(v) = git_ref {
        lemma_commit(v@);
    }
}

/// A reply that fails, fails the pull.
pub proof fn law_unreadable_ref_fails<S: RemoteStore>(
    s: &mut RemoteSession<S>,
    git_ref: &Option<String>,
    r: Result<String, Error>,
)
    requires
        call_ensures(resolve_remote_ref::<S>, (s, git_ref), r),
        !(git_ref matches Some(v) && is_commit(v@)),
    ensures
        ({
            let calls = new_calls(old(s).log(), final(s).log());
            &&& calls.len() == 1
            &&& calls[0] matches RemoteCall::Read { reply, .. } && (reply matches Err(e) ==> (
            r matches Err(why) && why@ == e))
        }),
{
    if let Some(v) = git_ref {
        lemma_commit(v@);
    }
}

/// The pull is over, with this error.
pub open spec fn pull_fails_with(r: PullStep, why: Seq<char>) -> bool {
    r matches PullStep::Finished { outcome } && (outcome matches Err(e) && e@ == why)
}

/// A pull, from a remote that works, is about the commit that is meant. Its manifest is read
/// from below `manifests/`; one that is not there is an error that names the commit. Where
/// everything is wanted, the manifest is built of what the remote lists instead, if it can
/// list.
pub proof fn law_pull_begins<S: RemoteStore>(
    repo_root: &str,
    git_ref: Option<String>,
    verbose: bool,
    all_cas: bool,
    s: &mut RemoteSession<S>,
    r: PullStep,
    w: Files,
    objects: Objects,
)
    requires
        call_ensures(pull::<S>, (repo_root, git_ref, verbose, all_cas, s), r),
        truthful(w, objects, new_calls(old(s).log(), final(s).log())),
    ensures
        exists|o: Result<Seq<char>, Seq<char>>|
            #[trigger] means(objects, git_ref, o) && match o {
                Err(e) => pull_fails_with(r, e),
                Ok(sha) => {
                    let path = "manifests/"@ + sha + ".json"@;
                    let calls = new_calls(old(s).log(), final(s).log());
                    &&& r matches PullStep::Ask { then, .. } ==> then@.sha == sha
                        && then@.repo_root == repo_root@ && then@.verbose == verbose
                        && then@.at is Loading
                    &&& !all_cas && objects.contains_key(path) ==> (r matches PullStep::Ask {
                        ask,
                        ..
                    } && (ask matches PullAsk::Parse { sha: of, bytes } && of@ == sha && bytes@
                        == objects[path]))
                    &&& !all_cas && !objects.contains_key(path) ==> pull_fails_with(
                        r,
                        "manifest missing: "@ + sha,
                    )
                    &&& all_cas ==> calls.len() > 0 && (
                    calls.last() matches RemoteCall::Capabilities { reply: caps } && {
                        &&& caps.supports_list_prefix ==> (r matches PullStep::Ask { ask, .. } && (
                        ask matches PullAsk::Build { repo_id, sha: of } && of@ == sha && repo_id@
                            == "all-cas"@))
                        &&& !caps.supports_list_prefix ==> pull_fails_with(
                            r,
                            "remote backend does not support --all-cas pull (list_prefix unavailable)"@,
                        )
                    })
                },
            },
{
    reveal_with_fuel(truthful, 3);
    let calls = new_calls(old(s).log(), final(s).log());
    let wanted = git_ref.deep_view();
    let k = crate::commands::pull::ref_calls(wanted);
    let o = choose|o: Result<Seq<char>, Seq<char>>|
        {
            &&& #[trigger] resolved_by(calls.take(k), wanted, o)
            &&& match o {
                Err(e) => calls.len() == k && r@ == crate::commands::pull::pull_fails(e),
                Ok(sha) => crate::commands::pull::manifest_talk(
                    crate::commands::pull::PullAt {
                        repo_root: repo_root@,
                        verbose,
                        sha,
                        at: PullPhase::Loading,
                    },
                    all_cas,
                    calls.skip(k),
                    r@,
                ),
            }
        };
    if let Some(v) = git_ref {
        lemma_commit(v@);
    }
    assert(means(objects, git_ref, o));
    if o is Ok {
        assert(calls.skip(k)[0] == calls[k]);
        assert(calls.last() == calls[k]);
    }
}

/// Once the manifest is there, it is kept at its place, and the files that it lists are to be
/// brought.
pub proof fn law_pull_fetches<S: RemoteStore>(
    m: Pull,
    manifest: Manifest,
    s: &mut RemoteSession<S>,
    r: PullStep,
    root: &str,
    sha: &str,
    place: String,
)
    requires
        call_ensures(Pull::next::<S>, (m, PullEvent::Loaded { manifest }, s), r),
        m@.at is Loading,
        root@ == m@.repo_root,
        sha@ == m@.sha,
        call_ensures(manifest_path, (root, sha), place),
    ensures
        new_calls(old(s).log(), final(s).log()).len() == 0,
        r matches PullStep::Ask { ask, then } && then@.at is Fetching && then@.sha == m@.sha
            && then@.repo_root == m@.repo_root && then@.verbose == m@.verbose && (
        ask matches PullAsk::Fetch { manifest_path: at, manifest: held } && held == manifest && at@
            == place@),
{
}

/// What a pull tells: nothing, or the manifest, what was copied and what was verified.
pub open spec fn pull_tells(
    r: PullStep,
    m: Pull,
    summary: SyncSummary,
    place: Seq<char>,
) -> bool {
    r matches PullStep::Finished { outcome } && (outcome matches Ok(lines) && if m@.verbose {
        &&& lines@.len() == 3
        &&& lines@[0]@ == "pulled manifest "@ + m@.sha + " ("@ + place + ")"@
        &&& lines@[1]@ == "copied "@ + decimal(summary.files_copied as nat) + " files ("@ + decimal(
            summary.bytes_copied as nat,
        ) + " bytes)"@
        &&& lines@[2]@ == "verified "@ + decimal(summary.files_verified as nat) + " files"@
    } else {
        lines@.len() == 0
    })
}

proof fn lemma_pull_tells(m: Pull, summary: SyncSummary, lines: Seq<String>)
    requires
        texts(lines) == pull_report(m@, summary),
    ensures
        lines.len() == pull_report(m@, summary).len(),
        forall|i: int| 0 <= i < lines.len() ==> (#[trigger] lines[i])@ == pull_report(m@, summary)[i],
{
    assert(texts(lines).len() == lines.len());
    assert forall|i: int| 0 <= i < lines.len() implies (#[trigger] lines[i])@ == pull_report(
        m@,
        summary,
    )[i] by {
        assert(texts(lines)[i] == lines[i]@);
    }
}

/// Once the files are there, the index of pointers is read from below `pointers/`, and kept
/// at its place if the remote has one. Then, or without one, the pull is over, and tells what
/// it did.
pub proof fn law_pull_keeps<S: RemoteStore>(
    m: Pull,
    summary: SyncSummary,
    s: &mut RemoteSession<S>,
    r: PullStep,
    root: &str,
    sha: &str,
    place: String,
    index: String,
)
    requires
        call_ensures(Pull::next::<S>, (m, PullEvent::Fetched { summary }, s), r),
        m@.at is Fetching,
        root@ == m@.repo_root,
        sha@ == m@.sha,
        call_ensures(manifest_path, (root, sha), place),
        call_ensures(pointer_cache_path, (root, sha), index),
    ensures
        ({
            let calls = new_calls(old(s).log(), final(s).log());
            &&& calls.len() == 1
            &&& calls[0] matches RemoteCall::Read { path, reply } && path == "pointers/"@ + m@.sha
                + ".json"@ && match reply {
                Err(e) => pull_fails_with(r, e),
                Ok(None) => pull_tells(r, m, summary, place@),
                Ok(Some(bytes)) => r matches PullStep::Ask { ask, then } && then@.at == (
                PullPhase::Keeping { summary }) && then@.sha == m@.sha && then@.repo_root
                    == m@.repo_root && then@.verbose == m@.verbose && (
                ask matches PullAsk::KeepPointers { path: at, bytes: b } && at@ == index@ && b@
                    == bytes),
            }
        }),
{
    if let PullStep::Finished { outcome: Ok(lines) } = r {
        lemma_pull_tells(m, summary, lines@);
        if m@.verbose {
            let a = lines@[0];
            let b = lines@[1];
            let c = lines@[2];
        }
    }
}

/// Once the index is kept, the pull is over, and tells what it did. Work that fails ends it
/// with that error.
pub proof fn law_pull_ends<S: RemoteStore>(
    m: Pull,
    s: &mut RemoteSession<S>,
    r: PullStep,
    error: Error,
    s2: &mut RemoteSession<S>,
    r2: PullStep,
    root: &str,
    sha: &str,
    place: String,
)
    requires
        call_ensures(Pull::next::<S>, (m, PullEvent::Kept, s), r),
        call_ensures(Pull::next::<S>, (m, PullEvent::Failed { error }, s2), r2),
        root@ == m@.repo_root,
        sha@ == m@.sha,
        call_ensures(manifest_path, (root, sha), place),
    ensures
        m@.at matches PullPhase::Keeping { summary } ==> pull_tells(r, m, summary, place@),
        pull_fails_with(r2, error@),
{
    if let PullPhase::Keeping { summary } = m@.at {
        if let PullStep::Finished { outcome: Ok(lines) } = r {
            lemma_pull_tells(m, summary, lines@);
            if m@.verbose {
                let a = lines@[0];
                let b = lines@[1];
                let c = lines@[2];
            }
        }
    }
}

/// An event that answers something else than what was asked fails the pull, without a word to
/// the remote.
pub proof fn law_pull_misfit<S: RemoteStore>(
    m: Pull,
    event: PullEvent,
    s: &mut RemoteSession<S>,
    r: PullStep,
)
    requires
        call_ensures(Pull::next::<S>, (m, event, s), r),
        !(event is Failed),
        event is Loaded ==> !(m@.at is Loading),
        event is Fetched ==> !(m@.at is Fetching),
        event is Kept ==> !(m@.at is Keeping),
    ensures
        new_calls(old(s).log(), final(s).log()).len() == 0,
        pull_fails_with(r, "unexpected event in a pull"@),
{
}

} // verus!
