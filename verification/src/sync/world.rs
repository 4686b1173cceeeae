//! What the jobs on local files do to a file system that works: every operation is
//! carried out, and fails only where a file it needs is not there.

use vstd::prelude::*;

use crate::files::{FileAnswer, FileOp, Move};
use crate::hash::sha256_text;
use crate::paths::join;
use crate::sync::local::{
    copied_hash_text, copied_size_text, copy_job, copy_next, copy_start, owes_hash,
    source_missing_text, CopyAt, CopyState,
};
use crate::sync::manifest::EntryView;
use crate::sync::runs::{
    run_begin, run_next, verified_files, verify_begin, verify_next, RunPlan, RunState, StageAt,
    VerifyState,
};
use crate::sync::transfer::{
    hash_mismatch_text, is_content, no_transfer, size_mismatch_text, tally, SyncSummary,
    HASH_VERIFY_LIMIT,
};

verus! {

/// The files there are, with their content. Directories are made on demand and hold
/// nothing of their own.
pub type Files = Map<Seq<char>, Seq<u8>>;

/// Every file has a size that can be told.
pub open spec fn measurable(w: Files) -> bool {
    forall|p: Seq<char>| #[trigger] w.contains_key(p) ==> w[p].len() <= u64::MAX
}

/// What is said of a file that is not there.
pub open spec fn absent() -> FileAnswer {
    FileAnswer::Failed { error: "no such file"@ }
}

/// What is answered to an operation.
pub open spec fn answer(w: Files, op: FileOp) -> FileAnswer {
    match op {
        FileOp::Stat { path } => if w.contains_key(path) {
            FileAnswer::Size { bytes: w[path].len() as u64 }
        } else {
            FileAnswer::Missing
        },
        FileOp::Measure { path } => if w.contains_key(path) {
            FileAnswer::Size { bytes: w[path].len() as u64 }
        } else {
            absent()
        },
        FileOp::Sha256 { path } => if w.contains_key(path) {
            FileAnswer::Hash { sha256: sha256_text(w[path]) }
        } else {
            absent()
        },
        FileOp::CreateDirs { .. } => FileAnswer::Done,
        FileOp::Write { .. } => FileAnswer::Done,
        FileOp::Copy { from, .. } => if w.contains_key(from) {
            FileAnswer::Done
        } else {
            absent()
        },
        FileOp::Rename { from, .. } => if w.contains_key(from) {
            FileAnswer::Done
        } else {
            absent()
        },
        FileOp::Remove { path } => if w.contains_key(path) {
            FileAnswer::Done
        } else {
            absent()
        },
    }
}

/// What an operation leaves behind.
pub open spec fn changed(w: Files, op: FileOp) -> Files {
    match op {
        FileOp::Write { path, bytes } => w.insert(path, bytes),
        FileOp::Copy { from, to } => if w.contains_key(from) {
            w.insert(to, w[from])
        } else {
            w
        },
        FileOp::Rename { from, to } => if w.contains_key(from) {
            w.remove(from).insert(to, w[from])
        } else {
            w
        },
        FileOp::Remove { path } => w.remove(path),
        _ => w,
    }
}

/// How many more replies a verified copy can wait for.
pub open spec fn replies_left(at: CopyAt) -> nat {
    match at {
        CopyAt::CheckingDst => 9,
        CopyAt::HashingDst => 8,
        CopyAt::MakingDir => 7,
        CopyAt::CheckingSrc => 6,
        CopyAt::Copying => 5,
        CopyAt::MeasuringTmp => 4,
        CopyAt::HashingTmp => 3,
        CopyAt::Renaming => 2,
        CopyAt::CleaningUp { .. } => 1,
    }
}

/// What a verified copy leaves behind, and how it ends.
pub open spec fn copy_run(w: Files, step: Move<CopyState, u64>) -> (Files, Result<u64, Seq<char>>)
    decreases (match step {
        Move::Ask { then, .. } => replies_left(then.at),
        Move::Finished { .. } => 0nat,
    }),
{
    match step {
        Move::Finished { outcome } => (w, outcome),
        Move::Ask { op, then } => copy_run(changed(w, op), copy_next(then, answer(w, op))),
    }
}

/// How a verified copy ends: a destination that is there is held to the size and the
/// hash, and if there is none the source is.
pub open spec fn copy_outcome(w: Files, job: CopyState) -> Result<u64, Seq<char>> {
    if w.contains_key(job.dst) {
        let got = w[job.dst];
        if got.len() != job.size {
            Err(size_mismatch_text(job.dst, got.len(), job.size))
        } else if owes_hash(job) && sha256_text(got) != job.sha256->0 {
            Err(hash_mismatch_text(job.dst, job.sha256->0, sha256_text(got)))
        } else {
            Ok(0)
        }
    } else if !w.contains_key(job.src) {
        Err(source_missing_text(job.src))
    } else {
        let got = w[job.src];
        if got.len() != job.size {
            Err(copied_size_text(job.tmp, job.size, got.len() as u64))
        } else if owes_hash(job) && sha256_text(got) != job.sha256->0 {
            Err(copied_hash_text(job.tmp, job.sha256->0, sha256_text(got)))
        } else {
            Ok(job.size)
        }
    }
}

/// A verified copy is all or nothing: where it succeeds and there was no destination, the
/// one thing that changes is that the content of the source now is at the destination
/// too; in every other case nothing changes, and the temporary file is gone.
pub proof fn lemma_copy_is_all_or_nothing(w: Files, job: CopyState)
    requires
        measurable(w),
        job.at is CheckingDst,
        job.dir is Some,
        !w.contains_key(job.tmp),
        job.tmp != job.dst,
    ensures
        copy_run(w, copy_start(job)).1 == copy_outcome(w, job),
        copy_run(w, copy_start(job)).0 == if !w.contains_key(job.dst) && copy_outcome(w, job) is Ok {
            w.insert(job.dst, w[job.src])
        } else {
            w
        },
{
    reveal_with_fuel(copy_run, 9);
}

/// The file of an entry is there and is what the entry says.
pub open spec fn holds(w: Files, root: Seq<char>, e: EntryView) -> bool {
    &&& w.contains_key(join(root, e.relpath))
    &&& is_content(w[join(root, e.relpath)], e.size, e.sha256, HASH_VERIFY_LIMIT)
}

/// How a verification ends.
pub open spec fn verify_run(w: Files, step: Move<VerifyState, SyncSummary>) -> Result<
    SyncSummary,
    Seq<char>,
>
    decreases (match step {
        Move::Ask { then, .. } => if then.at < then.entries.len() {
            2 * (then.entries.len() - then.at) + if then.hashing {
                0int
            } else {
                1int
            }
        } else {
            0
        },
        Move::Finished { .. } => 0int,
    }),
{
    match step {
        Move::Finished { outcome } => outcome,
        Move::Ask { op, then } => if then.at < then.entries.len() {
            verify_run(w, verify_next(then, answer(w, op)))
        } else {
            Err(Seq::empty())
        },
    }
}

proof fn lemma_verify_from(w: Files, entries: Seq<EntryView>, root: Seq<char>, at: int)
    requires
        measurable(w),
        0 <= at <= entries.len(),
    ensures
        verify_run(w, verify_begin(entries, root, at)) is Ok <==> forall|i: int|
            at <= i < entries.len() ==> holds(w, root, #[trigger] entries[i]),
        verify_run(w, verify_begin(entries, root, at)) matches Ok(s) ==> s == verified_files(
            entries.len() as int,
        ),
    decreases entries.len() - at,
{
    reveal_with_fuel(verify_run, 3);
    if at < entries.len() {
        lemma_verify_from(w, entries, root, at + 1);
    }
}

/// A verification succeeds exactly where every file that the manifest lists is there with
/// its size and, up to the limit, its hash. It then counts all of them.
pub proof fn lemma_verify_decides(w: Files, entries: Seq<EntryView>, root: Seq<char>)
    requires
        measurable(w),
    ensures
        verify_run(w, verify_begin(entries, root, 0)) is Ok <==> forall|i: int|
            0 <= i < entries.len() ==> holds(w, root, #[trigger] entries[i]),
        verify_run(w, verify_begin(entries, root, 0)) matches Ok(s) ==> s == verified_files(
            entries.len() as int,
        ),
{
    lemma_verify_from(w, entries, root, 0);
}

/// How many entries a copy of a manifest's files has before it.
pub open spec fn entries_left(step: Move<RunState, SyncSummary>) -> int {
    match step {
        Move::Ask { then, .. } => if then.at < then.plan.entries.len() {
            then.plan.entries.len() - then.at
        } else {
            0
        },
        Move::Finished { .. } => 0,
    }
}

/// How many more replies it can wait for at its entry.
pub open spec fn entry_replies_left(step: Move<RunState, SyncSummary>) -> nat {
    match step {
        Move::Ask { then, .. } => match then.stage {
            StageAt::CheckingSource => 10,
            StageAt::Copying { job } => replies_left(job.at),
        },
        Move::Finished { .. } => 0,
    }
}

/// What a copy of a manifest's files leaves behind, and how it ends. `suffixes` holds the
/// suffix of the temporary file for each entry.
pub open spec fn transfer_run(
    w: Files,
    step: Move<RunState, SyncSummary>,
    suffixes: spec_fn(int) -> Seq<char>,
) -> (Files, Result<SyncSummary, Seq<char>>)
    decreases entries_left(step), entry_replies_left(step),
{
    match step {
        Move::Finished { outcome } => (w, outcome),
        Move::Ask { op, then } => if then.at < then.plan.entries.len() {
            let upcoming = match then.stage {
                StageAt::CheckingSource => then.at,
                StageAt::Copying { .. } => then.at + 1,
            };
            transfer_run(
                changed(w, op),
                run_next(then, answer(w, op), suffixes(upcoming)),
                suffixes,
            )
        } else {
            (w, Err(Seq::empty()))
        },
    }
}

/// The step of a manifest's copy that belongs to a step of the copy of one entry.
spec fn lifted(
    plan: RunPlan,
    at: int,
    summary: SyncSummary,
    step: Move<CopyState, u64>,
    suffixes: spec_fn(int) -> Seq<char>,
) -> Move<RunState, SyncSummary> {
    match step {
        Move::Ask { op, then } => Move::Ask {
            op,
            then: RunState { plan, at, summary, stage: StageAt::Copying { job: then } },
        },
        Move::Finished { outcome } => match outcome {
            Err(e) => Move::Finished { outcome: Err(e) },
            Ok(copied) => run_begin(plan, at + 1, tally(summary, copied), suffixes(at + 1)),
        },
    }
}

proof fn lemma_entry_runs(
    w: Files,
    plan: RunPlan,
    at: int,
    summary: SyncSummary,
    step: Move<CopyState, u64>,
    suffixes: spec_fn(int) -> Seq<char>,
)
    requires
        at < plan.entries.len(),
    ensures
        transfer_run(w, lifted(plan, at, summary, step, suffixes), suffixes) == match copy_run(
            w,
            step,
        ).1 {
            Err(e) => (copy_run(w, step).0, Err::<SyncSummary, Seq<char>>(e)),
            Ok(copied) => transfer_run(
                copy_run(w, step).0,
                run_begin(plan, at + 1, tally(summary, copied), suffixes(at + 1)),
                suffixes,
            ),
        },
    decreases (match step {
        Move::Ask { then, .. } => replies_left(then.at),
        Move::Finished { .. } => 0nat,
    }),
{
    match step {
        Move::Finished { .. } => {},
        Move::Ask { op, then } => {
            lemma_entry_runs(
                changed(w, op),
                plan,
                at,
                summary,
                copy_next(then, answer(w, op)),
                suffixes,
            );
        },
    }
}

/// The copy of one entry, before its first reply.
pub open spec fn entry_job(plan: RunPlan, i: int, suffix: Seq<char>) -> CopyState {
    let e = plan.entries[i];
    copy_job(
        join(plan.from, e.relpath),
        join(plan.to, e.relpath),
        e.size,
        Some(e.sha256),
        plan.pid,
        suffix,
    )
}

/// No temporary file has the name of a file that is there or that is to be made, and every
/// destination has a directory.
pub open spec fn temporaries_apart(
    w: Files,
    plan: RunPlan,
    suffixes: spec_fn(int) -> Seq<char>,
) -> bool {
    &&& forall|i: int| #![trigger plan.entries[i]]
        0 <= i < plan.entries.len() ==> entry_job(plan, i, suffixes(i)).dir is Some
            && !w.contains_key(entry_job(plan, i, suffixes(i)).tmp)
    &&& forall|i: int, j: int| #![trigger plan.entries[i], plan.entries[j]]
        0 <= i < plan.entries.len() && 0 <= j < plan.entries.len() ==> entry_job(
            plan,
            i,
            suffixes(i),
        ).tmp != join(plan.to, plan.entries[j].relpath)
}

/// Only files that the manifest lists were added, and no file was touched that was there.
pub open spec fn only_adds(w: Files, w2: Files, plan: RunPlan) -> bool {
    &&& forall|p: Seq<char>| #[trigger]
        w.contains_key(p) ==> w2.contains_key(p) && w2[p] == w[p]
    &&& forall|p: Seq<char>| #[trigger]
        w2.contains_key(p) && !w.contains_key(p) ==> exists|i: int|
            0 <= i < plan.entries.len() && p == join(plan.to, #[trigger] plan.entries[i].relpath)
}

proof fn lemma_transfer_from(
    w: Files,
    plan: RunPlan,
    at: int,
    summary: SyncSummary,
    suffixes: spec_fn(int) -> Seq<char>,
)
    requires
        measurable(w),
        0 <= at <= plan.entries.len(),
        temporaries_apart(w, plan, suffixes),
    ensures
        ({
            let (w2, o) = transfer_run(w, run_begin(plan, at, summary, suffixes(at)), suffixes);
            &&& measurable(w2)
            &&& only_adds(w, w2, plan)
            &&& (o is Ok ==> forall|i: int|
                at <= i < plan.entries.len() ==> holds(w2, plan.to, #[trigger] plan.entries[i]))
        }),
    decreases plan.entries.len() - at,
{
    if at < plan.entries.len() {
        let job = entry_job(plan, at, suffixes(at));
        lemma_copy_is_all_or_nothing(w, job);
        lemma_entry_runs(w, plan, at, summary, copy_start(job), suffixes);
        let (w1, o1) = copy_run(w, copy_start(job));
        assert(only_adds(w, w1, plan));
        if let Ok(copied) = o1 {
            lemma_transfer_from(w1, plan, at + 1, tally(summary, copied), suffixes);
            let (w2, o) = transfer_run(
                w1,
                run_begin(plan, at + 1, tally(summary, copied), suffixes(at + 1)),
                suffixes,
            );
            if o is Ok {
                assert forall|i: int| at <= i < plan.entries.len() implies holds(
                    w2,
                    plan.to,
                    #[trigger] plan.entries[i],
                ) by {
                    assert(i > at || holds(w1, plan.to, plan.entries[i]));
                }
            }
        }
        if plan.check_source {
            reveal_with_fuel(transfer_run, 2);
        }
    }
}

/// Copying a manifest's files, to a remote directory or from one, adds nothing but files
/// that the manifest lists and touches none that was there, whether or not it succeeds.
/// Where it succeeds, every file that the manifest lists is at its destination with its
/// size and, up to the limit, its hash: verifying the destination then succeeds.
pub proof fn lemma_transfer_then_verify(
    w: Files,
    plan: RunPlan,
    suffixes: spec_fn(int) -> Seq<char>,
)
    requires
        measurable(w),
        temporaries_apart(w, plan, suffixes),
    ensures
        ({
            let (w2, o) = transfer_run(
                w,
                run_begin(plan, 0, no_transfer(), suffixes(0)),
                suffixes,
            );
            &&& only_adds(w, w2, plan)
            &&& (o is Ok ==> verify_run(w2, verify_begin(plan.entries, plan.to, 0)) == Ok::<
                SyncSummary,
                Seq<char>,
            >(verified_files(plan.entries.len() as int)))
        }),
{
    lemma_transfer_from(w, plan, 0, no_transfer(), suffixes);
    let (w2, o) = transfer_run(w, run_begin(plan, 0, no_transfer(), suffixes(0)), suffixes);
    lemma_verify_decides(w2, plan.entries, plan.to);
}

} // verus!
