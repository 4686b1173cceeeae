//! Transactions that are there: those that were staged and never published, their
//! states, and which of them can go.

use vstd::prelude::*;

use crate::commands::transactions::{
    published_marker, published_path, staged_marker, staged_path,
};
use crate::error::{told, Error};
use crate::keyed::{lists_set, TextSet};
use crate::remote::{lemma_log_grows, new_calls, RemoteCall, RemoteSession, RemoteStore};
use crate::text::{
    after_prefix, before_first, begins_with, first_of, join_texts, joined, same_text, texts,
    without_prefix,
};

verus! {

/// The reply, if the call asks whether there is an object at `path`.
pub open spec fn exists_of(call: RemoteCall, path: Seq<char>) -> Option<Result<bool, Seq<char>>> {
    match call {
        RemoteCall::Exists { path: p, reply } => if p == path {
            Some(reply)
        } else {
            None
        },
        _ => None,
    }
}

/// The transactions that are marked as staged, in the order of the markers.
pub open spec fn staged_ids(markers: Seq<Seq<char>>) -> Seq<Seq<char>>
    decreases markers.len(),
{
    if markers.len() == 0 {
        Seq::empty()
    } else {
        let before = staged_ids(markers.drop_last());
        match after_prefix(markers.last(), "tx/STAGED/"@) {
            Some(id) => before.push(id),
            None => before,
        }
    }
}

/// Those transactions of which the remote did not say that they were published.
pub open spec fn unpublished(ids: Seq<Seq<char>>, answers: Seq<RemoteCall>) -> Seq<Seq<char>>
    decreases answers.len(),
{
    if answers.len() == 0 {
        Seq::empty()
    } else {
        let before = unpublished(ids, answers.drop_last());
        let id = ids[answers.len() - 1];
        if exists_of(answers.last(), published_marker(id)) == Some(Ok::<bool, Seq<char>>(true)) {
            before
        } else {
            before.push(id)
        }
    }
}

/// Each call asks whether one of the transactions was published.
pub open spec fn ask_published(ids: Seq<Seq<char>>, calls: Seq<RemoteCall>) -> bool {
    &&& calls.len() <= ids.len()
    &&& forall|i: int|
        0 <= i < calls.len() ==> exists_of(#[trigger] calls[i], published_marker(ids[i])) is Some
}

/// The calls look for transactions that were staged and not published. One of which that
/// cannot be said counts as not published.
pub open spec fn looked_for_stale(
    calls: Seq<RemoteCall>,
    outcome: Result<Seq<Seq<char>>, Seq<char>>,
) -> bool {
    &&& calls.len() >= 1
    &&& calls[0] matches RemoteCall::List { prefix, reply }
    &&& prefix == "tx/STAGED"@
    &&& match reply {
        Err(e) => calls.len() == 1 && outcome == Err::<Seq<Seq<char>>, Seq<char>>(e),
        Ok(markers) => {
            let ids = staged_ids(markers);
            &&& calls.len() == 1 + ids.len()
            &&& ask_published(ids, calls.skip(1))
            &&& outcome == Ok::<Seq<Seq<char>>, Seq<char>>(unpublished(ids, calls.skip(1)))
        },
    }
}

/// A result that hands out texts, by view.
pub open spec fn told_texts(r: Result<Vec<String>, Error>) -> Result<Seq<Seq<char>>, Seq<char>> {
    match r {
        Ok(v) => Ok(texts(v@)),
        Err(e) => Err(e@),
    }
}

/// The transactions that were staged and not published.
pub fn stale_transactions<S: RemoteStore>(store: &mut RemoteSession<S>) -> (r: Result<
    Vec<String>,
    Error,
>)
    ensures
        final(store).continues(old(store)),
        old(store).log().is_prefix_of(final(store).log()),
        looked_for_stale(new_calls(old(store).log(), final(store).log()), told_texts(r)),
{
    let ghost log0 = store.log();
    let listed = store.list_prefix("tx/STAGED");
    let ghost log1 = store.log();
    proof {
        assert(new_calls(log0, log1) =~= seq![log1.last()]);
    }
    let markers = match listed {
        Err(e) => return Err(e),
        Ok(v) => v,
    };
    let mut ids: Vec<String> = Vec::new();
    let mut i: usize = 0;
    while i < markers.len()
        invariant
            i <= markers@.len(),
            texts(ids@) == staged_ids(texts(markers@).take(i as int)),
        decreases markers@.len() - i,
    {
        proof {
            assert(texts(markers@).take(i + 1).drop_last() =~= texts(markers@).take(i as int));
        }
        if let Some(id) = without_prefix(markers[i].as_str(), "tx/STAGED/") {
            ids.push(id);
        }
        i += 1;
    }
    proof {
        assert(texts(markers@).take(i as int) =~= texts(markers@));
    }
    let mut stale: Vec<String> = Vec::new();
    let mut i: usize = 0;
    while i < ids.len()
        invariant
            i <= ids@.len(),
            store.continues(old(store)),
            log1.is_prefix_of(store.log()),
            store.log().len() == log1.len() + i,
            ask_published(texts(ids@), new_calls(log1, store.log())),
            texts(stale@) == unpublished(texts(ids@), new_calls(log1, store.log())),
        decreases ids@.len() - i,
    {
        let ghost before = new_calls(log1, store.log());
        let marker = published_path(ids[i].as_str());
        let there = store.has_object(marker.as_str());
        proof {
            let after = new_calls(log1, store.log());
            assert(after.drop_last() =~= before);
            assert forall|j: int| 0 <= j < after.len() implies exists_of(
                #[trigger] after[j],
                published_marker(texts(ids@)[j]),
            ) is Some by {
                if j < i {
                    assert(before[j] == after[j]);
                }
            }
        }
        let published = match there {
            Ok(b) => b,
            Err(_) => false,
        };
        if !published {
            stale.push(ids[i].clone());
        }
        i += 1;
    }
    proof {
        let calls = new_calls(log0, store.log());
        assert(calls.skip(1) =~= new_calls(log1, store.log()));
    }
    Ok(stale)
}

/// What is said of transactions that were staged and not published.
pub open spec fn stale_text(ids: Seq<Seq<char>>) -> Seq<char> {
    "xet-ai: warning: found staged transactions from previous pushes: "@ + joined(ids, ", "@)
}

/// The warning for transactions that were staged and not published.
pub fn stale_warning(ids: &Vec<String>) -> (r: String)
    ensures
        r@ == stale_text(texts(ids@)),
{
    let mut m = "xet-ai: warning: found staged transactions from previous pushes: ".to_owned();
    let list = join_texts(ids, ", ");
    m.append(list.as_str());
    m
}

/// The transaction that an object belongs to, unless it is a marker.
pub open spec fn tx_of(path: Seq<char>) -> Option<Seq<char>> {
    match after_prefix(path, "tx/"@) {
        None => None,
        Some(rest) => if "STAGED/"@.is_prefix_of(rest) || "PUBLISHED/"@.is_prefix_of(rest) {
            None
        } else {
            Some(rest.take(first_of(rest, '/')))
        },
    }
}

/// The transactions that objects belong to.
pub open spec fn tx_ids(paths: Seq<Seq<char>>) -> Set<Seq<char>> {
    Set::new(
        |id: Seq<char>| exists|i: int| 0 <= i < paths.len() && tx_of(#[trigger] paths[i]) == Some(id),
    )
}

fn collect_ids(paths: &Vec<String>) -> (r: TextSet)
    ensures
        r@ == tx_ids(texts(paths@)),
{
    let mut ids = TextSet::new();
    let ghost all = texts(paths@);
    let mut i: usize = 0;
    while i < paths.len()
        invariant
            i <= paths@.len(),
            all == texts(paths@),
            ids@ == tx_ids(all.take(i as int)),
        decreases paths@.len() - i,
    {
        if let Some(rest) = without_prefix(paths[i].as_str(), "tx/") {
            if !begins_with(rest.as_str(), "STAGED/") && !begins_with(
                rest.as_str(),
                "PUBLISHED/",
            ) {
                ids.insert(before_first(rest.as_str(), '/'));
            }
        }
        proof {
            let t = all.take(i + 1);
            assert forall|id: Seq<char>| ids@.contains(id) == tx_ids(t).contains(id) by {
                assert(t[i as int] == paths@[i as int]@);
            }
        }
        i += 1;
    }
    proof {
        assert(all.take(i as int) =~= all);
    }
    ids
}

/// The line that tells the state of a transaction.
pub open spec fn state_line(id: Seq<char>, published: bool, staged: bool) -> Seq<char> {
    id + "\t"@ + if published {
        "published"@
    } else if staged {
        "staged"@
    } else {
        "unknown"@
    }
}

/// The reply to a question, where it is `Ok`.
pub open spec fn said_yes(call: RemoteCall) -> bool {
    call matches RemoteCall::Exists { reply, .. } && reply == Ok::<bool, Seq<char>>(true)
}

/// The reply to a question is `Ok`.
pub open spec fn said(call: RemoteCall) -> bool {
    call matches RemoteCall::Exists { reply, .. } && reply is Ok
}

/// Two calls for each transaction: was it published, was it staged?
pub open spec fn ask_states(ids: Seq<Seq<char>>, calls: Seq<RemoteCall>) -> bool {
    &&& calls.len() <= 2 * ids.len()
    &&& forall|i: int|
        #![trigger ids[i]]
        0 <= i < ids.len() ==> {
            &&& 2 * i < calls.len() ==> exists_of(calls[2 * i], published_marker(ids[i])) is Some
            &&& 2 * i + 1 < calls.len() ==> exists_of(
                calls[2 * i + 1],
                staged_marker(ids[i]),
            ) is Some
        }
}

/// The lines for the transactions whose state was asked for.
pub open spec fn state_lines(ids: Seq<Seq<char>>, calls: Seq<RemoteCall>) -> Seq<Seq<char>> {
    Seq::new(
        ids.len(),
        |i: int| state_line(ids[i], said_yes(calls[2 * i]), said_yes(calls[2 * i + 1])),
    )
}

/// The calls ask for the state of the transactions, up to the first failure.
pub open spec fn told_states(
    ids: Seq<Seq<char>>,
    calls: Seq<RemoteCall>,
    outcome: Result<Seq<Seq<char>>, Seq<char>>,
) -> bool {
    &&& ask_states(ids, calls)
    &&& match outcome {
        Ok(lines) => {
            &&& calls.len() == 2 * ids.len()
            &&& forall|i: int| 0 <= i < calls.len() ==> said(#[trigger] calls[i])
            &&& lines == state_lines(ids, calls)
        },
        Err(e) => {
            &&& calls.len() > 0
            &&& calls.last() matches RemoteCall::Exists { reply, .. }
            &&& reply == Err::<bool, Seq<char>>(e)
            &&& forall|i: int| 0 <= i < calls.len() - 1 ==> said(#[trigger] calls[i])
        },
    }
}

/// The calls list the transactions with their states.
pub open spec fn listed_transactions(
    calls: Seq<RemoteCall>,
    outcome: Result<Seq<Seq<char>>, Seq<char>>,
) -> bool {
    &&& calls.len() >= 1
    &&& calls[0] matches RemoteCall::Capabilities { reply: caps }
    &&& if !caps.supports_list_prefix {
        calls.len() == 1 && outcome == Err::<Seq<Seq<char>>, Seq<char>>(
            "remote backend does not support transaction listing"@,
        )
    } else {
        &&& calls.len() >= 2
        &&& calls[1] matches RemoteCall::List { prefix, reply }
        &&& prefix == "tx"@
        &&& match reply {
            Err(e) => calls.len() == 2 && outcome == Err::<Seq<Seq<char>>, Seq<char>>(e),
            Ok(paths) => exists|ids: Seq<Seq<char>>|
                #[trigger] told_states(ids, calls.skip(2), outcome) && lists_set(
                    ids,
                    tx_ids(paths),
                ),
        }
    }
}

/// Asks for the state of the transactions.
fn states_of<S: RemoteStore>(store: &mut RemoteSession<S>, ids: &Vec<String>) -> (r: Result<
    Vec<String>,
    Error,
>)
    ensures
        final(store).continues(old(store)),
        old(store).log().is_prefix_of(final(store).log()),
        told_states(
            texts(ids@),
            new_calls(old(store).log(), final(store).log()),
            told_texts(r),
        ),
{
    let ghost log0 = store.log();
    let ghost all = texts(ids@);
    let mut lines: Vec<String> = Vec::new();
    let mut i: usize = 0;
    while i < ids.len()
        invariant
            i <= ids@.len(),
            all == texts(ids@),
            log0 == old(store).log(),
            store.continues(old(store)),
            log0.is_prefix_of(store.log()),
            store.log().len() == log0.len() + 2 * i,
            ask_states(all, new_calls(log0, store.log())),
            forall|j: int| 0 <= j < 2 * i ==> said(#[trigger] new_calls(log0, store.log())[j]),
            texts(lines@) == state_lines(all, new_calls(log0, store.log())).take(i as int),
        decreases ids@.len() - i,
    {
        let ghost before = new_calls(log0, store.log());
        let ghost lines0 = lines@;
        let published = store.has_object(published_path(ids[i].as_str()).as_str());
        let ghost mid = new_calls(log0, store.log());
        proof {
            assert forall|j: int| 0 <= j < mid.len() - 1 implies said(#[trigger] mid[j]) by {
                assert(said(before[j]));
            }
        }
        let published = match published {
            Err(e) => return Err(e),
            Ok(b) => b,
        };
        let staged = store.has_object(staged_path(ids[i].as_str()).as_str());
        let ghost after = new_calls(log0, store.log());
        proof {
            assert forall|j: int| 0 <= j < after.len() - 1 implies said(#[trigger] after[j]) by {
                assert(said(mid[j]));
            }
        }
        let staged = match staged {
            Err(e) => return Err(e),
            Ok(b) => b,
        };
        let mut line = ids[i].clone();
        line.append("\t");
        if published {
            line.append("published");
        } else if staged {
            line.append("staged");
        } else {
            line.append("unknown");
        }
        proof {
            let new_lines = state_lines(all, after);
            assert(texts(lines0).push(line@) =~= new_lines.take(i + 1));
        }
        lines.push(line);
        i += 1;
    }
    proof {
        let states = new_calls(log0, store.log());
        assert(state_lines(all, states).take(i as int) =~= state_lines(all, states));
    }
    Ok(lines)
}

/// The transactions on a remote by their identity, each with its state.
pub fn remote_tx_list<S: RemoteStore>(store: &mut RemoteSession<S>) -> (r: Result<
    Vec<String>,
    Error,
>)
    ensures
        final(store).continues(old(store)),
        old(store).log().is_prefix_of(final(store).log()),
        listed_transactions(new_calls(old(store).log(), final(store).log()), told_texts(r)),
{
    let ghost log0 = store.log();
    let caps = store.capabilities();
    if !caps.supports_list_prefix {
        return Err(Error::saying("remote backend does not support transaction listing"));
    }
    let listed = store.list_prefix("tx");
    let ghost log2 = store.log();
    let paths = match listed {
        Err(e) => return Err(e),
        Ok(v) => v,
    };
    let ids = collect_ids(&paths).members();
    let r = states_of(store, &ids);
    proof {
        lemma_log_grows(log0, log2, store.log());
        let calls = new_calls(log0, store.log());
        assert(calls.skip(2) =~= new_calls(log2, store.log()));
    }
    r
}

/// A directory below that of the transactions, with its age in seconds where that is
/// known.
pub struct TxDir {
    pub name: String,
    pub is_dir: bool,
    pub age_secs: Option<u64>,
}

/// Such a directory, by view.
pub struct TxDirView {
    pub name: Seq<char>,
    pub is_dir: bool,
    pub age_secs: Option<u64>,
}

impl View for TxDir {
    type V = TxDirView;

    open spec fn view(&self) -> TxDirView {
        TxDirView { name: self.name@, is_dir: self.is_dir, age_secs: self.age_secs }
    }
}

/// The directory is that of a transaction.
pub open spec fn is_tx_dir(d: TxDirView) -> bool {
    d.is_dir && d.name != "STAGED"@ && d.name != "PUBLISHED"@
}

/// The directories of transactions, in their order.
pub open spec fn tx_dirs(dirs: Seq<TxDir>) -> Seq<TxDirView>
    decreases dirs.len(),
{
    if dirs.len() == 0 {
        Seq::empty()
    } else {
        let before = tx_dirs(dirs.drop_last());
        if is_tx_dir(dirs.last()@) {
            before.push(dirs.last()@)
        } else {
            before
        }
    }
}

/// The directory has not been touched for that long.
pub open spec fn is_old(d: TxDirView, cutoff_secs: nat) -> bool {
    d.age_secs matches Some(age) && age >= cutoff_secs
}

/// The transactions that can go: those that were not published and are old.
pub open spec fn removable(
    dirs: Seq<TxDirView>,
    calls: Seq<RemoteCall>,
    cutoff_secs: nat,
) -> Seq<Seq<char>>
    decreases calls.len(),
{
    if calls.len() == 0 {
        Seq::empty()
    } else {
        let before = removable(dirs, calls.drop_last(), cutoff_secs);
        let d = dirs[calls.len() - 1];
        if exists_of(calls.last(), published_marker(d.name)) == Some(
            Ok::<bool, Seq<char>>(false),
        ) && is_old(d, cutoff_secs) {
            before.push(d.name)
        } else {
            before
        }
    }
}

/// The names of directories.
pub open spec fn dir_names(dirs: Seq<TxDirView>) -> Seq<Seq<char>> {
    dirs.map_values(|d: TxDirView| d.name)
}

/// The calls ask of each transaction whether it was published, up to the first failure.
pub open spec fn asked_in_turn(
    ids: Seq<Seq<char>>,
    calls: Seq<RemoteCall>,
    outcome: Result<(), Seq<char>>,
) -> bool {
    &&& ask_published(ids, calls)
    &&& match outcome {
        Ok(_) => calls.len() == ids.len() && forall|i: int|
            0 <= i < calls.len() ==> said(#[trigger] calls[i]),
        Err(e) => {
            &&& calls.len() > 0
            &&& calls.last() matches RemoteCall::Exists { reply, .. }
            &&& reply == Err::<bool, Seq<char>>(e)
            &&& forall|i: int| 0 <= i < calls.len() - 1 ==> said(#[trigger] calls[i])
        },
    }
}

/// The calls look for transactions that can go.
pub open spec fn swept(
    dirs: Seq<TxDir>,
    cutoff_secs: nat,
    calls: Seq<RemoteCall>,
    removed: Seq<Seq<char>>,
    outcome: Result<(), Seq<char>>,
) -> bool {
    &&& calls.len() >= 1
    &&& calls[0] matches RemoteCall::Capabilities { reply: caps }
    &&& if !caps.supports_list_prefix {
        &&& calls.len() == 1
        &&& removed.len() == 0
        &&& outcome == Err::<(), Seq<char>>(
            "remote backend does not support transaction listing/gc"@,
        )
    } else {
        &&& asked_in_turn(dir_names(tx_dirs(dirs)), calls.skip(1), outcome)
        &&& removed == removable(tx_dirs(dirs), calls.skip(1), cutoff_secs)
    }
}

/// What is told of a transaction that was removed.
pub fn removed_line(txid: &str) -> (r: String)
    ensures
        r@ == "removed stale tx "@ + txid@,
{
    let mut m = "removed stale tx ".to_owned();
    m.append(txid);
    m
}

/// The transactions that can go, up to the first failure: those whose directory has not
/// been touched for the given time and that were not published.
pub fn remote_tx_gc<S: RemoteStore>(
    store: &mut RemoteSession<S>,
    dirs: &Vec<TxDir>,
    older_than_minutes: u64,
) -> (r: (Vec<String>, Result<(), Error>))
    requires
        older_than_minutes * 60 <= u64::MAX,
    ensures
        final(store).continues(old(store)),
        old(store).log().is_prefix_of(final(store).log()),
        swept(
            dirs@,
            (older_than_minutes * 60) as nat,
            new_calls(old(store).log(), final(store).log()),
            texts(r.0@),
            told(r.1),
        ),
{
    let cutoff: u64 = older_than_minutes * 60;
    let ghost log0 = store.log();
    let caps = store.capabilities();
    let ghost log1 = store.log();
    let mut removed: Vec<String> = Vec::new();
    if !caps.supports_list_prefix {
        return (
            removed,
            Err(Error::saying("remote backend does not support transaction listing/gc")),
        );
    }
    let ghost all = tx_dirs(dirs@);
    let mut i: usize = 0;
    while i < dirs.len()
        invariant
            i <= dirs@.len(),
            all == tx_dirs(dirs@),
            cutoff == older_than_minutes * 60,
            caps.supports_list_prefix,
            log0 == old(store).log(),
            log1 == log0.push(RemoteCall::Capabilities { reply: caps }),
            store.continues(old(store)),
            log1.is_prefix_of(store.log()),
            tx_dirs(dirs@.take(i as int)).is_prefix_of(all),
            new_calls(log1, store.log()).len() == tx_dirs(dirs@.take(i as int)).len(),
            ask_published(dir_names(all), new_calls(log1, store.log())),
            forall|j: int|
                0 <= j < new_calls(log1, store.log()).len() ==> said(
                    #[trigger] new_calls(log1, store.log())[j],
                ),
            texts(removed@) == removable(all, new_calls(log1, store.log()), cutoff as nat),
        decreases dirs@.len() - i,
    {
        let ghost before = new_calls(log1, store.log());
        proof {
            assert(dirs@.take(i + 1).drop_last() =~= dirs@.take(i as int));
            lemma_tx_dirs_prefix(dirs@, i + 1);
        }
        let dir = &dirs[i];
        if dir.is_dir && !same_text(dir.name.as_str(), "STAGED") && !same_text(
            dir.name.as_str(),
            "PUBLISHED",
        ) {
            let there = store.has_object(published_path(dir.name.as_str()).as_str());
            proof {
                let after = new_calls(log1, store.log());
                let k = before.len() as int;
                assert(after.drop_last() =~= before);
                let grown = tx_dirs(dirs@.take(i + 1));
                assert(grown[k] == all.subrange(0, grown.len() as int)[k]);
                assert forall|j: int| 0 <= j < after.len() implies exists_of(
                    #[trigger] after[j],
                    published_marker(dir_names(all)[j]),
                ) is Some by {
                    if j < k {
                        assert(before[j] == after[j]);
                    }
                }
                assert forall|j: int| 0 <= j < k implies said(#[trigger] after[j]) by {
                    assert(said(before[j]));
                }
                lemma_log_grows(log0, log1, store.log());
                let calls = new_calls(log0, store.log());
                assert(calls.skip(1) =~= after);
            }
            match there {
                Err(e) => {
                    return (removed, Err(e));
                },
                Ok(published) => {
                    let is_due = match dir.age_secs {
                        Some(age) => age >= cutoff,
                        None => false,
                    };
                    if !published && is_due {
                        removed.push(dir.name.clone());
                    }
                },
            }
        }
        i += 1;
    }
    proof {
        assert(dirs@.take(i as int) =~= dirs@);
        lemma_log_grows(log0, log1, store.log());
        let calls = new_calls(log0, store.log());
        let asked = new_calls(log1, store.log());
        assert(calls.skip(1) =~= asked);
    }
    (removed, Ok(()))
}

proof fn lemma_tx_dirs_prefix(dirs: Seq<TxDir>, k: int)
    requires
        0 <= k <= dirs.len(),
    ensures
        tx_dirs(dirs.take(k)).is_prefix_of(tx_dirs(dirs)),
    decreases dirs.len() - k,
{
    if k == dirs.len() {
        assert(dirs.take(k) =~= dirs);
    } else {
        lemma_tx_dirs_prefix(dirs, k + 1);
        assert(dirs.take(k + 1).drop_last() =~= dirs.take(k));
    }
}

/// A transaction goes only if the remote said that it was not published and its directory
/// is old enough. The directories of the markers never go.
pub proof fn lemma_gc_spares_published(
    dirs: Seq<TxDir>,
    cutoff_secs: nat,
    calls: Seq<RemoteCall>,
    removed: Seq<Seq<char>>,
    outcome: Result<(), Seq<char>>,
    name: Seq<char>,
)
    requires
        swept(dirs, cutoff_secs, calls, removed, outcome),
        removed.contains(name),
    ensures
        name != "STAGED"@,
        name != "PUBLISHED"@,
        exists|i: int, k: int|
            {
                &&& 0 <= i < dirs.len()
                &&& 0 <= k < calls.len()
                &&& (#[trigger] dirs[i])@.name == name
                &&& dirs[i].is_dir
                &&& is_old(dirs[i]@, cutoff_secs)
                &&& exists_of(#[trigger] calls[k], published_marker(name)) == Some(
                    Ok::<bool, Seq<char>>(false),
                )
            },
{
    let all = tx_dirs(dirs);
    let asked = calls.skip(1);
    let j = lemma_removed_at(all, asked, cutoff_secs, name);
    lemma_tx_dir_at(dirs, j);
}

proof fn lemma_removed_at(
    all: Seq<TxDirView>,
    calls: Seq<RemoteCall>,
    cutoff_secs: nat,
    name: Seq<char>,
) -> (j: int)
    requires
        removable(all, calls, cutoff_secs).contains(name),
        calls.len() <= all.len(),
    ensures
        0 <= j < calls.len(),
        all[j].name == name,
        is_old(all[j], cutoff_secs),
        exists_of(calls[j], published_marker(name)) == Some(Ok::<bool, Seq<char>>(false)),
    decreases calls.len(),
{
    let before = removable(all, calls.drop_last(), cutoff_secs);
    if before.contains(name) {
        lemma_removed_at(all, calls.drop_last(), cutoff_secs, name)
    } else {
        calls.len() - 1
    }
}

proof fn lemma_tx_dir_at(dirs: Seq<TxDir>, j: int) -> (i: int)
    requires
        0 <= j < tx_dirs(dirs).len(),
    ensures
        0 <= i < dirs.len(),
        dirs[i]@ == tx_dirs(dirs)[j],
        is_tx_dir(dirs[i]@),
    decreases dirs.len(),
{
    let before = tx_dirs(dirs.drop_last());
    if j < before.len() {
        lemma_tx_dir_at(dirs.drop_last(), j)
    } else {
        dirs.len() - 1
    }
}

} // verus!
