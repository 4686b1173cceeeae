//! Laws of what is told of remotes: their list, their refs, and the transactions on them.

use vstd::prelude::*;

use crate::commands::remotes::{remote_lines, remote_refs, without_all};
use crate::commands::transactions::published_marker;
use crate::commands::upkeep::{
    dir_names, exists_of, is_old, is_tx_dir, lemma_gc_spares_published, remote_tx_gc,
    remote_tx_list, removable, removed_line, staged_ids, stale_transactions, stale_warning,
    told_states, tx_dirs, tx_ids, tx_of, unpublished, TxDir, TxDirView,
};
use crate::config::EffectiveConfig;
use crate::error::Error;
use crate::keyed::lists_set;
use crate::laws::store::{is_among, lemma_prefix};
use crate::laws::text::{comes_first, lemma_lt_decides};
use crate::remote::{new_calls, RemoteCall, RemoteSession, RemoteStore};
use crate::sync::roundtrip::{kept, truthful, truthful_reply, Objects};
use crate::sync::world::Files;
use crate::text::{first_of, joined, lemma_first_of, lossy_text, texts, trim_text};

verus! {

/// The call only looks.
pub open spec fn only_looks(call: RemoteCall) -> bool {
    !(call is Write) && !(call is CopyIn)
}

/// A remote that works, and is only looked at, answers everything by what it has.
pub proof fn lemma_looking_changes_nothing(w: Files, r: Objects, calls: Seq<RemoteCall>)
    requires
        truthful(w, r, calls),
        forall|i: int| 0 <= i < calls.len() ==> only_looks(#[trigger] calls[i]),
    ensures
        forall|i: int| 0 <= i < calls.len() ==> truthful_reply(w, r, #[trigger] calls[i]),
    decreases calls.len(),
{
    if calls.len() > 0 {
        let rest = calls.drop_first();
        assert(only_looks(calls[0]));
        assert(kept(w, r, calls[0]) == r);
        assert forall|i: int| 0 <= i < rest.len() implies only_looks(#[trigger] rest[i]) by {
            assert(rest[i] == calls[i + 1]);
        }
        lemma_looking_changes_nothing(w, r, rest);
        assert forall|i: int| 0 <= i < calls.len() implies truthful_reply(
            w,
            r,
            #[trigger] calls[i],
        ) by {
            if i > 0 {
                assert(rest[i - 1] == calls[i]);
            }
        }
    }
}

proof fn lemma_staged_ids(markers: Seq<Seq<char>>, id: Seq<char>)
    ensures
        staged_ids(markers).contains(id) <==> markers.contains("tx/STAGED/"@ + id),
    decreases markers.len(),
{
    if markers.len() > 0 {
        let q = markers.drop_last();
        let last = markers.last();
        let p = "tx/STAGED/"@;
        let all = staged_ids(markers);
        let before = staged_ids(q);
        lemma_staged_ids(q, id);
        lemma_prefix(last, p);
        if p.is_prefix_of(last) {
            assert(last =~= p + last.skip(p.len() as int));
            assert(all.last() == last.skip(p.len() as int));
        }
        if markers.contains(p + id) {
            let n = choose|n: int| 0 <= n < markers.len() && markers[n] == p + id;
            if n < q.len() {
                assert(q[n] == p + id);
                let k = choose|k: int| 0 <= k < before.len() && before[k] == id;
                assert(all[k] == id);
            } else {
                assert(last.skip(p.len() as int) =~= id);
                assert(all.last() == id);
            }
        }
        if all.contains(id) {
            let k = choose|k: int| 0 <= k < all.len() && all[k] == id;
            if k < before.len() {
                assert(before[k] == id);
                let n = choose|n: int| 0 <= n < q.len() && q[n] == p + id;
                assert(markers[n] == p + id);
            } else {
                assert(markers[markers.len() - 1] == p + id);
            }
        }
    }
}

/// It was asked whether the transaction was published.
pub open spec fn asked_of(call: RemoteCall, id: Seq<char>) -> bool {
    call matches RemoteCall::Exists { path, .. } && path == "tx/PUBLISHED/"@ + id
}

/// Somewhere in the calls it was asked whether the transaction was published.
pub open spec fn was_asked_of(calls: Seq<RemoteCall>, id: Seq<char>) -> bool {
    exists|j: int| 0 <= j < calls.len() && asked_of(#[trigger] calls[j], id)
}

/// Somewhere in the calls it was asked, and the remote did not say yes.
pub open spec fn was_not_confirmed(calls: Seq<RemoteCall>, id: Seq<char>) -> bool {
    exists|j: int|
        0 <= j < calls.len() && asked_of(#[trigger] calls[j], id) && !(
        calls[j] matches RemoteCall::Exists { reply, .. } && reply == Ok::<bool, Seq<char>>(true))
}

proof fn lemma_unpublished(ids: Seq<Seq<char>>, answers: Seq<RemoteCall>, id: Seq<char>)
    requires
        answers.len() <= ids.len(),
        forall|i: int|
            0 <= i < answers.len() ==> exists_of(
                #[trigger] answers[i],
                published_marker(ids[i]),
            ) is Some,
    ensures
        unpublished(ids, answers).contains(id) <==> was_not_confirmed(answers, id),
    decreases answers.len(),
{
    let p = "tx/PUBLISHED/"@;
    if answers.len() > 0 {
        let q = answers.drop_last();
        let k = answers.len() - 1;
        let all = unpublished(ids, answers);
        let before = unpublished(ids, q);
        assert forall|i: int| 0 <= i < q.len() implies exists_of(
            #[trigger] q[i],
            published_marker(ids[i]),
        ) is Some by {
            assert(q[i] == answers[i]);
        }
        lemma_unpublished(ids, q, id);
        let last = answers[k];
        assert(exists_of(last, published_marker(ids[k])) is Some);
        assert((p + ids[k]).skip(p.len() as int) =~= ids[k]);
        assert((p + id).skip(p.len() as int) =~= id);
        if all.contains(id) {
            let n = choose|n: int| 0 <= n < all.len() && all[n] == id;
            if n < before.len() {
                assert(before[n] == id);
                let j = choose|j: int|
                    0 <= j < q.len() && asked_of(#[trigger] q[j], id) && !(
                    q[j] matches RemoteCall::Exists { reply, .. } && reply == Ok::<
                        bool,
                        Seq<char>,
                    >(true));
                assert(answers[j] == q[j]);
            } else {
                assert(asked_of(answers[k], id));
            }
        }
        if was_not_confirmed(answers, id) {
            let j = choose|j: int|
                0 <= j < answers.len() && asked_of(#[trigger] answers[j], id) && !(
                answers[j] matches RemoteCall::Exists { reply, .. } && reply == Ok::<
                    bool,
                    Seq<char>,
                >(true));
            if j < k {
                assert(q[j] == answers[j]);
                let n = choose|n: int| 0 <= n < before.len() && before[n] == id;
                assert(all[n] == id);
            } else {
                assert(all.last() == id);
            }
        }
    }
}

proof fn lemma_texts_among(list: Seq<String>, t: Seq<char>)
    ensures
        is_among(list, t) <==> texts(list).contains(t),
{
    if is_among(list, t) {
        let n = choose|n: int| 0 <= n < list.len() && (#[trigger] list[n])@ == t;
        assert(texts(list)[n] == t);
    }
    if texts(list).contains(t) {
        let n = choose|n: int| 0 <= n < texts(list).len() && texts(list)[n] == t;
        assert(list[n]@ == t);
    }
}

/// What is left behind: the markers of staged transactions are listed, of each it is asked
/// whether it was published, and those count of which the remote did not say so.
pub proof fn law_stale_transactions<S: RemoteStore>(
    s: &mut RemoteSession<S>,
    r: Result<Vec<String>, Error>,
    id: Seq<char>,
)
    requires
        call_ensures(stale_transactions::<S>, (s,), r),
    ensures
        ({
            let calls = new_calls(old(s).log(), final(s).log());
            &&& calls.len() >= 1
            &&& calls[0] matches RemoteCall::List { prefix, reply } && prefix == "tx/STAGED"@
                && match reply {
                Err(e) => calls.len() == 1 && (r matches Err(why) && why@ == e),
                Ok(markers) => r matches Ok(ids) && {
                    &&& markers.contains("tx/STAGED/"@ + id) <==> was_asked_of(calls, id)
                    &&& is_among(ids@, id) <==> was_not_confirmed(calls, id)
                },
            }
        }),
{
    let calls = new_calls(old(s).log(), final(s).log());
    lemma_stale(calls, crate::commands::upkeep::told_texts(r), id);
    if let Ok(ids) = r {
        lemma_texts_among(ids@, id);
    }
}

/// The same of the calls, wherever they are made.
pub proof fn lemma_stale(
    calls: Seq<RemoteCall>,
    outcome: Result<Seq<Seq<char>>, Seq<char>>,
    id: Seq<char>,
)
    requires
        crate::commands::upkeep::looked_for_stale(calls, outcome),
    ensures
        calls[0] matches RemoteCall::List { reply, .. } && (reply matches Ok(markers) ==> (
        outcome matches Ok(ids) && {
            &&& markers.contains("tx/STAGED/"@ + id) <==> was_asked_of(calls, id)
            &&& ids.contains(id) <==> was_not_confirmed(calls, id)
        })),
{
    let p = "tx/PUBLISHED/"@;
    if calls[0] matches RemoteCall::List { reply: Ok(_), .. } {
        let markers = calls[0]->List_reply->Ok_0;
        let all = staged_ids(markers);
        let asked = calls.skip(1);
        lemma_staged_ids(markers, id);
        lemma_unpublished(all, asked, id);
        if all.contains(id) {
            let n = choose|n: int| 0 <= n < all.len() && all[n] == id;
            assert(exists_of(asked[n], published_marker(all[n])) is Some);
            assert(calls[n + 1] == asked[n]);
            assert(asked_of(calls[n + 1], id));
        }
        if was_asked_of(calls, id) {
            let j = choose|j: int| 0 <= j < calls.len() && asked_of(#[trigger] calls[j], id);
            assert(asked[j - 1] == calls[j]);
            assert(exists_of(asked[j - 1], published_marker(all[j - 1])) is Some);
            assert((p + all[j - 1]).skip(p.len() as int) =~= all[j - 1]);
            assert((p + id).skip(p.len() as int) =~= id);
        }
        if was_not_confirmed(asked, id) {
            let j = choose|j: int|
                0 <= j < asked.len() && asked_of(#[trigger] asked[j], id) && !(
                asked[j] matches RemoteCall::Exists { reply, .. } && reply == Ok::<bool, Seq<char>>(
                    true,
                ));
            assert(calls[j + 1] == asked[j]);
        }
        if was_not_confirmed(calls, id) {
            let j = choose|j: int|
                0 <= j < calls.len() && asked_of(#[trigger] calls[j], id) && !(
                calls[j] matches RemoteCall::Exists { reply, .. } && reply == Ok::<bool, Seq<char>>(
                    true,
                ));
            assert(asked[j - 1] == calls[j]);
        }
    }
}

/// What is said of transactions that were left behind names them all.
pub proof fn law_stale_warning(ids: &Vec<String>, r: String, id: &str, line: String)
    requires
        call_ensures(stale_warning, (ids,), r),
        call_ensures(removed_line, (id,), line),
    ensures
        r@ == "xet-ai: warning: found staged transactions from previous pushes: "@ + joined(
            texts(ids@),
            ", "@,
        ),
        line@ == "removed stale tx "@ + id@,
{
}

/// The object belongs to the transaction: it is what stands behind `tx/` up to the next
/// separator, if there is one, and it is no marker.
pub open spec fn belongs_to(path: Seq<char>, id: Seq<char>) -> bool {
    &&& !id.contains('/')
    &&& path == "tx/"@ + id || exists|more: Seq<char>| path == #[trigger] ("tx/"@ + id + "/"@
        + more)
    &&& !exists|more: Seq<char>| path == #[trigger] ("tx/STAGED/"@ + more)
    &&& !exists|more: Seq<char>| path == #[trigger] ("tx/PUBLISHED/"@ + more)
}

/// The part of a text before the first separator, told by what it is.
proof fn lemma_before_separator(rest: Seq<char>, id: Seq<char>)
    ensures
        rest.take(first_of(rest, '/')) == id <==> !id.contains('/') && (rest == id || exists|
            more: Seq<char>,
        | rest == #[trigger] (id + "/"@ + more)),
{
    let k = first_of(rest, '/');
    reveal_strlit("/");
    lemma_first_of(rest, '/');
    let head = rest.take(k);
    if head == id {
        if k < rest.len() {
            assert(rest =~= id + "/"@ + rest.skip(k + 1));
        } else {
            assert(rest =~= id);
        }
        assert forall|i: int| 0 <= i < id.len() implies id[i] != '/' by {
            assert(rest[i] == id[i]);
        }
    }
    if !id.contains('/') && (rest == id || exists|more: Seq<char>| rest == #[trigger] (id + "/"@
        + more)) {
        let n = id.len() as int;
        if rest != id {
            let more = choose|more: Seq<char>| rest == #[trigger] (id + "/"@ + more);
            assert(rest[n] == '/');
        }
        assert forall|i: int| 0 <= i < n implies rest[i] != '/' by {
            assert(id.contains(id[i]));
            assert(rest[i] == id[i]);
        }
        assert(k == n) by {
            if k < n {
                assert(rest[k] == '/');
            } else if k > n {
                assert(rest[n] == '/');
            }
        }
        assert(rest.take(k) =~= id);
    }
}

proof fn lemma_marker_prefix(mark: Seq<char>, whole: Seq<char>, path: Seq<char>)
    requires
        whole == "tx/"@ + mark,
        "tx/"@.is_prefix_of(path),
    ensures
        mark.is_prefix_of(path.skip("tx/"@.len() as int)) <==> exists|more: Seq<char>| path
            == #[trigger] (whole + more),
{
    let p = "tx/"@;
    let rest = path.skip(p.len() as int);
    assert(path =~= p + rest) by {
        lemma_prefix(path, p);
    }
    lemma_prefix(rest, mark);
    if mark.is_prefix_of(rest) {
        let b = choose|b: Seq<char>| rest == #[trigger] (mark + b);
        assert(path =~= whole + b);
    }
    if exists|more: Seq<char>| path == #[trigger] (whole + more) {
        let more = choose|more: Seq<char>| path == #[trigger] (whole + more);
        assert(rest =~= mark + more);
    }
}

proof fn lemma_tx_of(path: Seq<char>, id: Seq<char>)
    ensures
        tx_of(path) == Some(id) <==> belongs_to(path, id),
{
    let p = "tx/"@;
    reveal_strlit("tx/");
    reveal_strlit("STAGED/");
    reveal_strlit("PUBLISHED/");
    reveal_strlit("tx/STAGED/");
    reveal_strlit("tx/PUBLISHED/");
    assert("tx/STAGED/"@ =~= p + "STAGED/"@);
    assert("tx/PUBLISHED/"@ =~= p + "PUBLISHED/"@);
    lemma_prefix(path, p);
    if p.is_prefix_of(path) {
        let rest = path.skip(p.len() as int);
        assert(path =~= p + rest);
        lemma_marker_prefix("STAGED/"@, "tx/STAGED/"@, path);
        lemma_marker_prefix("PUBLISHED/"@, "tx/PUBLISHED/"@, path);
        lemma_before_separator(rest, id);
        if rest == id {
            assert(path == p + id);
        }
        if exists|more: Seq<char>| rest == #[trigger] (id + "/"@ + more) {
            let more = choose|more: Seq<char>| rest == #[trigger] (id + "/"@ + more);
            assert(path =~= p + id + "/"@ + more);
        }
        if path == p + id {
            assert(rest =~= id);
        }
        if exists|more: Seq<char>| path == #[trigger] (p + id + "/"@ + more) {
            let more = choose|more: Seq<char>| path == #[trigger] (p + id + "/"@ + more);
            assert(rest =~= id + "/"@ + more);
        }
    } else {
        if path == p + id {
            assert(false);
        }
        if exists|more: Seq<char>| path == #[trigger] (p + id + "/"@ + more) {
            let more = choose|more: Seq<char>| path == #[trigger] (p + id + "/"@ + more);
            assert(path =~= p + (id + "/"@ + more));
            assert(false);
        }
    }
}

/// The line tells of this transaction, and whether the remote has its markers.
pub open spec fn tells_state(line: Seq<char>, r: Objects, id: Seq<char>) -> bool {
    line == id + "\t"@ + if r.contains_key("tx/PUBLISHED/"@ + id) {
        "published"@
    } else if r.contains_key("tx/STAGED/"@ + id) {
        "staged"@
    } else {
        "unknown"@
    }
}

/// The lines tell of these transactions, one each, in ascending order, and to each of them
/// some object belongs.
pub open spec fn tells_states(
    lines: Seq<String>,
    r: Objects,
    ids: Seq<Seq<char>>,
    paths: Seq<Seq<char>>,
) -> bool {
    &&& ids.len() == lines.len()
    &&& forall|n: int| 0 <= n < lines.len() ==> tells_state((#[trigger] lines[n])@, r, ids[n])
    &&& forall|n: int| 0 <= n < ids.len() ==> some_object_of(paths, #[trigger] ids[n])
    &&& forall|a: int, b: int|
        0 <= a < b < ids.len() ==> comes_first(#[trigger] ids[a], #[trigger] ids[b])
}

/// Some line tells of this transaction.
pub open spec fn some_line_tells(lines: Seq<String>, r: Objects, id: Seq<char>) -> bool {
    exists|i: int| 0 <= i < lines.len() && tells_state((#[trigger] lines[i])@, r, id)
}

/// Some object belongs to this transaction.
pub open spec fn some_object_of(paths: Seq<Seq<char>>, id: Seq<char>) -> bool {
    exists|j: int| 0 <= j < paths.len() && belongs_to(#[trigger] paths[j], id)
}

/// On a remote that works, the transactions are told to which any object belongs that the
/// remote lists, each once and in ascending order, with what its markers say: published, else
/// staged, else unknown.
pub proof fn law_remote_tx_list<S: RemoteStore>(
    s: &mut RemoteSession<S>,
    r: Result<Vec<String>, Error>,
    w: Files,
    objects: Objects,
    id: Seq<char>,
)
    requires
        call_ensures(remote_tx_list::<S>, (s,), r),
        truthful(w, objects, new_calls(old(s).log(), final(s).log())),
    ensures
        ({
            let calls = new_calls(old(s).log(), final(s).log());
            &&& calls.len() >= 1
            &&& calls[0] matches RemoteCall::Capabilities { reply: caps } && {
                &&& !caps.supports_list_prefix ==> calls.len() == 1 && (r matches Err(e) && e@
                    == "remote backend does not support transaction listing"@)
                &&& caps.supports_list_prefix ==> calls.len() >= 2 && (
                calls[1] matches RemoteCall::List { prefix, reply } && prefix == "tx"@ && match reply {
                    Err(e) => calls.len() == 2 && (r matches Err(why) && why@ == e),
                    Ok(paths) => r matches Ok(lines) && {
                        &&& some_object_of(paths, id) ==> some_line_tells(lines@, objects, id)
                        &&& exists|ids: Seq<Seq<char>>| #[trigger]
                            tells_states(lines@, objects, ids, paths)
                    },
                })
            }
        }),
{
    let calls = new_calls(old(s).log(), final(s).log());
    let outcome = crate::commands::upkeep::told_texts(r);
    if let RemoteCall::Capabilities { reply: caps } = calls[0] {
        if caps.supports_list_prefix && calls[1]->List_reply is Ok {
            let paths = calls[1]->List_reply->Ok_0;
            let asked = calls.skip(2);
            let ids = choose|ids: Seq<Seq<char>>|
                #[trigger] told_states(ids, asked, outcome) && lists_set(ids, tx_ids(paths));
            assert forall|k: int| 0 <= k < calls.len() implies only_looks(#[trigger] calls[k]) by {
                if k >= 2 {
                    assert(asked[k - 2] == calls[k]);
                    let n = (k - 2) / 2;
                    let id = ids[n];
                    assert(k - 2 == 2 * n || k - 2 == 2 * n + 1);
                }
            }
            lemma_looking_changes_nothing(w, objects, calls);
            if outcome is Err {
                assert(asked.last() == calls[calls.len() - 1]);
                assert(truthful_reply(w, objects, calls[calls.len() - 1]));
            } else {
                let lines = r->Ok_0@;
                assert(texts(lines).len() == lines.len());
                assert forall|n: int| 0 <= n < ids.len() implies tells_state(
                    (#[trigger] lines[n])@,
                    objects,
                    ids[n],
                ) by {
                    let id = ids[n];
                    assert(texts(lines)[n] == lines[n]@);
                    assert(asked[2 * n] == calls[2 * n + 2]);
                    assert(asked[2 * n + 1] == calls[2 * n + 3]);
                    assert(truthful_reply(w, objects, calls[2 * n + 2]));
                    assert(truthful_reply(w, objects, calls[2 * n + 3]));
                }
                if some_object_of(paths, id) {
                    let j = choose|j: int|
                        0 <= j < paths.len() && belongs_to(#[trigger] paths[j], id);
                    lemma_tx_of(paths[j], id);
                    assert(tx_ids(paths).contains(id));
                    assert(ids.contains(id));
                    let n = choose|n: int| 0 <= n < ids.len() && ids[n] == id;
                    assert(tells_state(lines[n]@, objects, id));
                }
                assert forall|n: int| 0 <= n < ids.len() implies some_object_of(
                    paths,
                    #[trigger] ids[n],
                ) by {
                    let known = ids[n];
                    assert(ids.contains(known));
                    assert(tx_ids(paths).contains(known));
                    let j = choose|j: int|
                        0 <= j < paths.len() && tx_of(#[trigger] paths[j]) == Some(known);
                    lemma_tx_of(paths[j], known);
                }
                assert forall|a: int, b: int| 0 <= a < b < ids.len() implies comes_first(
                    #[trigger] ids[a],
                    #[trigger] ids[b],
                ) by {
                    lemma_lt_decides(ids[a], ids[b]);
                }
                assert(tells_states(lines, objects, ids, paths));
            }
        }
    }
}

/// The directory is one of a transaction, and has not been touched for this many minutes.
pub open spec fn is_due(dir: TxDir, minutes: u64) -> bool {
    &&& dir.is_dir
    &&& dir.name@ != "STAGED"@ && dir.name@ != "PUBLISHED"@
    &&& dir.age_secs matches Some(age) && age >= minutes * 60
}

/// Some directory with this name is due.
pub open spec fn some_due(dirs: Seq<TxDir>, name: Seq<char>, minutes: u64) -> bool {
    exists|i: int|
        0 <= i < dirs.len() && (#[trigger] dirs[i]).name@ == name && is_due(dirs[i], minutes)
}

proof fn lemma_dir_is_listed(dirs: Seq<TxDir>, i: int) -> (j: int)
    requires
        0 <= i < dirs.len(),
        is_tx_dir(dirs[i]@),
    ensures
        0 <= j < tx_dirs(dirs).len(),
        tx_dirs(dirs)[j] == dirs[i]@,
    decreases dirs.len(),
{
    let q = dirs.drop_last();
    if i < q.len() {
        assert(q[i] == dirs[i]);
        lemma_dir_is_listed(q, i)
    } else {
        tx_dirs(dirs).len() - 1
    }
}

proof fn lemma_is_removed(dirs: Seq<TxDirView>, calls: Seq<RemoteCall>, cutoff: nat, j: int)
    requires
        0 <= j < calls.len(),
        calls.len() <= dirs.len(),
        exists_of(calls[j], published_marker(dirs[j].name)) == Some(Ok::<bool, Seq<char>>(false)),
        is_old(dirs[j], cutoff),
    ensures
        removable(dirs, calls, cutoff).contains(dirs[j].name),
    decreases calls.len(),
{
    let q = calls.drop_last();
    let all = removable(dirs, calls, cutoff);
    if j < q.len() {
        assert(q[j] == calls[j]);
        lemma_is_removed(dirs, q, cutoff, j);
        let before = removable(dirs, q, cutoff);
        let n = choose|n: int| 0 <= n < before.len() && before[n] == dirs[j].name;
        assert(all[n] == before[n]);
    } else {
        assert(all.last() == dirs[j].name);
    }
}

/// On a remote that works and can list, exactly those transactions go whose directory has
/// not been touched for that long, and which are not marked as published.
pub proof fn law_remote_tx_gc<S: RemoteStore>(
    s: &mut RemoteSession<S>,
    dirs: &Vec<TxDir>,
    minutes: u64,
    r: (Vec<String>, Result<(), Error>),
    w: Files,
    objects: Objects,
    name: Seq<char>,
)
    requires
        call_ensures(remote_tx_gc::<S>, (s, dirs, minutes), r),
        minutes * 60 <= u64::MAX,
        truthful(w, objects, new_calls(old(s).log(), final(s).log())),
    ensures
        ({
            let calls = new_calls(old(s).log(), final(s).log());
            &&& calls.len() >= 1
            &&& calls[0] matches RemoteCall::Capabilities { reply: caps } && {
                &&& !caps.supports_list_prefix ==> calls.len() == 1 && r.0@.len() == 0 && (
                r.1 matches Err(e) && e@ == "remote backend does not support transaction listing/gc"@)
                &&& caps.supports_list_prefix ==> {
                    &&& r.1 is Ok
                    &&& is_among(r.0@, name) <==> some_due(dirs@, name, minutes)
                        && !objects.contains_key("tx/PUBLISHED/"@ + name)
                }
            }
        }),
{
    let calls = new_calls(old(s).log(), final(s).log());
    let cutoff = (minutes * 60) as nat;
    let all = tx_dirs(dirs@);
    let asked = calls.skip(1);
    lemma_texts_among(r.0@, name);
    assert(texts(r.0@).len() == r.0@.len());
    if let RemoteCall::Capabilities { reply: caps } = calls[0] {
        if caps.supports_list_prefix {
            assert forall|k: int| 0 <= k < calls.len() implies only_looks(#[trigger] calls[k]) by {
                if k >= 1 {
                    assert(asked[k - 1] == calls[k]);
                }
            }
            lemma_looking_changes_nothing(w, objects, calls);
            if r.1 is Err {
                assert(asked.last() == calls[calls.len() - 1]);
                assert(truthful_reply(w, objects, calls[calls.len() - 1]));
            }
            if is_among(r.0@, name) {
                lemma_gc_spares_published(
                    dirs@,
                    cutoff,
                    calls,
                    texts(r.0@),
                    crate::error::told(r.1),
                    name,
                );
                let (i, k) = choose|i: int, k: int|
                    {
                        &&& 0 <= i < dirs@.len()
                        &&& 0 <= k < calls.len()
                        &&& (#[trigger] dirs@[i])@.name == name
                        &&& dirs@[i].is_dir
                        &&& is_old(dirs@[i]@, cutoff)
                        &&& exists_of(#[trigger] calls[k], published_marker(name)) == Some(
                            Ok::<bool, Seq<char>>(false),
                        )
                    };
                assert(is_due(dirs@[i], minutes));
                assert(truthful_reply(w, objects, calls[k]));
            }
            if some_due(dirs@, name, minutes) && !objects.contains_key("tx/PUBLISHED/"@ + name) {
                let i = choose|i: int|
                    0 <= i < dirs@.len() && (#[trigger] dirs@[i]).name@ == name && is_due(
                        dirs@[i],
                        minutes,
                    );
                let j = lemma_dir_is_listed(dirs@, i);
                assert(dir_names(all)[j] == name);
                assert(asked.len() == all.len());
                assert(exists_of(asked[j], published_marker(dir_names(all)[j])) is Some);
                assert(asked[j] == calls[j + 1]);
                assert(truthful_reply(w, objects, calls[j + 1]));
                lemma_is_removed(all, asked, cutoff, j);
            }
        }
    }
}

/// The line tells of this remote.
pub open spec fn tells_remote(line: Seq<char>, cfg: &EffectiveConfig, name: Seq<char>) -> bool {
    let remote = cfg.remotes@[name];
    let is_default = cfg.default_remote matches Some(d) && d@ == name;
    &&& is_default ==> line == "*"@ + name + "\t"@ + remote.kind@ + "\t"@ + remote.path@
    &&& !is_default ==> line == " "@ + name + "\t"@ + remote.kind@ + "\t"@ + remote.path@
}

/// The list of remotes has a line for every remote that is configured, with a star at the
/// default one, and no other line; they come in the order of the names.
pub proof fn law_remote_list(cfg: &EffectiveConfig, r: Vec<String>, name: Seq<char>)
    requires
        call_ensures(crate::commands::remotes::remote_list, (cfg,), r),
    ensures
        cfg.remotes@.contains_key(name) ==> exists|i: int|
            0 <= i < r@.len() && tells_remote((#[trigger] r@[i])@, cfg, name),
        exists|names: Seq<Seq<char>>|
            {
                &&& #[trigger] names.len() == r@.len()
                &&& forall|i: int|
                    0 <= i < names.len() ==> cfg.remotes@.contains_key(#[trigger] names[i])
                        && tells_remote(r@[i]@, cfg, names[i])
                &&& forall|i: int, j: int|
                    0 <= i < j < names.len() ==> comes_first(#[trigger] names[i], #[trigger] names[j])
            },
{
    let names = choose|names: Seq<Seq<char>>| #[trigger]
        lists_set(names, cfg.remotes@.dom()) && texts(r@) == remote_lines(*cfg, names);
    assert(texts(r@).len() == r@.len());
    assert forall|i: int| 0 <= i < names.len() implies cfg.remotes@.contains_key(#[trigger] names[i])
        && tells_remote(r@[i]@, cfg, names[i]) by {
        assert(names.contains(names[i]));
        assert(texts(r@)[i] == r@[i]@);
    }
    assert forall|i: int, j: int| 0 <= i < j < names.len() implies comes_first(
        #[trigger] names[i],
        #[trigger] names[j],
    ) by {
        lemma_lt_decides(names[i], names[j]);
    }
    if cfg.remotes@.contains_key(name) {
        assert(cfg.remotes@.dom().contains(name));
        assert(names.contains(name));
        let n = choose|n: int| 0 <= n < names.len() && names[n] == name;
        assert(tells_remote(r@[n]@, cfg, names[n]));
    }
    assert(names.len() == r@.len());
}

/// What a ref says on a remote: without white space around it, and nothing where it is gone.
pub open spec fn ref_says(r: Objects, path: Seq<char>, said: Seq<char>) -> bool {
    &&& r.contains_key(path) ==> said == trim_text(lossy_text(r[path]))
    &&& !r.contains_key(path) ==> said == trim_text(lossy_text(Seq::empty()))
}

/// The text `refs/`, so many times.
pub open spec fn refs_times(n: nat) -> Seq<char>
    decreases n,
{
    if n == 0 {
        Seq::empty()
    } else {
        "refs/"@ + refs_times((n - 1) as nat)
    }
}

proof fn lemma_without_refs(n: nat, name: Seq<char>)
    requires
        !"refs/"@.is_prefix_of(name),
    ensures
        without_all(refs_times(n) + name, "refs/"@) == name,
    decreases n,
{
    let p = "refs/"@;
    let s = refs_times(n) + name;
    reveal_strlit("refs/");
    if n == 0 {
        assert(s =~= name);
    } else {
        let rest = refs_times((n - 1) as nat) + name;
        assert(s =~= p + rest);
        lemma_prefix(s, p);
        assert(s.skip(p.len() as int) =~= rest);
        lemma_without_refs((n - 1) as nat, name);
    }
}

/// On a remote that works, every ref that it lists has a line, in the order of the listing:
/// its name, which is what stands behind `refs/`, however often that is there, and what it
/// says.
pub proof fn law_remote_refs<S: RemoteStore>(
    s: &mut RemoteSession<S>,
    r: Result<Vec<String>, Error>,
    w: Files,
    objects: Objects,
    i: int,
    times: nat,
    name: Seq<char>,
)
    requires
        call_ensures(remote_refs::<S>, (s,), r),
        truthful(w, objects, new_calls(old(s).log(), final(s).log())),
    ensures
        ({
            let calls = new_calls(old(s).log(), final(s).log());
            &&& calls.len() >= 1
            &&& calls[0] matches RemoteCall::List { prefix, reply } && prefix == "refs"@
                && match reply {
                Err(e) => r matches Err(why) && why@ == e,
                Ok(paths) => r matches Ok(lines) && {
                    &&& lines@.len() == paths.len()
                    &&& 0 <= i < paths.len() && paths[i] == refs_times(times) + name
                        && !"refs/"@.is_prefix_of(name) ==> exists|said: Seq<char>|
                        lines@[i]@ == #[trigger] (name + "\t"@ + said) && ref_says(
                            objects,
                            paths[i],
                            said,
                        )
                },
            }
        }),
{
    let calls = new_calls(old(s).log(), final(s).log());
    let reads = calls.skip(1);
    let outcome = crate::commands::upkeep::told_texts(r);
    if calls[0] matches RemoteCall::List { reply: Ok(_), .. } {
        let paths = calls[0]->List_reply->Ok_0;
        assert forall|k: int| 0 <= k < calls.len() implies only_looks(#[trigger] calls[k]) by {
            if k >= 1 {
                assert(reads[k - 1] == calls[k]);
            }
        }
        lemma_looking_changes_nothing(w, objects, calls);
        if outcome is Err {
            assert(reads.last() == calls[calls.len() - 1]);
            assert(truthful_reply(w, objects, calls[calls.len() - 1]));
        } else {
            let lines = r->Ok_0@;
            assert(texts(lines).len() == lines.len());
            if 0 <= i < paths.len() && paths[i] == refs_times(times) + name
                && !"refs/"@.is_prefix_of(name) {
                assert(texts(lines)[i] == lines[i]@);
                assert(reads[i] == calls[i + 1]);
                assert(truthful_reply(w, objects, calls[i + 1]));
                lemma_without_refs(times, name);
                let said = crate::commands::remotes::said_by_ref(
                    if objects.contains_key(paths[i]) {
                        Some(objects[paths[i]])
                    } else {
                        None
                    },
                );
                assert(lines[i]@ == name + "\t"@ + said);
            }
        }
    }
}

} // verus!
