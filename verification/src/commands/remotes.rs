//! What is told of remotes: those that are configured, and the refs of one.

use vstd::prelude::*;

use crate::commands::upkeep::told_texts;
use crate::config::{EffectiveConfig, RemoteConfig};
use crate::error::Error;
use crate::keyed::lists_set;
use crate::remote::{lemma_log_grows, new_calls, RemoteCall, RemoteSession, RemoteStore};
use crate::sync::transfer::read_of;
use crate::text::{lossy_text, read_text, same_text, texts, trim_text, trimmed, without_prefix};

verus! {

/// The line for a remote. The default one is marked.
pub open spec fn remote_line(name: Seq<char>, remote: RemoteConfig, is_default: bool) -> Seq<char> {
    (if is_default {
        "*"@
    } else {
        " "@
    }) + name + "\t"@ + remote.kind@ + "\t"@ + remote.path@
}

/// The lines for remotes, in the order of their names.
pub open spec fn remote_lines(cfg: EffectiveConfig, names: Seq<Seq<char>>) -> Seq<Seq<char>> {
    names.map_values(
        |n: Seq<char>|
            remote_line(n, cfg.remotes@[n], cfg.default_remote.deep_view() == Some(n)),
    )
}

/// What is told of the remotes that are configured, by name.
pub fn remote_list(cfg: &EffectiveConfig) -> (r: Vec<String>)
    ensures
        exists|names: Seq<Seq<char>>| #[trigger]
            lists_set(names, cfg.remotes@.dom()) && texts(r@) == remote_lines(*cfg, names),
{
    let names = cfg.remotes.keys();
    let ghost all = texts(names@);
    let ghost lines = remote_lines(*cfg, all);
    let mut out: Vec<String> = Vec::new();
    let mut i: usize = 0;
    while i < names.len()
        invariant
            i <= names@.len(),
            all == texts(names@),
            lists_set(all, cfg.remotes@.dom()),
            lines == remote_lines(*cfg, all),
            texts(out@) == lines.take(i as int),
        decreases names@.len() - i,
    {
        let ghost n = names@[i as int]@;
        proof {
            assert(all[i as int] == n);
            assert(all.contains(n));
        }
        if let Some(remote) = cfg.remotes.get(names[i].as_str()) {
            let is_default = match &cfg.default_remote {
                Some(d) => same_text(d.as_str(), names[i].as_str()),
                None => false,
            };
            let mut line = if is_default {
                "*".to_owned()
            } else {
                " ".to_owned()
            };
            line.append(names[i].as_str());
            line.append("\t");
            line.append(remote.kind.as_str());
            line.append("\t");
            line.append(remote.path.as_str());
            proof {
                assert(lines.take(i + 1) =~= lines.take(i as int).push(lines[i as int]));
            }
            out.push(line);
        }
        i += 1;
    }
    out
}

/// The text without the prefix, however often that stands there.
pub open spec fn without_all(s: Seq<char>, prefix: Seq<char>) -> Seq<char>
    decreases s.len(),
{
    if prefix.len() > 0 && prefix.is_prefix_of(s) {
        without_all(s.skip(prefix.len() as int), prefix)
    } else {
        s
    }
}

/// The name of a ref.
fn ref_name(path: &str) -> (r: String)
    ensures
        r@ == without_all(path@, "refs/"@),
{
    proof {
        reveal_strlit("refs/");
    }
    let mut rest = path.to_owned();
    loop
        invariant_except_break
            without_all(rest@, "refs/"@) == without_all(path@, "refs/"@),
            "refs/"@.len() == 5,
        ensures
            rest@ == without_all(path@, "refs/"@),
        decreases rest@.len(),
    {
        match without_prefix(rest.as_str(), "refs/") {
            Some(shorter) => {
                rest = shorter;
            },
            None => {
                break ;
            },
        }
    }
    rest
}

/// What the reply to reading a ref says: nothing where there is none.
pub open spec fn said_by_ref(reply: Option<Seq<u8>>) -> Seq<char> {
    match reply {
        Some(bytes) => trim_text(lossy_text(bytes)),
        None => trim_text(lossy_text(Seq::empty())),
    }
}

/// The line for a ref.
pub open spec fn ref_line(path: Seq<char>, call: RemoteCall) -> Seq<char> {
    without_all(path, "refs/"@) + "\t"@ + match read_of(call, path) {
        Some(Ok(reply)) => said_by_ref(reply),
        _ => Seq::empty(),
    }
}

/// The call is a read, and it succeeded.
pub open spec fn read_succeeded(call: RemoteCall) -> bool {
    call matches RemoteCall::Read { reply, .. } && reply is Ok
}

/// The calls read the refs in turn, up to the first failure.
pub open spec fn refs_read(
    paths: Seq<Seq<char>>,
    calls: Seq<RemoteCall>,
    outcome: Result<Seq<Seq<char>>, Seq<char>>,
) -> bool {
    &&& calls.len() <= paths.len()
    &&& forall|i: int| 0 <= i < calls.len() ==> read_of(#[trigger] calls[i], paths[i]) is Some
    &&& match outcome {
        Ok(lines) => {
            &&& calls.len() == paths.len()
            &&& forall|i: int| 0 <= i < calls.len() ==> read_succeeded(#[trigger] calls[i])
            &&& lines == Seq::new(paths.len(), |i: int| ref_line(paths[i], calls[i]))
        },
        Err(e) => {
            &&& calls.len() > 0
            &&& calls.last() matches RemoteCall::Read { reply, .. }
            &&& reply == Err::<Option<Seq<u8>>, Seq<char>>(e)
            &&& forall|i: int| 0 <= i < calls.len() - 1 ==> read_succeeded(#[trigger] calls[i])
        },
    }
}

/// The calls list the refs of a remote and read each.
pub open spec fn refs_listed(
    calls: Seq<RemoteCall>,
    outcome: Result<Seq<Seq<char>>, Seq<char>>,
) -> bool {
    &&& calls.len() >= 1
    &&& calls[0] matches RemoteCall::List { prefix, reply }
    &&& prefix == "refs"@
    &&& match reply {
        Err(e) => calls.len() == 1 && outcome == Err::<Seq<Seq<char>>, Seq<char>>(e),
        Ok(paths) => refs_read(paths, calls.skip(1), outcome),
    }
}

fn read_refs<S: RemoteStore>(store: &mut RemoteSession<S>, paths: &Vec<String>) -> (r: Result<
    Vec<String>,
    Error,
>)
    ensures
        final(store).continues(old(store)),
        old(store).log().is_prefix_of(final(store).log()),
        refs_read(
            texts(paths@),
            new_calls(old(store).log(), final(store).log()),
            told_texts(r),
        ),
{
    let ghost log0 = store.log();
    let ghost all = texts(paths@);
    let mut out: Vec<String> = Vec::new();
    let mut i: usize = 0;
    while i < paths.len()
        invariant
            i <= paths@.len(),
            all == texts(paths@),
            log0 == old(store).log(),
            store.continues(old(store)),
            log0.is_prefix_of(store.log()),
            store.log().len() == log0.len() + i,
            out@.len() == i,
            forall|j: int|
                #![trigger new_calls(log0, store.log())[j]]
                0 <= j < i ==> read_of(new_calls(log0, store.log())[j], all[j]) is Some
                    && read_succeeded(new_calls(log0, store.log())[j]) && out@[j]@ == ref_line(
                    all[j],
                    new_calls(log0, store.log())[j],
                ),
        decreases paths@.len() - i,
    {
        let ghost before = new_calls(log0, store.log());
        let reply = store.read_bytes(paths[i].as_str());
        let ghost after = new_calls(log0, store.log());
        proof {
            assert(after =~= before.push(store.log().last()));
        }
        let content: Vec<u8> = match reply {
            Err(e) => return Err(e),
            Ok(Some(bytes)) => bytes,
            Ok(None) => Vec::new(),
        };
        let sha = trimmed(read_text(content.as_slice()).as_str());
        let mut line = ref_name(paths[i].as_str());
        line.append("\t");
        line.append(sha.as_str());
        out.push(line);
        i += 1;
    }
    proof {
        let calls = new_calls(log0, store.log());
        assert(texts(out@) =~= Seq::new(all.len(), |j: int| ref_line(all[j], calls[j])));
    }
    Ok(out)
}

/// What is told of the refs of a remote.
pub fn remote_refs<S: RemoteStore>(store: &mut RemoteSession<S>) -> (r: Result<Vec<String>, Error>)
    ensures
        final(store).continues(old(store)),
        old(store).log().is_prefix_of(final(store).log()),
        refs_listed(new_calls(old(store).log(), final(store).log()), told_texts(r)),
{
    let ghost log0 = store.log();
    let listed = store.list_prefix("refs");
    let ghost log1 = store.log();
    let paths = match listed {
        Err(e) => return Err(e),
        Ok(v) => v,
    };
    let r = read_refs(store, &paths);
    proof {
        lemma_log_grows(log0, log1, store.log());
        let calls = new_calls(log0, store.log());
        assert(calls.skip(1) =~= new_calls(log1, store.log()));
    }
    r
}

} // verus!
