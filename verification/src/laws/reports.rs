//! Laws of what is told: the state of a repository, its health, its manifests, and what git
//! said.

use vstd::prelude::*;

use crate::cli::repo::GitOutput;
use crate::cli::sync::{
    copies, copy_missing_recursive, in_known_dir, missing_bytes, pair_views, Found,
};
use crate::commands::naming::is_representative;
use crate::commands::reports::{
    by_size, complaint, debug_cas_tree, default_remote_dir, doctor, findings, manifest_head,
    manifest_list, manifest_show, manifest_verify, of_size, remote_complaints, row_line, row_views,
    rows_by_sha, setup_complaints, shown, shown_line, status, status_lines, sum, version,
    DoctorFacts, DoctorReport, RemoteFacts, StatusFacts,
};
use crate::commands::setup::{validate_minimal_plan, Validation};
use crate::commands::track::has_tracked_patterns;
use crate::config::EffectiveConfig;
use crate::error::Error;
use crate::laws::repository::{lemma_speaks_for_all, speaks_for_all};
use crate::laws::store::is_among;
use crate::laws::text::{comes_first, lemma_lt_decides};
use crate::order::lemma_order_keeps_count;
use crate::paths::join;
use crate::pointers::{pointer_views, PointerIndex};
use crate::repo::{push_line, resolve_path, run_git};
use crate::sync::manifest::{load_hash_cache, missing_inputs, HashCache, Manifest, ManifestEntry};
use crate::sync::transfer::SyncSummary;
use crate::text::{decimal, joined, lossy_text, text_le, texts, trim_text};

verus! {

/// Numbers, added up from the front.
pub open spec fn added_up(s: Seq<u64>) -> nat
    decreases s.len(),
{
    if s.len() == 0 {
        0
    } else {
        s[0] as nat + added_up(s.skip(1))
    }
}

proof fn lemma_added_up(s: Seq<u64>)
    ensures
        added_up(s) == sum(s),
    decreases s.len(),
{
    if s.len() > 0 {
        let rest = s.skip(1);
        lemma_added_up(rest);
        if s.len() == 1 {
            assert(s.drop_last() =~= Seq::<u64>::empty());
            assert(rest =~= Seq::<u64>::empty());
        } else {
            let q = s.drop_last();
            lemma_added_up(q);
            assert(q.skip(1) =~= rest.drop_last());
            assert(q[0] == s[0]);
            lemma_added_up(q.skip(1));
            assert(rest.last() == s.last());
        }
    }
}

proof fn lemma_lines(v: Seq<String>, lines: Seq<Seq<char>>)
    requires
        texts(v) == lines,
    ensures
        v.len() == lines.len(),
        forall|i: int| 0 <= i < v.len() ==> (#[trigger] v[i])@ == lines[i],
{
    assert(texts(v).len() == v.len());
    assert forall|i: int| 0 <= i < v.len() implies (#[trigger] v[i])@ == lines[i] by {
        assert(texts(v)[i] == v[i]@);
    }
}

/// The text, or what is said where there is none.
pub open spec fn or_else(t: Option<String>, other: Seq<char>) -> Seq<char> {
    match t {
        Some(s) => s@,
        None => other,
    }
}

/// What `status` tells, line by line.
pub proof fn law_status(f: &StatusFacts, r: Vec<String>)
    requires
        call_ensures(status, (f,), r),
        added_up(f.cas_sizes@) <= u64::MAX,
    ensures
        r@.len() == 9,
        r@[0]@ == "repo_root: "@ + f.repo_root@,
        r@[1]@ == "repo_id: "@ + or_else(f.repo_id, "<missing>"@),
        r@[2]@ == "shared_config: "@ + join(f.repo_root@, ".xet_ai.toml"@),
        r@[3]@ == "local_config: "@ + join(join(f.repo_root@, ".xet_ai"@), "config.local.toml"@),
        r@[4]@ == "default_remote: "@ + or_else(f.default_remote, "<none>"@),
        f.last_head matches Some(head) ==> r@[5]@ == "last_pushed_sha: "@ + trim_text(head@),
        f.last_head is None ==> r@[5]@ == "last_pushed_sha: <none>"@,
        f.cas_exists ==> r@[6]@ == "cas_exists: true"@,
        !f.cas_exists ==> r@[6]@ == "cas_exists: false"@,
        r@[7]@ == "cas_bytes_approx: "@ + decimal(added_up(f.cas_sizes@)),
        f.head_pointer_cached ==> r@[8]@ == "head_pointer_cached: true"@,
        !f.head_pointer_cached ==> r@[8]@ == "head_pointer_cached: false"@,
{
    lemma_added_up(f.cas_sizes@);
    lemma_lines(r@, status_lines(*f));
    reveal_strlit("last_pushed_sha: ");
    reveal_strlit("<none>");
    reveal_strlit("last_pushed_sha: <none>");
    reveal_strlit("cas_exists: ");
    reveal_strlit("cas_exists: true");
    reveal_strlit("cas_exists: false");
    reveal_strlit("head_pointer_cached: ");
    reveal_strlit("head_pointer_cached: true");
    reveal_strlit("head_pointer_cached: false");
    reveal_strlit("true");
    reveal_strlit("false");
    let k0 = r@[0];
    let k1 = r@[1];
    let k2 = r@[2];
    let k3 = r@[3];
    let k4 = r@[4];
    let k5 = r@[5];
    let k6 = r@[6];
    let k7 = r@[7];
    let k8 = r@[8];
    if f.last_head is None {
        assert(r@[5]@ =~= "last_pushed_sha: <none>"@);
    }
    if f.cas_exists {
        assert(r@[6]@ =~= "cas_exists: true"@);
    } else {
        assert(r@[6]@ =~= "cas_exists: false"@);
    }
    if f.head_pointer_cached {
        assert(r@[8]@ =~= "head_pointer_cached: true"@);
    } else {
        assert(r@[8]@ =~= "head_pointer_cached: false"@);
    }
}

/// The directory of the default remote is told exactly if there is a default remote, it is
/// configured, and it is one on a file system; it is the one that the remote names.
pub proof fn law_default_remote_dir(
    root: &str,
    cfg: &EffectiveConfig,
    r: Option<String>,
    path: &str,
    resolved: String,
)
    requires
        call_ensures(default_remote_dir, (root, cfg), r),
        cfg.default_remote matches Some(name) && cfg.remotes@.contains_key(name@) ==> path@
            == cfg.remotes@[cfg.default_remote->0@].path@,
        call_ensures(resolve_path, (root, path), resolved),
    ensures
        r is Some <==> (cfg.default_remote matches Some(name) && cfg.remotes@.contains_key(name@)
            && cfg.remotes@[name@].kind@ == "filesystem"@),
        r matches Some(dir) ==> dir@ == resolved@,
{
}

/// One, where it holds.
pub open spec fn one_if(b: bool) -> nat {
    if b {
        1
    } else {
        0
    }
}

proof fn lemma_in_either(a: Seq<Seq<char>>, b: Seq<Seq<char>>, t: Seq<char>)
    requires
        a.contains(t) || b.contains(t),
    ensures
        (a + b).contains(t),
{
    if a.contains(t) {
        let n = choose|n: int| 0 <= n < a.len() && a[n] == t;
        assert((a + b)[n] == t);
    } else {
        let n = choose|n: int| 0 <= n < b.len() && b[n] == t;
        assert((a + b)[n + a.len()] == t);
    }
}

proof fn lemma_setup_complaints(f: DoctorFacts, tracks: bool)
    requires
        tracks == crate::commands::track::tracks_files(f.attributes@),
    ensures
        ({
            let c = setup_complaints(f);
            &&& c.len() == one_if(!f.clean_set) + one_if(!f.smudge_set) + one_if(!f.required_set)
                + one_if(!tracks) + one_if(!f.has_repo_id) + one_if(
                f.has_repo_id && !f.repo_id_tracked,
            )
            &&& !f.clean_set ==> c.contains("xet-ai: missing git filter.clean"@)
            &&& !f.smudge_set ==> c.contains("xet-ai: missing git filter.smudge"@)
            &&& !f.required_set ==> c.contains("xet-ai: missing git filter.required"@)
            &&& !tracks ==> c.contains("xet-ai: no tracked patterns in .gitattributes"@)
            &&& !f.has_repo_id ==> c.contains("xet-ai: missing .xet_ai_repo_id"@)
            &&& f.has_repo_id && !f.repo_id_tracked ==> c.contains(
                "xet-ai: not tracked in git: .xet_ai_repo_id"@,
            )
        }),
{
    reveal_strlit("xet-ai: missing ");
    reveal_strlit(".xet_ai_repo_id");
    reveal_strlit("xet-ai: missing .xet_ai_repo_id");
    reveal_strlit("xet-ai: not tracked in git: ");
    reveal_strlit("xet-ai: not tracked in git: .xet_ai_repo_id");
    let t5 = "xet-ai: missing "@ + ".xet_ai_repo_id"@;
    let t6 = "xet-ai: not tracked in git: "@ + ".xet_ai_repo_id"@;
    assert(t5 =~= "xet-ai: missing .xet_ai_repo_id"@);
    assert(t6 =~= "xet-ai: not tracked in git: .xet_ai_repo_id"@);
    let a1 = complaint(!f.clean_set, "xet-ai: missing git filter.clean"@);
    let a2 = complaint(!f.smudge_set, "xet-ai: missing git filter.smudge"@);
    let a3 = complaint(!f.required_set, "xet-ai: missing git filter.required"@);
    let a4 = complaint(!tracks, "xet-ai: no tracked patterns in .gitattributes"@);
    let a5 = complaint(!f.has_repo_id, t5);
    let a6 = complaint(f.has_repo_id && !f.repo_id_tracked, t6);
    let c = setup_complaints(f);
    assert(c == a1 + a2 + a3 + a4 + a5 + a6);
    if !f.clean_set {
        assert(c[0] == "xet-ai: missing git filter.clean"@);
    }
    if !f.smudge_set {
        assert(c[a1.len() as int] == "xet-ai: missing git filter.smudge"@);
    }
    if !f.required_set {
        assert(c[(a1 + a2).len() as int] == "xet-ai: missing git filter.required"@);
    }
    if !tracks {
        assert(c[(a1 + a2 + a3).len() as int] == "xet-ai: no tracked patterns in .gitattributes"@);
    }
    if !f.has_repo_id {
        assert(c[(a1 + a2 + a3 + a4).len() as int] == t5);
    }
    if f.has_repo_id && !f.repo_id_tracked {
        assert(c[(a1 + a2 + a3 + a4 + a5).len() as int] == t6);
    }
}

proof fn lemma_among_texts(list: Seq<String>, t: Seq<char>)
    requires
        texts(list).contains(t),
    ensures
        is_among(list, t),
{
    let n = choose|n: int| 0 <= n < texts(list).len() && texts(list)[n] == t;
    assert(list[n]@ == t);
}

/// What `doctor` complains about: there is a complaint for everything that is wrong, and there
/// are no others.
pub proof fn law_doctor_complains(
    f: &DoctorFacts,
    r: DoctorReport,
    attributes: &str,
    tracks: bool,
)
    requires
        call_ensures(doctor, (f,), r),
        attributes@ == f.attributes@,
        call_ensures(has_tracked_patterns, (attributes,), tracks),
    ensures
        ({
            let c = r.complaints@;
            let of_setup = one_if(!f.clean_set) + one_if(!f.smudge_set) + one_if(!f.required_set)
                + one_if(!tracks) + one_if(!f.has_repo_id) + one_if(
                f.has_repo_id && !f.repo_id_tracked,
            );
            &&& !f.clean_set ==> is_among(c, "xet-ai: missing git filter.clean"@)
            &&& !f.smudge_set ==> is_among(c, "xet-ai: missing git filter.smudge"@)
            &&& !f.required_set ==> is_among(c, "xet-ai: missing git filter.required"@)
            &&& !tracks ==> is_among(c, "xet-ai: no tracked patterns in .gitattributes"@)
            &&& !f.has_repo_id ==> is_among(c, "xet-ai: missing .xet_ai_repo_id"@)
            &&& f.has_repo_id && !f.repo_id_tracked ==> is_among(
                c,
                "xet-ai: not tracked in git: .xet_ai_repo_id"@,
            )
            &&& f.configured is Err ==> c.len() == of_setup
            &&& f.configured matches Ok(m) ==> {
                &&& c.len() == of_setup + one_if(m.default_remote is None) + one_if(
                    m.dir is Some && !m.reachable,
                ) + one_if(!m.cas_accessible)
                &&& m.default_remote is None ==> is_among(c, "xet-ai: no default remote set"@)
                &&& m.dir is Some && !m.reachable ==> is_among(
                    c,
                    "xet-ai: default remote path not reachable: "@ + m.dir->0@,
                )
                &&& !m.cas_accessible ==> is_among(
                    c,
                    "xet-ai: cannot access local CAS root "@ + m.cas_root@,
                )
            }
        }),
{
    let c = r.complaints@;
    let a = setup_complaints(*f);
    let b = match f.configured {
        Ok(m) => remote_complaints(m),
        Err(_) => Seq::empty(),
    };
    lemma_setup_complaints(*f, tracks);
    assert(texts(c) =~= a + b);
    assert(texts(c).len() == c.len());
    if !f.clean_set {
        lemma_said_in(c, a, b, "xet-ai: missing git filter.clean"@);
    }
    if !f.smudge_set {
        lemma_said_in(c, a, b, "xet-ai: missing git filter.smudge"@);
    }
    if !f.required_set {
        lemma_said_in(c, a, b, "xet-ai: missing git filter.required"@);
    }
    if !tracks {
        lemma_said_in(c, a, b, "xet-ai: no tracked patterns in .gitattributes"@);
    }
    if !f.has_repo_id {
        lemma_said_in(c, a, b, "xet-ai: missing .xet_ai_repo_id"@);
    }
    if f.has_repo_id && !f.repo_id_tracked {
        lemma_said_in(c, a, b, "xet-ai: not tracked in git: .xet_ai_repo_id"@);
    }
    if let Ok(m) = f.configured {
        lemma_remote_complaints(m);
        if m.default_remote is None {
            lemma_said_in(c, a, b, "xet-ai: no default remote set"@);
        }
        if m.dir is Some && !m.reachable {
            lemma_said_in(c, a, b, "xet-ai: default remote path not reachable: "@ + m.dir->0@);
        }
        if !m.cas_accessible {
            lemma_said_in(c, a, b, "xet-ai: cannot access local CAS root "@ + m.cas_root@);
        }
    }
}

proof fn lemma_said_in(c: Seq<String>, a: Seq<Seq<char>>, b: Seq<Seq<char>>, t: Seq<char>)
    requires
        texts(c) == a + b,
        a.contains(t) || b.contains(t),
    ensures
        is_among(c, t),
{
    lemma_in_either(a, b, t);
    lemma_among_texts(c, t);
}

proof fn lemma_remote_complaints(m: RemoteFacts)
    ensures
        ({
            let c = remote_complaints(m);
            &&& c.len() == one_if(m.default_remote is None) + one_if(m.dir is Some && !m.reachable)
                + one_if(!m.cas_accessible)
            &&& m.default_remote is None ==> c.contains("xet-ai: no default remote set"@)
            &&& m.dir is Some && !m.reachable ==> c.contains(
                "xet-ai: default remote path not reachable: "@ + m.dir->0@,
            )
            &&& !m.cas_accessible ==> c.contains(
                "xet-ai: cannot access local CAS root "@ + m.cas_root@,
            )
        }),
{
    let c = remote_complaints(m);
    let b1 = complaint(m.default_remote is None, "xet-ai: no default remote set"@);
    let dir = crate::commands::reports::given_or(m.dir.deep_view(), ""@);
    let t2 = "xet-ai: default remote path not reachable: "@ + dir;
    let b2 = complaint(m.dir is Some && !m.reachable, t2);
    let t3 = "xet-ai: cannot access local CAS root "@ + m.cas_root@;
    let b3 = complaint(!m.cas_accessible, t3);
    assert(c == b1 + b2 + b3);
    if m.default_remote is None {
        assert(c[0] == "xet-ai: no default remote set"@);
    }
    if m.dir is Some && !m.reachable {
        assert(c[b1.len() as int] == t2);
    }
    if !m.cas_accessible {
        assert(c[(b1 + b2).len() as int] == t3);
    }
}

/// What `doctor` finds: the shared configuration, and where the configuration can be read, the
/// default remote and the size of the content store. All is well exactly if nothing is
/// missing that is needed: the filters, the identity, a reachable remote and the store.
pub proof fn law_doctor_finds(f: &DoctorFacts, r: DoctorReport)
    requires
        call_ensures(doctor, (f,), r),
    ensures
        ({
            let c = r.findings@;
            &&& c.len() == if f.configured is Ok {
                3
            } else {
                1int
            }
            &&& f.has_shared_config ==> c[0]@ == "shared_config: "@ + join(
                f.repo_root@,
                ".xet_ai.toml"@,
            ) + " (present)"@
            &&& !f.has_shared_config ==> c[0]@ == "shared_config: "@ + join(
                f.repo_root@,
                ".xet_ai.toml"@,
            ) + " (missing)"@
            &&& f.configured matches Ok(m) ==> {
                &&& c[1]@ == "default_remote: "@ + or_else(m.default_remote, "<none>"@)
                &&& added_up(m.cas_sizes@) <= u64::MAX ==> c[2]@ == "cas: "@ + decimal(
                    m.cas_sizes@.len(),
                ) + " files, "@ + decimal(added_up(m.cas_sizes@)) + " bytes"@
                &&& added_up(m.cas_sizes@) > u64::MAX ==> c[2]@ == "cas: "@ + decimal(
                    m.cas_sizes@.len(),
                ) + " files, "@ + decimal(u64::MAX as nat) + " bytes"@
            }
        }),
        f.configured matches Err(e) ==> (r.verdict matches Err(why) && why@ == e@),
        f.configured matches Ok(m) ==> if f.clean_set && f.smudge_set && f.required_set
            && f.has_repo_id && (m.dir is None || m.reachable) && m.cas_accessible {
            r.verdict matches Ok(said) && said@ == "doctor: OK"@
        } else {
            r.verdict matches Err(why) && why@ == "doctor found critical issues"@
        },
{
    lemma_lines(r.findings@, findings(*f));
    let k0 = r.findings@[0];
    if let Ok(m) = f.configured {
        lemma_added_up(m.cas_sizes@);
        let k1 = r.findings@[1];
        let k2 = r.findings@[2];
    }
}

/// What `version` tells.
pub proof fn law_version(number: &str, build_commit: &Option<String>, r: Vec<String>)
    requires
        call_ensures(version, (number, build_commit), r),
    ensures
        r@.len() == 3,
        r@[0]@ == "xet-ai "@ + number@,
        r@[1]@ == "build_commit: "@ + or_else(*build_commit, "unknown"@),
        r@[2]@ == "xet_core_rev: a7661a7e63626466561e88e63113001a193a36ee"@,
{
    lemma_lines(
        r@,
        seq![
            "xet-ai "@ + number@,
            "build_commit: "@ + or_else(*build_commit, "unknown"@),
            "xet_core_rev: a7661a7e63626466561e88e63113001a193a36ee"@,
        ],
    );
    let k0 = r@[0];
    let k1 = r@[1];
    let k2 = r@[2];
}

/// What is told of the directories of a content store: each, and whether it takes part.
pub proof fn law_debug_cas_tree(dirs: &Vec<(String, bool)>, r: Vec<String>, i: int)
    requires
        call_ensures(debug_cas_tree, (dirs,), r),
    ensures
        r@.len() == dirs@.len(),
        0 <= i < dirs@.len() && dirs@[i].1 ==> r@[i]@ == "include\t"@ + dirs@[i].0@,
        0 <= i < dirs@.len() && !dirs@[i].1 ==> r@[i]@ == "exclude\t"@ + dirs@[i].0@,
{
    reveal_strlit("include");
    reveal_strlit("exclude");
    reveal_strlit("\t");
    reveal_strlit("include\t");
    reveal_strlit("exclude\t");
    if 0 <= i < dirs@.len() {
        let k = r@[i];
        if dirs@[i].1 {
            assert(r@[i]@ =~= "include\t"@ + dirs@[i].0@);
        } else {
            assert(r@[i]@ =~= "exclude\t"@ + dirs@[i].0@);
        }
    }
}

/// The rows, in the order of their commits, each as often as it is there.
pub open spec fn in_commit_order(
    rows: Seq<(String, (u64, u64))>,
    order: Seq<(Seq<char>, (u64, u64))>,
) -> bool {
    &&& order.to_multiset() == rows.map_values(
        |p: (String, (u64, u64))| (p.0@, p.1),
    ).to_multiset()
    &&& order.len() == rows.len()
    &&& forall|i: int, j: int|
        0 <= i < j < order.len() ==> !comes_first((#[trigger] order[j]).0, (#[trigger] order[i]).0)
}

/// The list of manifests has a line for each that is cached, in the order of their commits,
/// and no other; without a cache it says so.
pub proof fn law_manifest_list(rows: Option<Vec<(String, (u64, u64))>>, r: Vec<String>)
    requires
        call_ensures(manifest_list, (rows,), r),
    ensures
        rows is None ==> r@.len() == 1 && r@[0]@ == "no manifests cached"@,
        rows matches Some(v) ==> r@.len() == v@.len() && exists|
            order: Seq<(Seq<char>, (u64, u64))>,
        | #[trigger]
            in_commit_order(v@, order) && forall|i: int|
                0 <= i < r@.len() ==> (#[trigger] r@[i])@ == order[i].0 + "\tentries="@ + decimal(
                    order[i].1.0 as nat,
                ) + "\ttotal_bytes="@ + decimal(order[i].1.1 as nat),
{
    match rows {
        None => {
            lemma_lines(r@, seq!["no manifests cached"@]);
            let k = r@[0];
        },
        Some(v) => {
            let seen = row_views(v@);
            let order = choose|order: Seq<(Seq<char>, (u64, u64))>|
                {
                    &&& #[trigger] rows_by_sha(seen, order)
                    &&& texts(r@) == order.map_values(|p: (Seq<char>, (u64, u64))| row_line(p))
                };
            let key = |p: (Seq<char>, (u64, u64))| p.0;
            lemma_lines(r@, order.map_values(|p: (Seq<char>, (u64, u64))| row_line(p)));
            lemma_order_keeps_count(seen, order, key);
            assert(seen =~= v@.map_values(|p: (String, (u64, u64))| (p.0@, p.1)));
            assert forall|i: int, j: int| 0 <= i < j < order.len() implies !comes_first(
                (#[trigger] order[j]).0,
                (#[trigger] order[i]).0,
            ) by {
                assert(text_le(key(order[i]), key(order[j])));
                lemma_lt_decides(order[j].0, order[i].0);
            }
            assert forall|i: int| 0 <= i < r@.len() implies (#[trigger] r@[i])@ == row_line(
                order[i],
            ) by {}
            assert(in_commit_order(v@, order));
        },
    }
}

proof fn lemma_count_of_size(s: Seq<ManifestEntry>, x: ManifestEntry)
    ensures
        s.to_multiset().count(x) == of_size(s, x.size).to_multiset().count(x),
    decreases s.len(),
{
    broadcast use vstd::seq_lib::group_to_multiset_ensures;

    reveal(Seq::filter);
    if s.len() > 0 {
        let p = s.drop_last();
        lemma_count_of_size(p, x);
        assert(s =~= p.push(s.last()));
        assert(of_size(s, x.size) == if s.last().size == x.size {
            of_size(p, x.size).push(s.last())
        } else {
            of_size(p, x.size)
        });
    } else {
        assert(s =~= Seq::<ManifestEntry>::empty());
        assert(of_size(s, x.size) =~= Seq::<ManifestEntry>::empty());
    }
}

/// The line shows the entry.
pub open spec fn shows_entry(line: Seq<char>, e: ManifestEntry) -> bool {
    line == decimal(e.size as nat) + "\t"@ + e.sha256@ + "\t"@ + e.relpath@
}

/// The entries come in this order, the largest first.
pub open spec fn largest_first(entries: Seq<ManifestEntry>, order: Seq<ManifestEntry>) -> bool {
    &&& order.to_multiset() == entries.to_multiset()
    &&& order.len() == entries.len()
    &&& forall|i: int, j: int|
        0 <= i < j < order.len() ==> (#[trigger] order[i]).size >= (#[trigger] order[j]).size
}

/// What is shown of a manifest: what it is of, how much it lists, and its twenty largest
/// entries, or all where there are no more, the largest first.
pub proof fn law_manifest_show(manifest: &Manifest, r: Vec<String>)
    requires
        call_ensures(manifest_show, (manifest,), r),
    ensures
        ({
            let n = manifest.entries@.len();
            let count = if n <= 20 {
                n
            } else {
                20
            };
            &&& r@.len() == 4 + count
            &&& r@[0]@ == "repo_id: "@ + manifest.repo_id@
            &&& r@[1]@ == "git_sha: "@ + manifest.git_sha@
            &&& r@[2]@ == "entries: "@ + decimal(n)
            &&& r@[3]@ == "total_bytes: "@ + decimal(manifest.total_bytes as nat)
            &&& exists|order: Seq<ManifestEntry>|
                #[trigger] largest_first(manifest.entries@, order) && forall|i: int|
                    4 <= i < r@.len() ==> shows_entry((#[trigger] r@[i])@, order[i - 4])
        }),
{
    broadcast use vstd::seq_lib::group_to_multiset_ensures;

    let entries = manifest.entries@;
    let order = choose|order: Seq<ManifestEntry>|
        {
            &&& #[trigger] by_size(entries, order)
            &&& texts(r@) == manifest_head(*manifest) + shown(order).map_values(
                |e: ManifestEntry| shown_line(e),
            )
        };
    let lines = manifest_head(*manifest) + shown(order).map_values(
        |e: ManifestEntry| shown_line(e),
    );
    lemma_lines(r@, lines);
    assert forall|x: ManifestEntry| order.to_multiset().count(x) == entries.to_multiset().count(
        x,
    ) by {
        lemma_count_of_size(entries, x);
        lemma_count_of_size(order, x);
        assert(of_size(order, x.size) == of_size(entries, x.size));
    }
    assert(order.to_multiset() =~= entries.to_multiset());
    order.to_multiset_ensures();
    entries.to_multiset_ensures();
    assert forall|i: int| 4 <= i < r@.len() implies shows_entry(
        (#[trigger] r@[i])@,
        order[i - 4],
    ) by {
        assert(lines[i] == shown_line(shown(order)[i - 4]));
    }
    assert(largest_first(entries, order));
    let k0 = r@[0];
    let k1 = r@[1];
    let k2 = r@[2];
    let k3 = r@[3];
}

/// What is told of a manifest that was verified.
pub proof fn law_manifest_verify(summary: SyncSummary, manifest: &Manifest, r: String)
    requires
        call_ensures(manifest_verify, (summary, manifest), r),
    ensures
        r@ == "verified "@ + decimal(summary.files_verified as nat) + " files for manifest "@
            + manifest.git_sha@,
{
}

/// What a git command wrote is what it wrote on its standard output, without white space
/// around it, if it could be run and succeeded. Else there is an error, with what it wrote
/// about its failure.
pub proof fn law_git_output(
    output: Result<GitOutput, Error>,
    root: Result<String, Error>,
    out: Result<String, Error>,
    head: Result<String, Error>,
    branch: Result<Option<String>, Error>,
)
    requires
        call_ensures(crate::cli::repo::repo_root, (output,), root),
        call_ensures(crate::cli::repo::run_git_capture_stdout, (output,), out),
        call_ensures(crate::cli::repo::git_head_sha, (output,), head),
        call_ensures(crate::cli::repo::git_current_branch_short, (output,), branch),
    ensures
        output matches Err(e) ==> {
            &&& root matches Err(a) && a@ == "failed to execute git: "@ + e@
            &&& out matches Err(a) && a@ == "failed to execute git: "@ + e@
            &&& head matches Err(a) && a@ == "failed to execute git: "@ + e@
            &&& branch matches Err(a) && a@ == "failed to execute git: "@ + e@
        },
        output matches Ok(o) ==> if o.success {
            let said = trim_text(lossy_text(o.stdout@));
            &&& root matches Ok(a) && a@ == said
            &&& out matches Ok(a) && a@ == said
            &&& head matches Ok(a) && a@ == said
            &&& branch matches Ok(b) && (b matches Some(a) && a@ == said)
        } else {
            let why = lossy_text(o.stderr@);
            &&& root matches Err(a) && a@ == "not inside a git repository: "@ + why
            &&& out matches Err(a) && a@ == "git command failed: "@ + why
            &&& head matches Err(a) && a@ == "git command failed: "@ + why
            &&& branch matches Ok(b) && b is None
        },
{
    reveal_strlit("failed to execute git");
    reveal_strlit(": ");
    reveal_strlit("failed to execute git: ");
    if let Err(e) = output {
        assert("failed to execute git"@ + ": "@ + e@ =~= "failed to execute git: "@ + e@);
    }
}

/// A git command that succeeded is no error, and one that did not is.
pub proof fn law_run_git(success: bool, r: Result<(), Error>)
    requires
        call_ensures(run_git, (success,), r),
    ensures
        r is Ok <==> success,
        r matches Err(e) ==> e@ == "git command failed"@,
{
}

/// A line that is added to a text stands at its end, on its own.
pub proof fn law_push_line(content: String, line: &str, r: String)
    requires
        call_ensures(push_line, (content, line), r),
    ensures
        content@.len() == 0 || content@.last() == '\n' ==> r@ == (content@ + line@).push('\n'),
        content@.len() > 0 && content@.last() != '\n' ==> r@ == (content@.push('\n') + line@).push(
            '\n',
        ),
{
}

/// A cache that is not there has no hashes, one that is there is taken as it is, and one that
/// is none is an error that names it. Files that are missing are all named.
pub proof fn law_hash_cache(
    path: &str,
    found: Option<Result<HashCache, Error>>,
    r: Result<HashCache, Error>,
    missing: &Vec<String>,
    e: Error,
)
    requires
        call_ensures(load_hash_cache, (path, found), r),
        call_ensures(missing_inputs, (missing,), e),
    ensures
        found is None ==> (r matches Ok(cache) && forall|p: Seq<char>|
            !#[trigger] cache@.contains_key(p)),
        found matches Some(Ok(cache)) ==> r == Ok::<HashCache, Error>(cache),
        found matches Some(Err(why)) ==> (r matches Err(said) && said@
            == "failed to parse hash cache "@ + path@ + ": "@ + why@),
        e@ == "missing required CAS inputs: "@ + joined(texts(missing@), ", "@),
{
}

/// What is copied to try a plan: every file that it requires, from the content store to one
/// of the trial's own, and the trial is of the pointer that speaks for all.
pub proof fn law_validation(
    root: &str,
    sha: &str,
    relpaths: &Vec<String>,
    index: &PointerIndex,
    r: Option<Validation>,
    i: int,
)
    requires
        call_ensures(validate_minimal_plan, (root, sha, relpaths, index), r),
    ensures
        r is None <==> index.entries@.len() == 0,
        r matches Some(v) ==> {
            &&& speaks_for_all(index, v.pointer)
            &&& v.cas@ == join(v.base@, "xet"@)
            &&& v.copies@.len() == relpaths@.len()
            &&& 0 <= i < relpaths@.len() ==> {
                &&& v.copies@[i].0@ == join(
                    join(join(root@, ".xet_ai"@), "xet"@),
                    relpaths@[i]@,
                )
                &&& v.copies@[i].1@ == join(v.cas@, relpaths@[i]@)
            }
        },
{
    if let Some(v) = r {
        let n = choose|n: int| #[trigger]
            is_representative(pointer_views(index.entries@), n) && v.pointer
                == index.entries@[n].file_info;
        lemma_speaks_for_all(index, n);
        if 0 <= i < relpaths@.len() {
            let k = v.copies@[i];
        }
    }
}

/// The file is to be copied: it is in a directory that takes part, and not there yet.
pub open spec fn is_wanted(f: Found) -> bool {
    in_known_dir(f.relpath@) && !f.present
}

/// The sizes of the files that are to be copied, added up from the front.
pub open spec fn wanted_bytes(files: Seq<Found>) -> nat
    decreases files.len(),
{
    if files.len() == 0 {
        0
    } else {
        wanted_bytes(files.skip(1)) + if is_wanted(files[0]) {
            files[0].size as nat
        } else {
            0
        }
    }
}

proof fn lemma_wanted_bytes(files: Seq<Found>)
    ensures
        wanted_bytes(files) == missing_bytes(files),
    decreases files.len(),
{
    if files.len() > 0 {
        let rest = files.skip(1);
        lemma_wanted_bytes(rest);
        if files.len() == 1 {
            assert(files.drop_last() =~= Seq::<Found>::empty());
            assert(rest =~= Seq::<Found>::empty());
        } else {
            let q = files.drop_last();
            lemma_wanted_bytes(q);
            assert(q.skip(1) =~= rest.drop_last());
            assert(q[0] == files[0]);
            lemma_wanted_bytes(q.skip(1));
            assert(rest.last() == files.last());
        }
    }
}

/// How many of the files are to be copied.
pub open spec fn wanted_files(files: Seq<Found>) -> nat
    decreases files.len(),
{
    if files.len() == 0 {
        0
    } else {
        wanted_files(files.skip(1)) + if is_wanted(files[0]) {
            1
        } else {
            0nat
        }
    }
}

proof fn lemma_wanted_files(src: Seq<char>, dst: Seq<char>, files: Seq<Found>)
    ensures
        wanted_files(files) == copies(src, dst, files).len(),
    decreases files.len(),
{
    if files.len() > 0 {
        let rest = files.skip(1);
        lemma_wanted_files(src, dst, rest);
        if files.len() == 1 {
            assert(files.drop_last() =~= Seq::<Found>::empty());
            assert(rest =~= Seq::<Found>::empty());
        } else {
            let q = files.drop_last();
            lemma_wanted_files(src, dst, q);
            assert(q.skip(1) =~= rest.drop_last());
            assert(q[0] == files[0]);
            lemma_wanted_files(src, dst, q.skip(1));
            assert(rest.last() == files.last());
        }
    }
}

/// The copy goes from below the one directory to below the other.
pub open spec fn is_copy_of(c: (String, String), src: &str, dst: &str, f: Found) -> bool {
    c.0@ == join(src@, f.relpath@) && c.1@ == join(dst@, f.relpath@)
}

proof fn lemma_copies(src: Seq<char>, dst: Seq<char>, files: Seq<Found>)
    ensures
        forall|i: int|
            0 <= i < files.len() && is_wanted(#[trigger] files[i]) ==> copies(
                src,
                dst,
                files,
            ).contains((join(src, files[i].relpath@), join(dst, files[i].relpath@))),
        forall|c: (Seq<char>, Seq<char>)| #[trigger]
            copies(src, dst, files).contains(c) ==> exists|i: int|
                0 <= i < files.len() && is_wanted(#[trigger] files[i]) && c == (
                    join(src, files[i].relpath@),
                    join(dst, files[i].relpath@),
                ),
    decreases files.len(),
{
    if files.len() > 0 {
        let q = files.drop_last();
        let w = copies(src, dst, q);
        let all = copies(src, dst, files);
        lemma_copies(src, dst, q);
        assert forall|i: int| 0 <= i < files.len() && is_wanted(
            #[trigger] files[i],
        ) implies all.contains((join(src, files[i].relpath@), join(dst, files[i].relpath@))) by {
            let c = (join(src, files[i].relpath@), join(dst, files[i].relpath@));
            if i < q.len() {
                assert(q[i] == files[i]);
                let n = choose|n: int| 0 <= n < w.len() && w[n] == c;
                assert(all[n] == c);
            } else {
                assert(all.last() == c);
            }
        }
        assert forall|c: (Seq<char>, Seq<char>)| #[trigger] all.contains(c) implies exists|i: int|
            0 <= i < files.len() && is_wanted(#[trigger] files[i]) && c == (
                join(src, files[i].relpath@),
                join(dst, files[i].relpath@),
            ) by {
            let n = choose|n: int| 0 <= n < all.len() && all[n] == c;
            if n < w.len() {
                assert(w[n] == c);
                assert(w.contains(c));
                let i = choose|i: int|
                    0 <= i < q.len() && is_wanted(#[trigger] q[i]) && c == (
                        join(src, q[i].relpath@),
                        join(dst, q[i].relpath@),
                    );
                assert(files[i] == q[i]);
            } else {
                assert(is_wanted(files[files.len() - 1]));
            }
        }
    }
}

/// What is missing in a content store is copied from the other: every file in a directory
/// that takes part and that is not there yet, and no other; how many they are and how large
/// is told.
pub proof fn law_copy_missing(
    src: &str,
    dst: &str,
    files: &Vec<Found>,
    r: (Vec<(String, String)>, crate::cli::sync::SyncSummary),
    i: int,
)
    requires
        call_ensures(copy_missing_recursive, (src, dst, files), r),
        wanted_bytes(files@) <= u64::MAX,
    ensures
        0 <= i < files@.len() && is_wanted(files@[i]) ==> exists|n: int|
            0 <= n < r.0@.len() && is_copy_of(#[trigger] r.0@[n], src, dst, files@[i]),
        0 <= i < r.0@.len() ==> exists|n: int|
            0 <= n < files@.len() && is_wanted(files@[n]) && is_copy_of(
                r.0@[i],
                src,
                dst,
                #[trigger] files@[n],
            ),
        r.0@.len() == wanted_files(files@),
        r.1.files_copied == r.0@.len(),
        r.1.bytes_copied == wanted_bytes(files@),
{
    let all = copies(src@, dst@, files@);
    lemma_wanted_bytes(files@);
    lemma_wanted_files(src@, dst@, files@);
    lemma_copies(src@, dst@, files@);
    assert(pair_views(r.0@) == all);
    if 0 <= i < files@.len() && is_wanted(files@[i]) {
        let c = (join(src@, files@[i].relpath@), join(dst@, files@[i].relpath@));
        assert(all.contains(c));
        let n = choose|n: int| 0 <= n < all.len() && all[n] == c;
        assert(all[n] == (r.0@[n].0@, r.0@[n].1@));
        assert(is_copy_of(r.0@[n], src, dst, files@[i]));
    }
    if 0 <= i < r.0@.len() {
        assert(all[i] == (r.0@[i].0@, r.0@[i].1@));
        assert(all.contains(all[i]));
        let n = choose|n: int|
            0 <= n < files@.len() && is_wanted(#[trigger] files@[n]) && all[i] == (
                join(src@, files@[n].relpath@),
                join(dst@, files@[n].relpath@),
            );
        assert(is_copy_of(r.0@[i], src, dst, files@[n]));
    }
}

} // verus!
