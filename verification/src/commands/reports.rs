//! What commands tell that only look: the state of a repository, its health, its
//! manifests.

use vstd::prelude::*;

use crate::commands::track::{has_tracked_patterns, tracks_files};
use crate::config::{local_config_path, shared_config_path, EffectiveConfig};
use crate::error::{told_text, Error};
use crate::order::{
    by_key, lemma_filter_map, lemma_sorted_views, sorted, stably_sorted, tied_with, Ranked,
};
use crate::paths::{is_absolute, join};
use crate::repo::{resolve_path, REPO_ID_FILE};
use crate::sync::manifest::{saturated, Manifest, ManifestEntry};
use crate::sync::transfer::SyncSummary;
use crate::text::{decimal, decimal_text, same_text, texts, trim_text, trimmed};

verus! {

/// What `status` looks at.
pub struct StatusFacts {
    pub repo_root: String,
    pub repo_id: Option<String>,
    pub default_remote: Option<String>,
    /// The content of the local record of the last push.
    pub last_head: Option<String>,
    pub cas_exists: bool,
    /// The sizes of the files in the content store.
    pub cas_sizes: Vec<u64>,
    pub head_pointer_cached: bool,
}

/// Numbers, added up.
pub open spec fn sum(s: Seq<u64>) -> nat
    decreases s.len(),
{
    if s.len() == 0 {
        0
    } else {
        sum(s.drop_last()) + s.last() as nat
    }
}

proof fn lemma_sum_of_part(s: Seq<u64>, k: int)
    requires
        0 <= k < s.len(),
    ensures
        sum(s.take(k + 1)) == sum(s.take(k)) + s[k],
        sum(s.take(k + 1)) <= sum(s),
    decreases s.len() - k,
{
    assert(s.take(k + 1).drop_last() =~= s.take(k));
    if k + 1 < s.len() {
        lemma_sum_of_part(s, k + 1);
    }
}

/// A text that is there, or what is said where it is not.
pub open spec fn given_or(text: Option<Seq<char>>, other: Seq<char>) -> Seq<char> {
    match text {
        Some(t) => t,
        None => other,
    }
}

fn text_or(text: &Option<String>, other: &str) -> (r: String)
    ensures
        r@ == given_or(text.deep_view(), other@),
{
    match text {
        Some(t) => t.clone(),
        None => other.to_owned(),
    }
}

/// A truth value in words.
pub open spec fn yes_no(b: bool) -> Seq<char> {
    if b {
        "true"@
    } else {
        "false"@
    }
}

/// What `status` tells.
pub open spec fn status_lines(f: StatusFacts) -> Seq<Seq<char>> {
    seq![
        "repo_root: "@ + f.repo_root@,
        "repo_id: "@ + given_or(f.repo_id.deep_view(), "<missing>"@),
        "shared_config: "@ + join(f.repo_root@, ".xet_ai.toml"@),
        "local_config: "@ + join(join(f.repo_root@, ".xet_ai"@), "config.local.toml"@),
        "default_remote: "@ + given_or(f.default_remote.deep_view(), "<none>"@),
        "last_pushed_sha: "@ + match f.last_head {
            Some(head) => trim_text(head@),
            None => "<none>"@,
        },
        "cas_exists: "@ + yes_no(f.cas_exists),
        "cas_bytes_approx: "@ + decimal(sum(f.cas_sizes@)),
        "head_pointer_cached: "@ + yes_no(f.head_pointer_cached),
    ]
}

fn labelled(label: &str, text: &str) -> (r: String)
    ensures
        r@ == label@ + text@,
{
    let mut m = label.to_owned();
    m.append(text);
    m
}

fn in_words(b: bool) -> (r: &'static str)
    ensures
        r@ == yes_no(b),
{
    if b {
        "true"
    } else {
        "false"
    }
}

/// What `status` tells.
pub fn status(facts: &StatusFacts) -> (r: Vec<String>)
    requires
        sum(facts.cas_sizes@) <= u64::MAX,
    ensures
        texts(r@) == status_lines(*facts),
{
    let mut cas_bytes: u64 = 0;
    let mut i: usize = 0;
    while i < facts.cas_sizes.len()
        invariant
            i <= facts.cas_sizes@.len(),
            cas_bytes == sum(facts.cas_sizes@.take(i as int)),
            sum(facts.cas_sizes@) <= u64::MAX,
        decreases facts.cas_sizes@.len() - i,
    {
        proof {
            lemma_sum_of_part(facts.cas_sizes@, i as int);
        }
        cas_bytes = cas_bytes + facts.cas_sizes[i];
        i += 1;
    }
    proof {
        assert(facts.cas_sizes@.take(i as int) =~= facts.cas_sizes@);
    }
    let root = facts.repo_root.as_str();
    let last_sha = match &facts.last_head {
        Some(head) => trimmed(head.as_str()),
        None => "<none>".to_owned(),
    };
    let mut out: Vec<String> = Vec::new();
    out.push(labelled("repo_root: ", root));
    out.push(labelled("repo_id: ", text_or(&facts.repo_id, "<missing>").as_str()));
    out.push(labelled("shared_config: ", shared_config_path(root).as_str()));
    out.push(labelled("local_config: ", local_config_path(root).as_str()));
    out.push(labelled("default_remote: ", text_or(&facts.default_remote, "<none>").as_str()));
    out.push(labelled("last_pushed_sha: ", last_sha.as_str()));
    out.push(labelled("cas_exists: ", in_words(facts.cas_exists)));
    out.push(labelled("cas_bytes_approx: ", decimal_text(cas_bytes).as_str()));
    out.push(labelled("head_pointer_cached: ", in_words(facts.head_pointer_cached)));
    out
}

/// The directory of the default remote, if it is one that must be there.
pub open spec fn default_dir(repo_root: Seq<char>, cfg: EffectiveConfig) -> Option<Seq<char>> {
    match cfg.default_remote {
        None => None,
        Some(name) => if cfg.remotes@.contains_key(name@) && cfg.remotes@[name@].kind@
            == "filesystem"@ {
            let path = cfg.remotes@[name@].path@;
            Some(
                if is_absolute(path) {
                    path
                } else {
                    join(repo_root, path)
                },
            )
        } else {
            None
        },
    }
}

/// The directory of the default remote, if it is one that must be there.
pub fn default_remote_dir(repo_root: &str, cfg: &EffectiveConfig) -> (r: Option<String>)
    ensures
        r.deep_view() == default_dir(repo_root@, *cfg),
{
    match &cfg.default_remote {
        None => None,
        Some(name) => match cfg.remotes.get(name.as_str()) {
            None => None,
            Some(remote) => {
                if same_text(remote.kind.as_str(), "filesystem") {
                    Some(resolve_path(repo_root, remote.path.as_str()))
                } else {
                    None
                }
            },
        },
    }
}

/// What `doctor` finds once the configuration is read.
pub struct RemoteFacts {
    pub default_remote: Option<String>,
    /// The directory of the default remote, if there must be one.
    pub dir: Option<String>,
    /// Whether that directory is there.
    pub reachable: bool,
    pub cas_root: String,
    /// Whether the directory of the content store could be made.
    pub cas_accessible: bool,
    /// The sizes of the files in the content store.
    pub cas_sizes: Vec<u64>,
}

/// What `doctor` looks at.
pub struct DoctorFacts {
    /// Whether git has the clean filter and the smudge filter, and must not do without them.
    pub clean_set: bool,
    pub smudge_set: bool,
    pub required_set: bool,
    /// The content of the attributes file, empty if there is none.
    pub attributes: String,
    pub has_repo_id: bool,
    /// Whether git tracks the file with the identity.
    pub repo_id_tracked: bool,
    pub repo_root: String,
    pub has_shared_config: bool,
    /// What was found with the configuration, if that can be read.
    pub configured: Result<RemoteFacts, Error>,
}

/// The complaint is made where something is wrong.
pub open spec fn complaint(wrong: bool, text: Seq<char>) -> Seq<Seq<char>> {
    if wrong {
        seq![text]
    } else {
        Seq::empty()
    }
}

/// The default remote cannot be reached.
pub open spec fn unreachable_remote(f: RemoteFacts) -> bool {
    f.dir is Some && !f.reachable
}

/// What `doctor` complains about in git and in the repository.
pub open spec fn setup_complaints(f: DoctorFacts) -> Seq<Seq<char>> {
    complaint(!f.clean_set, "xet-ai: missing git filter.clean"@) + complaint(
        !f.smudge_set,
        "xet-ai: missing git filter.smudge"@,
    ) + complaint(!f.required_set, "xet-ai: missing git filter.required"@) + complaint(
        !tracks_files(f.attributes@),
        "xet-ai: no tracked patterns in .gitattributes"@,
    ) + complaint(!f.has_repo_id, "xet-ai: missing "@ + REPO_ID_FILE@) + complaint(
        f.has_repo_id && !f.repo_id_tracked,
        "xet-ai: not tracked in git: "@ + REPO_ID_FILE@,
    )
}

/// What `doctor` complains about in the remote and the content store.
pub open spec fn remote_complaints(f: RemoteFacts) -> Seq<Seq<char>> {
    complaint(f.default_remote is None, "xet-ai: no default remote set"@) + complaint(
        unreachable_remote(f),
        "xet-ai: default remote path not reachable: "@ + given_or(f.dir.deep_view(), ""@),
    ) + complaint(!f.cas_accessible, "xet-ai: cannot access local CAS root "@ + f.cas_root@)
}

/// What `doctor` complains about. It gets no further than the configuration where that
/// cannot be read.
pub open spec fn complaints(f: DoctorFacts) -> Seq<Seq<char>> {
    match f.configured {
        Ok(remote) => setup_complaints(f) + remote_complaints(remote),
        Err(_) => setup_complaints(f),
    }
}

/// What `doctor` shows of the configuration and of the size of the content store.
pub open spec fn findings(f: DoctorFacts) -> Seq<Seq<char>> {
    let shared = seq![
        "shared_config: "@ + join(f.repo_root@, ".xet_ai.toml"@) + (if f.has_shared_config {
            " (present)"@
        } else {
            " (missing)"@
        }),
    ];
    match f.configured {
        Err(_) => shared,
        Ok(remote) => shared + seq![
            "default_remote: "@ + given_or(remote.default_remote.deep_view(), "<none>"@),
            "cas: "@ + decimal(remote.cas_sizes@.len()) + " files, "@ + decimal(
                saturated(sum(remote.cas_sizes@)) as nat,
            ) + " bytes"@,
        ],
    }
}

/// Nothing is wrong that a repository cannot work with. It can work without a default
/// remote, while no file is tracked, and before the identity is.
pub open spec fn is_healthy(f: DoctorFacts, remote: RemoteFacts) -> bool {
    f.clean_set && f.smudge_set && f.required_set && f.has_repo_id && !unreachable_remote(remote)
        && remote.cas_accessible
}

/// What `doctor` says in the end.
pub open spec fn verdict(f: DoctorFacts) -> Result<Seq<char>, Seq<char>> {
    match f.configured {
        Err(e) => Err(e@),
        Ok(remote) => if is_healthy(f, remote) {
            Ok("doctor: OK"@)
        } else {
            Err("doctor found critical issues"@)
        },
    }
}

/// What `doctor` tells: what it found, what it complains about, and what it says in the end.
pub struct DoctorReport {
    pub findings: Vec<String>,
    pub complaints: Vec<String>,
    pub verdict: Result<String, Error>,
}

fn saturated_sum(sizes: &Vec<u64>) -> (r: u64)
    ensures
        r == saturated(sum(sizes@)),
{
    let mut total: u64 = 0;
    let mut i: usize = 0;
    while i < sizes.len()
        invariant
            i <= sizes@.len(),
            total == saturated(sum(sizes@.take(i as int))),
        decreases sizes@.len() - i,
    {
        proof {
            lemma_sum_of_part(sizes@, i as int);
        }
        total = total.saturating_add(sizes[i]);
        i += 1;
    }
    proof {
        assert(sizes@.take(i as int) =~= sizes@);
    }
    total
}

fn complain(out: &mut Vec<String>, wrong: bool, text: String)
    ensures
        texts(final(out)@) == texts(old(out)@) + complaint(wrong, text@),
{
    if wrong {
        out.push(text);
    }
}

fn complain_of_setup(facts: &DoctorFacts) -> (r: Vec<String>)
    ensures
        texts(r@) == setup_complaints(*facts),
{
    let mut out: Vec<String> = Vec::new();
    complain(&mut out, !facts.clean_set, "xet-ai: missing git filter.clean".to_owned());
    complain(&mut out, !facts.smudge_set, "xet-ai: missing git filter.smudge".to_owned());
    complain(&mut out, !facts.required_set, "xet-ai: missing git filter.required".to_owned());
    complain(
        &mut out,
        !has_tracked_patterns(facts.attributes.as_str()),
        "xet-ai: no tracked patterns in .gitattributes".to_owned(),
    );
    complain(&mut out, !facts.has_repo_id, labelled("xet-ai: missing ", REPO_ID_FILE));
    complain(
        &mut out,
        facts.has_repo_id && !facts.repo_id_tracked,
        labelled("xet-ai: not tracked in git: ", REPO_ID_FILE),
    );
    out
}

fn complain_of_remote(out: &mut Vec<String>, remote: &RemoteFacts)
    ensures
        texts(final(out)@) == texts(old(out)@) + remote_complaints(*remote),
{
    let dir = text_or(&remote.dir, "");
    complain(out, remote.default_remote.is_none(), "xet-ai: no default remote set".to_owned());
    complain(
        out,
        remote.dir.is_some() && !remote.reachable,
        labelled("xet-ai: default remote path not reachable: ", dir.as_str()),
    );
    complain(
        out,
        !remote.cas_accessible,
        labelled("xet-ai: cannot access local CAS root ", remote.cas_root.as_str()),
    );
    proof {
        assert(texts(out@) =~= texts(old(out)@) + remote_complaints(*remote));
    }
}

fn find(facts: &DoctorFacts) -> (r: Vec<String>)
    ensures
        texts(r@) == findings(*facts),
{
    let mut out: Vec<String> = Vec::new();
    let mut shared = labelled(
        "shared_config: ",
        shared_config_path(facts.repo_root.as_str()).as_str(),
    );
    shared.append(
        if facts.has_shared_config {
            " (present)"
        } else {
            " (missing)"
        },
    );
    out.push(shared);
    if let Ok(remote) = &facts.configured {
        let default_remote = text_or(&remote.default_remote, "<none>");
        out.push(labelled("default_remote: ", default_remote.as_str()));
        let mut m = labelled("cas: ", decimal_text(remote.cas_sizes.len() as u64).as_str());
        m.append(" files, ");
        m.append(decimal_text(saturated_sum(&remote.cas_sizes)).as_str());
        m.append(" bytes");
        out.push(m);
    }
    proof {
        assert(texts(out@) =~= findings(*facts));
    }
    out
}

/// What `doctor` tells of a repository.
pub fn doctor(facts: &DoctorFacts) -> (r: DoctorReport)
    ensures
        texts(r.findings@) == findings(*facts),
        texts(r.complaints@) == complaints(*facts),
        told_text(r.verdict) == verdict(*facts),
{
    let mut complaints = complain_of_setup(facts);
    let verdict = match &facts.configured {
        Err(e) => Err(Error::new(e.message.clone())),
        Ok(remote) => {
            complain_of_remote(&mut complaints, remote);
            if facts.clean_set && facts.smudge_set && facts.required_set && facts.has_repo_id
                && !(remote.dir.is_some() && !remote.reachable) && remote.cas_accessible {
                Ok("doctor: OK".to_owned())
            } else {
                Err(Error::saying("doctor found critical issues"))
            }
        },
    };
    DoctorReport { findings: find(facts), complaints, verdict }
}

/// The version of the tool, the commit that it was built from, and the revision of the
/// storage library.
pub fn version(number: &str, build_commit: &Option<String>) -> (r: Vec<String>)
    ensures
        texts(r@) == seq![
            "xet-ai "@ + number@,
            "build_commit: "@ + given_or(build_commit.deep_view(), "unknown"@),
            "xet_core_rev: a7661a7e63626466561e88e63113001a193a36ee"@,
        ],
{
    let mut out: Vec<String> = Vec::new();
    out.push(labelled("xet-ai ", number));
    out.push(labelled("build_commit: ", text_or(build_commit, "unknown").as_str()));
    out.push("xet_core_rev: a7661a7e63626466561e88e63113001a193a36ee".to_owned());
    out
}

/// The line for a directory at the top of the content store.
pub open spec fn tree_line(name: Seq<char>, takes_part: bool) -> Seq<char> {
    (if takes_part {
        "include"@
    } else {
        "exclude"@
    }) + "\t"@ + name
}

/// What is told of the directories at the top of the content store.
pub fn debug_cas_tree(dirs: &Vec<(String, bool)>) -> (r: Vec<String>)
    ensures
        r@.len() == dirs@.len(),
        forall|i: int|
            0 <= i < dirs@.len() ==> (#[trigger] r@[i])@ == tree_line(dirs@[i].0@, dirs@[i].1),
{
    let mut out: Vec<String> = Vec::new();
    let mut i: usize = 0;
    while i < dirs.len()
        invariant
            i <= dirs@.len(),
            out@.len() == i,
            forall|j: int|
                0 <= j < i ==> (#[trigger] out@[j])@ == tree_line(dirs@[j].0@, dirs@[j].1),
        decreases dirs@.len() - i,
    {
        let mut line = if dirs[i].1 {
            "include".to_owned()
        } else {
            "exclude".to_owned()
        };
        line.append("\t");
        line.append(dirs[i].0.as_str());
        out.push(line);
        i += 1;
    }
    out
}

/// The line for a manifest that is kept.
pub open spec fn row_line(row: (Seq<char>, (u64, u64))) -> Seq<char> {
    row.0 + "\tentries="@ + decimal(row.1.0 as nat) + "\ttotal_bytes="@ + decimal(row.1.1 as nat)
}

/// The manifests by view.
pub open spec fn row_views(rows: Seq<(String, (u64, u64))>) -> Seq<(Seq<char>, (u64, u64))> {
    rows.map_values(|p: (String, (u64, u64))| (p.0@, p.1))
}

/// `out` holds the manifests by commit.
pub open spec fn rows_by_sha(
    s: Seq<(Seq<char>, (u64, u64))>,
    out: Seq<(Seq<char>, (u64, u64))>,
) -> bool {
    by_key(s, out, |p: (Seq<char>, (u64, u64))| p.0)
}

/// What is told of the manifests that are kept, by commit, given each with how many
/// entries it has and their total size. There may be no directory for them.
pub fn manifest_list(rows: Option<Vec<(String, (u64, u64))>>) -> (r: Vec<String>)
    ensures
        match rows {
            None => texts(r@) == seq!["no manifests cached"@],
            Some(rows) => exists|order: Seq<(Seq<char>, (u64, u64))>|
                {
                    &&& #[trigger] rows_by_sha(row_views(rows@), order)
                    &&& texts(r@) == order.map_values(|p: (Seq<char>, (u64, u64))| row_line(p))
                },
        },
{
    let mut out: Vec<String> = Vec::new();
    let rows = match rows {
        None => {
            out.push("no manifests cached".to_owned());
            return out;
        },
        Some(rows) => rows,
    };
    let in_order = sorted(rows);
    let ghost order = row_views(in_order@);
    let ghost lines = order.map_values(|p: (Seq<char>, (u64, u64))| row_line(p));
    proof {
        lemma_sorted_views(
            rows@,
            in_order@,
            |p: (String, (u64, u64))| (p.0@, p.1),
            |p: (Seq<char>, (u64, u64))| p.0,
        );
        assert(rows_by_sha(row_views(rows@), order));
    }
    let mut i: usize = 0;
    while i < in_order.len()
        invariant
            i <= in_order@.len(),
            order == row_views(in_order@),
            lines == order.map_values(|p: (Seq<char>, (u64, u64))| row_line(p)),
            texts(out@) == lines.take(i as int),
        decreases in_order@.len() - i,
    {
        let mut line = in_order[i].0.clone();
        line.append("\tentries=");
        line.append(decimal_text(in_order[i].1.0).as_str());
        line.append("\ttotal_bytes=");
        line.append(decimal_text(in_order[i].1.1).as_str());
        proof {
            assert(lines.take(i + 1) =~= lines.take(i as int).push(lines[i as int]));
        }
        out.push(line);
        i += 1;
    }
    out
}

/// An entry that is shown, ranked by its size, the largest first.
pub struct BySize {
    pub entry: ManifestEntry,
}

impl Ranked for BySize {
    open spec fn leq(&self, other: &Self) -> bool {
        self.entry.size >= other.entry.size
    }

    proof fn leq_total(a: &Self, b: &Self) {
    }

    proof fn leq_transitive(a: &Self, b: &Self, c: &Self) {
    }

    fn not_after(&self, other: &Self) -> (r: bool) {
        self.entry.size >= other.entry.size
    }
}

/// `out` holds the entries by size, the largest first, and entries of one size in the
/// order that they have in `s`.
pub open spec fn by_size(s: Seq<ManifestEntry>, out: Seq<ManifestEntry>) -> bool {
    &&& forall|i: int, j: int|
        #![trigger out[i], out[j]]
        0 <= i < j < out.len() ==> out[i].size >= out[j].size
    &&& forall|n: u64| #[trigger] of_size(out, n) == of_size(s, n)
}

/// The entries of one size, in their order.
pub open spec fn of_size(s: Seq<ManifestEntry>, n: u64) -> Seq<ManifestEntry> {
    s.filter(|e: ManifestEntry| e.size == n)
}

proof fn lemma_by_size(s: Seq<BySize>, out: Seq<BySize>)
    requires
        stably_sorted(s, out),
    ensures
        by_size(s.map_values(|b: BySize| b.entry), out.map_values(|b: BySize| b.entry)),
{
    let v = |b: BySize| b.entry;
    let sv = s.map_values(v);
    let ov = out.map_values(v);
    assert forall|n: u64| #[trigger] of_size(ov, n) == of_size(sv, n) by {
        let p = |e: ManifestEntry| e.size == n;
        let q = |b: BySize| p(v(b));
        lemma_filter_map(s, v, p);
        lemma_filter_map(out, v, p);
        if exists|r: BySize| #[trigger] q(r) {
            let r = choose|r: BySize| #[trigger] q(r);
            let t = |x: BySize| crate::order::tied(x, r);
            assert(t =~= q);
            assert(tied_with(out, r) == tied_with(s, r));
        } else {
            s.lemma_all_neg_filter_empty(q);
            out.lemma_all_neg_filter_empty(q);
        }
    }
}

/// The line for an entry that is shown.
pub open spec fn shown_line(e: ManifestEntry) -> Seq<char> {
    decimal(e.size as nat) + "\t"@ + e.sha256@ + "\t"@ + e.relpath@
}

/// What is told of a manifest before its entries.
pub open spec fn manifest_head(m: Manifest) -> Seq<Seq<char>> {
    seq![
        "repo_id: "@ + m.repo_id@,
        "git_sha: "@ + m.git_sha@,
        "entries: "@ + decimal(m.entries@.len()),
        "total_bytes: "@ + decimal(m.total_bytes as nat),
    ]
}

/// How many entries of a manifest are shown.
pub const SHOWN_ENTRIES: usize = 20;

/// The first entries, as many as are shown.
pub open spec fn shown(order: Seq<ManifestEntry>) -> Seq<ManifestEntry> {
    if order.len() <= SHOWN_ENTRIES {
        order
    } else {
        order.take(SHOWN_ENTRIES as int)
    }
}

/// What is told of a manifest: what it is of, and its largest entries.
pub fn manifest_show(manifest: &Manifest) -> (r: Vec<String>)
    ensures
        exists|order: Seq<ManifestEntry>|
            {
                &&& #[trigger] by_size(manifest.entries@, order)
                &&& texts(r@) == manifest_head(*manifest) + shown(order).map_values(
                    |e: ManifestEntry| shown_line(e),
                )
            },
{
    let mut out: Vec<String> = Vec::new();
    out.push(labelled("repo_id: ", manifest.repo_id.as_str()));
    out.push(labelled("git_sha: ", manifest.git_sha.as_str()));
    out.push(labelled("entries: ", decimal_text(manifest.entries.len() as u64).as_str()));
    out.push(labelled("total_bytes: ", decimal_text(manifest.total_bytes).as_str()));
    let ghost head = texts(out@);
    let mut ranked: Vec<BySize> = Vec::new();
    let mut i: usize = 0;
    while i < manifest.entries.len()
        invariant
            i <= manifest.entries@.len(),
            ranked@.map_values(|b: BySize| b.entry) == manifest.entries@.take(i as int),
        decreases manifest.entries@.len() - i,
    {
        ranked.push(BySize { entry: manifest.entries[i].clone() });
        proof {
            assert(manifest.entries@.take(i + 1) =~= manifest.entries@.take(i as int).push(
                manifest.entries@[i as int],
            ));
        }
        i += 1;
    }
    let in_order = sorted(ranked);
    let ghost order = in_order@.map_values(|b: BySize| b.entry);
    let ghost lines = shown(order).map_values(|e: ManifestEntry| shown_line(e));
    proof {
        assert(manifest.entries@.take(i as int) =~= manifest.entries@);
        lemma_by_size(ranked@, in_order@);
    }
    let mut i: usize = 0;
    while i < in_order.len() && i < SHOWN_ENTRIES
        invariant
            i <= in_order@.len(),
            i <= SHOWN_ENTRIES,
            order == in_order@.map_values(|b: BySize| b.entry),
            lines == shown(order).map_values(|e: ManifestEntry| shown_line(e)),
            texts(out@) == head + lines.take(i as int),
        decreases in_order@.len() - i,
    {
        let entry = &in_order[i].entry;
        let mut line = decimal_text(entry.size);
        line.append("\t");
        line.append(entry.sha256.as_str());
        line.append("\t");
        line.append(entry.relpath.as_str());
        proof {
            assert(head + lines.take(i + 1) =~= (head + lines.take(i as int)).push(line@));
        }
        out.push(line);
        i += 1;
    }
    out
}

/// What is told of a manifest that was verified.
pub fn manifest_verify(summary: SyncSummary, manifest: &Manifest) -> (r: String)
    ensures
        r@ == "verified "@ + decimal(summary.files_verified as nat) + " files for manifest "@
            + manifest.git_sha@,
{
    let mut m = "verified ".to_owned();
    m.append(decimal_text(summary.files_verified).as_str());
    m.append(" files for manifest ");
    m.append(manifest.git_sha.as_str());
    m
}

} // verus!
