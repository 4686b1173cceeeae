//! Which files of the content store a commit needs: its pointers are hydrated, and what
//! is read on the way is needed.

use vstd::prelude::*;
use vstd::utf8::*;

use crate::error::{told, Error};
use crate::keyed::{lists_set, TextSet};
use crate::order::{by_key, lemma_sorted_texts, sorted};
use crate::paths::{join, join_path};
use crate::pointers::{
    build_pointer_index, found_pointers, pointer_views, read_files, InfoView, PointerIndex,
    PointerView, XetFileInfo,
};
use crate::sync::layout::{included, sync_included};
use crate::text::{
    begins_with, contains_part, has_part, lower_text, lowered, texts, trim_text, trimmed,
};

verus! {

/// What a push of a commit needs.
pub struct ReachabilityPlan {
    pub git_sha: String,
    pub pointer_paths: Vec<String>,
    pub required_cas_relpaths: Vec<String>,
}

/// A read of a file of the content store: its path in the store, its path in the file
/// system, and what came of it.
pub struct CasRead {
    pub relpath: Seq<char>,
    pub path: Seq<char>,
    pub reply: Result<(), Seq<char>>,
}

/// What reads files from disk.
pub trait CasReader {
    /// What a reader promises of its reply for a file. One that promises nothing can leave
    /// this out.
    open spec fn answers(path: Seq<char>, reply: Result<(), Seq<char>>) -> bool {
        true
    }

    /// Reads a file, and says whether that succeeded.
    fn read_file(&mut self, path: &str) -> (r: Result<(), Error>)
        ensures
            Self::answers(path@, told(r)),
    ;
}

/// Access to the files of a content store.
pub trait CasFileAccess: Sized {
    /// The directory of the store.
    spec fn base(&self) -> Seq<char>;

    /// The reads so far.
    spec fn reads(&self) -> Seq<CasRead>;

    /// What the access keeps of the reads is in order.
    spec fn valid(&self) -> bool;

    /// Reads a file of the store.
    fn read_cas_relpath(&mut self, relpath: &str) -> (r: Result<(), Error>)
        ensures
            old(self).valid() ==> final(self).valid(),
            final(self).base() == old(self).base(),
            final(self).reads() == old(self).reads().push(
                (CasRead {
                    relpath: relpath@,
                    path: join(old(self).base(), relpath@),
                    reply: told(r),
                }),
            ),
    ;
}

/// What brings back the large file that a pointer stands for.
pub trait PointerHydrator: Sized {
    /// What a hydrator promises of the reads that it makes for a pointer, and of how that
    /// ends. One that promises nothing can leave this out.
    open spec fn hydrates(
        before: Self,
        after: Self,
        pointer: InfoView,
        reads: Seq<CasRead>,
        outcome: Result<(), Seq<char>>,
    ) -> bool {
        true
    }

    /// Reads what the pointer needs.
    fn hydrate_pointer<C: CasFileAccess>(&mut self, pointer: &XetFileInfo, cas: &mut C) -> (r:
        Result<(), Error>)
        requires
            can_be_cut(pointer@),
        ensures
            old(cas).valid() ==> final(cas).valid(),
            final(cas).base() == old(cas).base(),
            old(cas).reads().is_prefix_of(final(cas).reads()),
            Self::hydrates(
                *old(self),
                *final(self),
                pointer@,
                final(cas).reads().skip(old(cas).reads().len() as int),
                told(r),
            ),
    ;
}

/// The files that were read with success.
pub open spec fn read_well(reads: Seq<CasRead>) -> Set<Seq<char>> {
    Set::new(
        |p: Seq<char>|
            exists|i: int|
                0 <= i < reads.len() && (#[trigger] reads[i]).relpath == p && reads[i].reply is Ok,
    )
}

/// The reads were made in the store at `base`.
pub open spec fn made_in(base: Seq<char>, reads: Seq<CasRead>) -> bool {
    forall|i: int| 0 <= i < reads.len() ==> (#[trigger] reads[i]).path == join(base, reads[i].relpath)
}

/// Each read is one that such a reader made: it was handed this path and replied this.
pub open spec fn made_by<R: CasReader>(reads: Seq<CasRead>) -> bool {
    forall|i: int|
        0 <= i < reads.len() ==> R::answers((#[trigger] reads[i]).path, reads[i].reply)
}

/// Access that remembers which files were read.
pub struct TracingCasAccess<R: CasReader> {
    cas_root: String,
    reader: R,
    accessed: TextSet,
    log: Ghost<Seq<CasRead>>,
}

impl<R: CasReader> TracingCasAccess<R> {
    /// Access to the store at `cas_root`, with nothing read.
    pub fn new(cas_root: &str, reader: R) -> (r: Self)
        ensures
            r.valid(),
            r.base() == cas_root@,
            r.reads() == Seq::<CasRead>::empty(),
    {
        let accessed = TextSet::new();
        proof {
            assert(accessed@ =~= read_well(Seq::<CasRead>::empty()));
        }
        TracingCasAccess { cas_root: cas_root.to_owned(), reader, accessed, log: Ghost(Seq::empty()) }
    }

    /// The files that were read with success, in ascending order.
    pub fn accessed(self) -> (r: Vec<String>)
        requires
            self.valid(),
        ensures
            lists_set(texts(r@), read_well(self.reads())),
            made_in(self.base(), self.reads()),
            made_by::<R>(self.reads()),
    {
        self.accessed.members()
    }
}

proof fn lemma_read_well_push(reads: Seq<CasRead>, read: CasRead)
    ensures
        read_well(reads.push(read)) == if read.reply is Ok {
            read_well(reads).insert(read.relpath)
        } else {
            read_well(reads)
        },
{
    let all = reads.push(read);
    assert forall|p: Seq<char>| read_well(all).contains(p) == (read_well(reads).contains(p) || (
    read.reply is Ok && p == read.relpath)) by {
        if read_well(reads).contains(p) {
            let i = choose|i: int|
                0 <= i < reads.len() && (#[trigger] reads[i]).relpath == p && reads[i].reply is Ok;
            assert(all[i] == reads[i]);
        }
        assert(all[reads.len() as int] == read);
    }
}

impl<R: CasReader> CasFileAccess for TracingCasAccess<R> {
    closed spec fn base(&self) -> Seq<char> {
        self.cas_root@
    }

    closed spec fn reads(&self) -> Seq<CasRead> {
        self.log@
    }

    closed spec fn valid(&self) -> bool {
        &&& self.accessed@ == read_well(self.log@)
        &&& made_in(self.cas_root@, self.log@)
        &&& made_by::<R>(self.log@)
    }

    fn read_cas_relpath(&mut self, relpath: &str) -> (r: Result<(), Error>) {
        let path = join_path(self.cas_root.as_str(), relpath);
        let reply = self.reader.read_file(path.as_str());
        let ghost read = CasRead { relpath: relpath@, path: path@, reply: told(reply) };
        proof {
            lemma_read_well_push(self.log@, read);
        }
        if reply.is_ok() {
            self.accessed.insert(relpath.to_owned());
        }
        self.log = Ghost(self.log@.push(read));
        reply
    }
}

/// The hash that a pointer gives, as it is looked for in paths.
pub open spec fn token(text: Seq<char>) -> Seq<char> {
    lower_text(trim_text(text))
}

/// A text of at least 16 bytes can be cut after the sixteenth.
pub open spec fn cut_at_16(text: Seq<char>) -> bool {
    encode_utf8(text).len() >= 16 ==> is_char_boundary(encode_utf8(text), 16)
}

/// The first 16 bytes of a text.
pub open spec fn first_16(text: Seq<char>) -> Seq<char> {
    decode_utf8(encode_utf8(text).take(16))
}

/// What is looked for on account of one hash: the hash and, if it is long enough, its
/// beginning.
pub open spec fn tokens_of(text: Option<Seq<char>>) -> Seq<Seq<char>> {
    match text {
        None => Seq::empty(),
        Some(t) => if token(t).len() == 0 {
            Seq::empty()
        } else if encode_utf8(token(t)).len() >= 16 {
            seq![token(t), first_16(token(t))]
        } else {
            seq![token(t)]
        },
    }
}

/// What is looked for on account of a pointer.
pub open spec fn pointer_tokens(p: InfoView) -> Seq<Seq<char>> {
    tokens_of(p.hash) + tokens_of(p.cas_hash) + tokens_of(p.content_hash)
}

/// Every hash that the pointer gives can be cut. One in hexadecimal digits always can.
pub open spec fn can_be_cut(p: InfoView) -> bool {
    &&& p.hash matches Some(t) ==> cut_at_16(token(t))
    &&& p.cas_hash matches Some(t) ==> cut_at_16(token(t))
    &&& p.content_hash matches Some(t) ==> cut_at_16(token(t))
}

fn cuts(text: &Option<String>) -> (r: bool)
    ensures
        r == (text.deep_view() matches Some(t) ==> cut_at_16(token(t))),
{
    match text {
        None => true,
        Some(t) => {
            let trimmed_text = trimmed(t.as_str());
            let tok = lowered(trimmed_text.as_str());
            let bytes = tok.as_str().as_bytes();
            bytes.len() < 16 || tok.as_str().is_char_boundary(16)
        },
    }
}

/// Whether every hash that the pointer gives can be cut.
pub fn pointer_can_be_cut(pointer: &XetFileInfo) -> (r: bool)
    ensures
        r == can_be_cut(pointer@),
{
    cuts(&pointer.hash) && cuts(&pointer.cas_hash) && cuts(&pointer.content_hash)
}

fn push_tokens(out: &mut Vec<String>, text: &Option<String>)
    requires
        text.deep_view() matches Some(t) ==> cut_at_16(token(t)),
    ensures
        texts(final(out)@) == texts(old(out)@) + tokens_of(text.deep_view()),
{
    if let Some(t) = text {
        let trimmed_text = trimmed(t.as_str());
        let tok = lowered(trimmed_text.as_str());
        if !tok.as_str().is_empty() {
            let long = tok.as_str().as_bytes().len() >= 16;
            out.push(tok.clone());
            if long {
                let (head, _) = tok.as_str().split_at(16);
                let cut = head.to_owned();
                proof {
                    encode_utf8_decode_utf8(head@);
                }
                out.push(cut);
            }
        }
    }
}

/// One of the tokens stands in the path, whatever the case of its letters.
pub open spec fn names_token(relpath: Seq<char>, tokens: Seq<Seq<char>>) -> bool {
    exists|i: int| 0 <= i < tokens.len() && has_part(lower_text(relpath), #[trigger] tokens[i])
}

/// The files that a pointer needs: those whose path has one of its tokens in it or, if
/// there is none, all blocks of data. A pointer without tokens needs nothing.
pub open spec fn wanted(relpaths: Seq<Seq<char>>, tokens: Seq<Seq<char>>) -> Seq<Seq<char>> {
    let named = relpaths.filter(|p: Seq<char>| names_token(p, tokens));
    if tokens.len() == 0 {
        Seq::empty()
    } else if named.len() > 0 {
        named
    } else {
        relpaths.filter(|p: Seq<char>| "xorbs/"@.is_prefix_of(p))
    }
}

/// The reads go through a list, up to the first failure.
pub open spec fn read_in_turn(
    list: Seq<Seq<char>>,
    reads: Seq<CasRead>,
    outcome: Result<(), Seq<char>>,
) -> bool {
    &&& reads.len() <= list.len()
    &&& forall|i: int| 0 <= i < reads.len() ==> (#[trigger] reads[i]).relpath == list[i]
    &&& match outcome {
        Ok(_) => reads.len() == list.len() && forall|i: int|
            0 <= i < reads.len() ==> (#[trigger] reads[i]).reply is Ok,
        Err(e) => {
            &&& reads.len() > 0
            &&& reads.last().reply == Err::<(), Seq<char>>(e)
            &&& forall|i: int| 0 <= i < reads.len() - 1 ==> (#[trigger] reads[i]).reply is Ok
        },
    }
}

/// A hydrator that goes by the names of files: those of a content store carry hashes.
pub struct PointerHashHydrator {
    relpaths: Vec<String>,
}

impl View for PointerHashHydrator {
    type V = Seq<Seq<char>>;

    /// The files that take part, in ascending order.
    closed spec fn view(&self) -> Seq<Seq<char>> {
        texts(self.relpaths@)
    }
}

impl PointerHashHydrator {
    /// A hydrator for a store, given the files in it.
    pub fn new(files: Vec<String>) -> (r: Self)
        ensures
            by_key(
                texts(files@).filter(|p: Seq<char>| included(p)),
                r@,
                |p: Seq<char>| p,
            ),
    {
        let mut relpaths: Vec<String> = Vec::new();
        let mut i: usize = 0;
        let ghost takes_part = |p: Seq<char>| included(p);
        while i < files.len()
            invariant
                i <= files@.len(),
                takes_part == |p: Seq<char>| included(p),
                texts(relpaths@) == texts(files@).take(i as int).filter(takes_part),
            decreases files@.len() - i,
        {
            proof {
                reveal(Seq::filter);
                assert(texts(files@).take(i + 1).drop_last() =~= texts(files@).take(i as int));
            }
            if sync_included(files[i].as_str()) {
                relpaths.push(files[i].clone());
            }
            i += 1;
        }
        let relpaths_in_order = sorted(relpaths);
        proof {
            assert(texts(files@).take(i as int) =~= texts(files@));
            lemma_sorted_texts(relpaths@, relpaths_in_order@);
        }
        PointerHashHydrator { relpaths: relpaths_in_order }
    }

    /// What is looked for on account of a pointer.
    fn pointer_tokens(pointer: &XetFileInfo) -> (r: Vec<String>)
        requires
            can_be_cut(pointer@),
        ensures
            texts(r@) == pointer_tokens(pointer@),
    {
        let mut out: Vec<String> = Vec::new();
        push_tokens(&mut out, &pointer.hash);
        push_tokens(&mut out, &pointer.cas_hash);
        push_tokens(&mut out, &pointer.content_hash);
        out
    }

    /// The files that a pointer with these tokens needs.
    fn wanted_relpaths(&self, tokens: &Vec<String>) -> (r: Vec<String>)
        ensures
            texts(r@) == wanted(self@, texts(tokens@)),
    {
        let mut named: Vec<String> = Vec::new();
        let mut blocks: Vec<String> = Vec::new();
        let ghost is_named = |p: Seq<char>| names_token(p, texts(tokens@));
        let ghost is_block = |p: Seq<char>| "xorbs/"@.is_prefix_of(p);
        let mut i: usize = 0;
        while i < self.relpaths.len()
            invariant
                i <= self.relpaths@.len(),
                is_named == |p: Seq<char>| names_token(p, texts(tokens@)),
                is_block == |p: Seq<char>| "xorbs/"@.is_prefix_of(p),
                texts(named@) == self@.take(i as int).filter(is_named),
                texts(blocks@) == self@.take(i as int).filter(is_block),
            decreases self.relpaths@.len() - i,
        {
            proof {
                reveal(Seq::filter);
                assert(self@.take(i + 1).drop_last() =~= self@.take(i as int));
            }
            if has_token(self.relpaths[i].as_str(), tokens) {
                named.push(self.relpaths[i].clone());
            }
            if begins_with(self.relpaths[i].as_str(), "xorbs/") {
                blocks.push(self.relpaths[i].clone());
            }
            i += 1;
        }
        proof {
            assert(self@.take(i as int) =~= self@);
        }
        if tokens.len() == 0 {
            Vec::new()
        } else if named.len() > 0 {
            named
        } else {
            blocks
        }
    }
}

/// Whether one of the tokens stands in the path.
fn has_token(relpath: &str, tokens: &Vec<String>) -> (r: bool)
    ensures
        r == names_token(relpath@, texts(tokens@)),
{
    let lower = lowered(relpath);
    let mut i: usize = 0;
    while i < tokens.len()
        invariant
            i <= tokens@.len(),
            lower@ == lower_text(relpath@),
            forall|j: int|
                0 <= j < i ==> !has_part(lower_text(relpath@), #[trigger] texts(tokens@)[j]),
        decreases tokens@.len() - i,
    {
        proof {
            assert(texts(tokens@)[i as int] == tokens@[i as int]@);
        }
        if contains_part(lower.as_str(), tokens[i].as_str()) {
            return true;
        }
        i += 1;
    }
    false
}

impl PointerHydrator for PointerHashHydrator {
    open spec fn hydrates(
        before: Self,
        after: Self,
        pointer: InfoView,
        reads: Seq<CasRead>,
        outcome: Result<(), Seq<char>>,
    ) -> bool {
        &&& after@ == before@
        &&& read_in_turn(wanted(before@, pointer_tokens(pointer)), reads, outcome)
    }

    fn hydrate_pointer<C: CasFileAccess>(&mut self, pointer: &XetFileInfo, cas: &mut C) -> (r:
        Result<(), Error>) {
        let tokens = Self::pointer_tokens(pointer);
        let list = self.wanted_relpaths(&tokens);
        let ghost reads0 = cas.reads();
        let ghost base = cas.base();
        let ghost sound = cas.valid();
        let mut i: usize = 0;
        while i < list.len()
            invariant
                i <= list@.len(),
                self@ == old(self)@,
                texts(list@) == wanted(self@, pointer_tokens(pointer@)),
                sound == old(cas).valid(),
                base == old(cas).base(),
                reads0 == old(cas).reads(),
                sound ==> cas.valid(),
                cas.base() == base,
                reads0.is_prefix_of(cas.reads()),
                cas.reads().len() == reads0.len() + i,
                forall|j: int|
                    0 <= j < i ==> (#[trigger] cas.reads().skip(reads0.len() as int)[j]).relpath
                        == texts(list@)[j] && cas.reads().skip(reads0.len() as int)[j].reply is Ok,
            decreases list@.len() - i,
        {
            let ghost before = cas.reads();
            let r = cas.read_cas_relpath(list[i].as_str());
            proof {
                assert(cas.reads().skip(reads0.len() as int) =~= before.skip(reads0.len() as int).push(
                    cas.reads().last(),
                ));
            }
            if let Err(e) = r {
                return Err(e);
            }
            i += 1;
        }
        Ok(())
    }
}

/// The index of a commit, and whether it is new and to be kept: the one that is kept
/// where there is one, and else one that is built from the files of the commit.
pub fn load_or_build_pointer_index(
    cached: Option<PointerIndex>,
    git_sha: &str,
    repo_id: &str,
    files: &Vec<(String, Vec<u8>)>,
) -> (r: (PointerIndex, bool))
    ensures
        match cached {
            Some(index) => r == (index, false),
            None => {
                &&& r.1
                &&& r.0.repo_id@ == repo_id@
                &&& r.0.git_sha@ == git_sha@
                &&& by_key(
                    found_pointers(read_files(files@)),
                    pointer_views(r.0.entries@),
                    |p: PointerView| p.path,
                )
            },
        },
{
    match cached {
        Some(index) => (index, false),
        None => (build_pointer_index(git_sha, repo_id, files), true),
    }
}

/// The pointers were hydrated one after the other, with success, by `reads`.
pub open spec fn hydrated<H: PointerHydrator>(
    entries: Seq<PointerView>,
    before: H,
    after: H,
    reads: Seq<CasRead>,
) -> bool
    decreases entries.len(),
{
    if entries.len() == 0 {
        reads.len() == 0 && after == before
    } else {
        exists|mid: H, k: int|
            {
                &&& 0 <= k <= reads.len()
                &&& #[trigger] H::hydrates(
                    mid,
                    after,
                    entries.last().file_info,
                    reads.skip(k),
                    Ok(()),
                )
                &&& hydrated(entries.drop_last(), before, mid, reads.take(k))
            }
    }
}

/// The pointers were hydrated one after the other, by `reads`, until one could not be,
/// for the reason `e`.
pub open spec fn hydration_failed<H: PointerHydrator>(
    entries: Seq<PointerView>,
    before: H,
    after: H,
    reads: Seq<CasRead>,
    e: Seq<char>,
) -> bool {
    exists|n: int, mid: H, k: int|
        {
            &&& 0 <= n < entries.len()
            &&& 0 <= k <= reads.len()
            &&& hydrated(entries.take(n), before, mid, reads.take(k))
            &&& #[trigger] H::hydrates(
                mid,
                after,
                (#[trigger] entries[n]).file_info,
                reads.skip(k),
                Err(e),
            )
        }
}

/// The paths of the pointers.
pub open spec fn pointer_paths_of(entries: Seq<PointerView>) -> Seq<Seq<char>> {
    entries.map_values(|p: PointerView| p.path)
}

/// Hydrates the pointers of a commit. The files that were read on the way, in the store at
/// `cas_root`, are those that the commit needs.
pub fn plan_reachable_cas<R: CasReader, H: PointerHydrator>(
    index: &PointerIndex,
    cas_root: &str,
    git_sha: &str,
    reader: R,
    hydrator: &mut H,
) -> (r: Result<ReachabilityPlan, Error>)
    requires
        forall|i: int|
            0 <= i < index.entries@.len() ==> can_be_cut((#[trigger] index.entries@[i]).file_info@),
    ensures
        exists|reads: Seq<CasRead>|
            {
                &&& #[trigger] made_in(cas_root@, reads)
                &&& made_by::<R>(reads)
                &&& match r {
                    Ok(plan) => {
                        &&& hydrated(
                            pointer_views(index.entries@),
                            *old(hydrator),
                            *final(hydrator),
                            reads,
                        )
                        &&& plan.git_sha@ == git_sha@
                        &&& by_key(
                            pointer_paths_of(pointer_views(index.entries@)),
                            texts(plan.pointer_paths@),
                            |p: Seq<char>| p,
                        )
                        &&& lists_set(texts(plan.required_cas_relpaths@), read_well(reads))
                    },
                    Err(e) => hydration_failed(
                        pointer_views(index.entries@),
                        *old(hydrator),
                        *final(hydrator),
                        reads,
                        e@,
                    ),
                }
            },
{
    let ghost views = pointer_views(index.entries@);
    let mut paths: Vec<String> = Vec::new();
    let mut access = TracingCasAccess::new(cas_root, reader);
    let mut i: usize = 0;
    while i < index.entries.len()
        invariant
            i <= index.entries@.len(),
            views == pointer_views(index.entries@),
            texts(paths@) == pointer_paths_of(views).take(i as int),
        decreases index.entries@.len() - i,
    {
        paths.push(index.entries[i].path.clone());
        proof {
            assert(pointer_paths_of(views).take(i + 1) =~= pointer_paths_of(views).take(
                i as int,
            ).push(views[i as int].path));
        }
        i += 1;
    }
    proof {
        assert(texts(paths@) =~= pointer_paths_of(views));
    }
    let pointer_paths = sorted(paths);
    proof {
        lemma_sorted_texts(paths@, pointer_paths@);
    }

    let mut i: usize = 0;
    while i < index.entries.len()
        invariant
            i <= index.entries@.len(),
            views == pointer_views(index.entries@),
            forall|j: int|
                0 <= j < index.entries@.len() ==> can_be_cut(
                    (#[trigger] index.entries@[j]).file_info@,
                ),
            access.valid(),
            access.base() == cas_root@,
            hydrated(views.take(i as int), *old(hydrator), *hydrator, access.reads()),
        decreases index.entries@.len() - i,
    {
        let ghost mid = *hydrator;
        let ghost reads0 = access.reads();
        let done = hydrator.hydrate_pointer(&index.entries[i].file_info, &mut access);
        let ghost reads1 = access.reads();
        proof {
            assert(views.take(i + 1).drop_last() =~= views.take(i as int));
        }
        if let Err(e) = done {
            proof {
                assert(H::hydrates(
                    mid,
                    *hydrator,
                    views[i as int].file_info,
                    reads1.skip(reads0.len() as int),
                    Err(e@),
                ));
            }
            return Err(e);
        }
        i += 1;
    }
    proof {
        assert(views.take(i as int) =~= views);
    }
    let required_cas_relpaths = access.accessed();
    Ok(ReachabilityPlan { git_sha: git_sha.to_owned(), pointer_paths, required_cas_relpaths })
}

proof fn lemma_hash_hydrator_reads(
    entries: Seq<PointerView>,
    before: PointerHashHydrator,
    after: PointerHashHydrator,
    reads: Seq<CasRead>,
)
    requires
        hydrated(entries, before, after, reads),
    ensures
        after@ == before@,
        forall|p: Seq<char>| #[trigger]
            read_well(reads).contains(p) <==> needed_by(before@, entries, p),
    decreases entries.len(),
{
    if entries.len() > 0 {
        let (mid, k) = choose|mid: PointerHashHydrator, k: int|
            {
                &&& 0 <= k <= reads.len()
                &&& #[trigger] PointerHashHydrator::hydrates(
                    mid,
                    after,
                    entries.last().file_info,
                    reads.skip(k),
                    Ok(()),
                )
                &&& hydrated(entries.drop_last(), before, mid, reads.take(k))
            };
        lemma_hash_hydrator_reads(entries.drop_last(), before, mid, reads.take(k));
        let list = wanted(before@, pointer_tokens(entries.last().file_info));
        let n = entries.len() - 1;
        assert forall|p: Seq<char>| #[trigger] read_well(reads).contains(p) implies needed_by(
            before@,
            entries,
            p,
        ) by {
            let i = choose|i: int|
                0 <= i < reads.len() && (#[trigger] reads[i]).relpath == p && reads[i].reply is Ok;
            if i < k {
                assert(reads.take(k)[i] == reads[i]);
                assert(read_well(reads.take(k)).contains(p));
                assert(needed_by(before@, entries.drop_last(), p));
            } else {
                assert(reads.skip(k)[i - k] == reads[i]);
            }
        }
        assert forall|p: Seq<char>| needed_by(before@, entries, p) implies #[trigger] read_well(
            reads,
        ).contains(p) by {
            let j = choose|j: int|
                0 <= j < entries.len() && wanted(
                    before@,
                    pointer_tokens((#[trigger] entries[j]).file_info),
                ).contains(p);
            if j < n {
                assert(entries.drop_last()[j] == entries[j]);
                assert(read_well(reads.take(k)).contains(p));
            } else {
                let i = choose|i: int| 0 <= i < list.len() && list[i] == p;
                assert(reads[k + i] == reads.skip(k)[i]);
            }
        }
    }
}

/// One of the pointers needs the file, in a store with these files.
pub open spec fn needed_by(
    relpaths: Seq<Seq<char>>,
    entries: Seq<PointerView>,
    p: Seq<char>,
) -> bool {
    exists|i: int|
        0 <= i < entries.len() && wanted(
            relpaths,
            pointer_tokens((#[trigger] entries[i]).file_info),
        ).contains(p)
}

/// A plan that is made by the names of files requires exactly the files that one of the
/// pointers needs, and they are among those of the store.
pub proof fn lemma_plan_requires_what_is_needed(
    entries: Seq<PointerView>,
    before: PointerHashHydrator,
    after: PointerHashHydrator,
    reads: Seq<CasRead>,
)
    requires
        hydrated(entries, before, after, reads),
    ensures
        forall|p: Seq<char>| #[trigger]
            read_well(reads).contains(p) <==> needed_by(before@, entries, p),
        forall|p: Seq<char>| #[trigger] read_well(reads).contains(p) ==> before@.contains(p),
{
    lemma_hash_hydrator_reads(entries, before, after, reads);
    assert forall|p: Seq<char>| #[trigger] read_well(reads).contains(p) implies before@.contains(
        p,
    ) by {
        let i = choose|i: int|
            0 <= i < entries.len() && wanted(
                before@,
                pointer_tokens((#[trigger] entries[i]).file_info),
            ).contains(p);
        let tokens = pointer_tokens(entries[i].file_info);
        let named = |q: Seq<char>| names_token(q, tokens);
        let block = |q: Seq<char>| "xorbs/"@.is_prefix_of(q);
        if before@.filter(named).contains(p) {
            before@.lemma_filter_contains_rev(named, p);
        } else {
            before@.lemma_filter_contains_rev(block, p);
        }
    }
}

} // verus!
