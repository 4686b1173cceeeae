//! Paths as text, as on Unix: components are separated by `/`, and a path that begins with
//! `/` is absolute.

use vstd::prelude::*;

use crate::text::{before_first, chars_of, first_of, lemma_first_of, same_text, text_of, texts};

verus! {

/// The path is absolute.
pub open spec fn is_absolute(p: Seq<char>) -> bool {
    p.len() > 0 && p[0] == '/'
}

/// `rel` below `base`. An absolute `rel` replaces `base`.
pub open spec fn join(base: Seq<char>, rel: Seq<char>) -> Seq<char> {
    if is_absolute(rel) {
        rel
    } else if base.len() == 0 || base.last() == '/' {
        base + rel
    } else {
        base + "/"@ + rel
    }
}

/// Whether the path is absolute.
pub fn path_is_absolute(p: &str) -> (r: bool)
    ensures
        r == is_absolute(p@),
{
    let v = chars_of(p);
    v.len() > 0 && v[0] == '/'
}

/// `rel` below `base`.
pub fn join_path(base: &str, rel: &str) -> (r: String)
    ensures
        r@ == join(base@, rel@),
{
    if path_is_absolute(rel) {
        return rel.to_owned();
    }
    let v = chars_of(base);
    let mut out = base.to_owned();
    if v.len() > 0 && v[v.len() - 1] != '/' {
        out.append("/");
    }
    out.append(rel);
    out
}

/// The path without the separators and `.` components that it ends with.
pub open spec fn trim_tail(p: Seq<char>) -> Seq<char>
    decreases p.len(),
{
    if p.len() > 1 && p.last() == '/' {
        trim_tail(p.drop_last())
    } else if p.len() > 1 && p.last() == '.' && p[p.len() - 2] == '/' {
        trim_tail(p.drop_last())
    } else {
        p
    }
}

/// The position after the last `/` before `end`; 0 where there is none.
pub open spec fn tail_start(p: Seq<char>) -> int
    decreases p.len(),
{
    if p.len() == 0 || p.last() == '/' {
        p.len() as int
    } else {
        tail_start(p.drop_last())
    }
}

/// `tail_start` is a position in the path.
pub proof fn lemma_tail_start(p: Seq<char>)
    ensures
        0 <= tail_start(p) <= p.len(),
    decreases p.len(),
{
    if p.len() > 0 && p.last() != '/' {
        lemma_tail_start(p.drop_last());
    }
}

/// The path without its last component. The root and the empty path have none.
pub open spec fn parent(p: Seq<char>) -> Option<Seq<char>> {
    let t = trim_tail(p);
    if t.len() == 0 || t == seq!['/'] {
        None
    } else {
        Some(trim_tail(t.take(tail_start(t))))
    }
}

/// The last component, where it is a name: not the root, `.` or `..`.
pub open spec fn file_name(p: Seq<char>) -> Option<Seq<char>> {
    let t = trim_tail(p);
    let name = t.skip(tail_start(t));
    if t.len() == 0 || t == seq!['/'] || name == seq!['.'] || name == seq!['.', '.'] {
        None
    } else {
        Some(name)
    }
}

/// Where the tail that `trim_tail` takes off begins.
fn trimmed_len(v: &Vec<char>, len: usize) -> (r: usize)
    requires
        len <= v@.len(),
    ensures
        r <= len,
        v@.take(r as int) == trim_tail(v@.take(len as int)),
    decreases len,
{
    let ghost p = v@.take(len as int);
    proof {
        if len > 0 {
            assert(p.drop_last() =~= v@.take(len - 1));
        }
    }
    if len > 1 && v[len - 1] == '/' {
        trimmed_len(v, len - 1)
    } else if len > 1 && v[len - 1] == '.' && v[len - 2] == '/' {
        trimmed_len(v, len - 1)
    } else {
        len
    }
}

fn name_start(v: &Vec<char>, len: usize) -> (r: usize)
    requires
        len <= v@.len(),
    ensures
        r <= len,
        r == tail_start(v@.take(len as int)),
    decreases len,
{
    proof {
        if len > 0 {
            assert(v@.take(len as int).drop_last() =~= v@.take(len - 1));
        }
    }
    if len == 0 || v[len - 1] == '/' {
        len
    } else {
        name_start(v, len - 1)
    }
}

/// The path without its last component.
pub fn parent_of(p: &str) -> (r: Option<String>)
    ensures
        r.deep_view() == parent(p@),
{
    let v = chars_of(p);
    let len: usize = trimmed_len(&v, v.len());
    proof {
        assert(v@.take(v@.len() as int) =~= v@);
    }
    let ghost t = trim_tail(v@);
    if len == 0 || (len == 1 && v[0] == '/') {
        proof {
            if len == 1 {
                assert(t =~= seq!['/']);
            }
        }
        return None;
    }
    let start: usize = name_start(&v, len);
    proof {
        assert(t.take(start as int) =~= v@.take(start as int));
    }
    let end: usize = trimmed_len(&v, start);
    Some(text_of(&v, 0, end))
}

/// The last component, where it is a name.
pub fn file_name_of(p: &str) -> (r: Option<String>)
    ensures
        r.deep_view() == file_name(p@),
{
    let v = chars_of(p);
    let len: usize = trimmed_len(&v, v.len());
    proof {
        assert(v@.take(v@.len() as int) =~= v@);
    }
    let ghost t = trim_tail(v@);
    let start: usize = name_start(&v, len);
    let ghost name = t.skip(start as int);
    let n: usize = len - start;
    proof {
        assert(name =~= v@.subrange(start as int, len as int));
        if len == 1 && v@[0] == '/' {
            assert(t =~= seq!['/']);
        }
        if n == 1 && v@[start as int] == '.' {
            assert(name =~= seq!['.']);
        }
        if name == seq!['.'] {
            assert(name[0] == v@[start as int]);
        }
        if n == 2 && v@[start as int] == '.' && v@[start + 1] == '.' {
            assert(name =~= seq!['.', '.']);
        }
    }
    if len == 0 || (len == 1 && v[0] == '/') {
        return None;
    }
    if n == 1 && v[start] == '.' {
        return None;
    }
    if n == 2 && v[start] == '.' && v[start + 1] == '.' {
        return None;
    }
    Some(text_of(&v, start, len))
}

/// The components of a path that are names or lead upwards, in their order.
pub open spec fn named(p: Seq<char>) -> Seq<Seq<char>>
    decreases p.len(),
{
    let k = first_of(p, '/');
    let head = p.take(k);
    let rest = if 0 <= k < p.len() {
        named(p.skip(k + 1))
    } else {
        Seq::empty()
    };
    if head == ""@ || head == "."@ {
        rest
    } else {
        seq![head] + rest
    }
}

/// The components of a path: what it starts from, if that is said, and the rest.
pub open spec fn components(p: Seq<char>) -> Seq<Seq<char>> {
    if is_absolute(p) {
        seq!["/"@] + named(p)
    } else if p.take(first_of(p, '/')) == "."@ {
        seq!["."@] + named(p)
    } else {
        named(p)
    }
}

/// The path is `dir`, or leads to something below it.
pub open spec fn below(p: Seq<char>, dir: Seq<char>) -> bool {
    components(dir).is_prefix_of(components(p))
}

fn push_named(out: &mut Vec<String>, p: &str)
    ensures
        texts(final(out)@) == texts(old(out)@) + named(p@),
    decreases p@.len(),
{
    let head = before_first(p, '/');
    let v = chars_of(p);
    let k: usize = chars_of(head.as_str()).len();
    proof {
        lemma_first_of(p@, '/');
    }
    let is_name = !same_text(head.as_str(), "") && !same_text(head.as_str(), ".");
    if is_name {
        out.push(head);
    }
    if k < v.len() {
        let rest = text_of(&v, k + 1, v.len());
        push_named(out, rest.as_str());
    }
}

fn path_components(p: &str) -> (r: Vec<String>)
    ensures
        texts(r@) == components(p@),
{
    let mut out: Vec<String> = Vec::new();
    if path_is_absolute(p) {
        out.push("/".to_owned());
    } else if same_text(before_first(p, '/').as_str(), ".") {
        out.push(".".to_owned());
    }
    push_named(&mut out, p);
    out
}

/// Whether the path is `dir`, or leads to something below it.
pub fn is_below(p: &str, dir: &str) -> (r: bool)
    ensures
        r == below(p@, dir@),
{
    let a = path_components(p);
    let b = path_components(dir);
    if b.len() > a.len() {
        return false;
    }
    let mut i: usize = 0;
    while i < b.len()
        invariant
            i <= b@.len() <= a@.len(),
            texts(a@) == components(p@),
            texts(b@) == components(dir@),
            forall|j: int| 0 <= j < i ==> #[trigger] texts(b@)[j] == texts(a@)[j],
        decreases b@.len() - i,
    {
        if !same_text(a[i].as_str(), b[i].as_str()) {
            proof {
                assert(texts(a@).subrange(0, b@.len() as int)[i as int] == texts(a@)[i as int]);
            }
            return false;
        }
        i += 1;
    }
    true
}

} // verus!
