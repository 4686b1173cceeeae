//! Laws of paths.

use vstd::prelude::*;

use crate::laws::store::is_name;
use crate::paths::{
    components, file_name_of, is_below, join_path, named, parent_of, path_is_absolute, tail_start,
    trim_tail,
};
use crate::repo::resolve_path;
use crate::text::{first_of, lemma_first_of, lemma_first_of_is};

verus! {

/// Going on from a path by another: an absolute one is where one ends up; otherwise it is
/// the one behind the other, with one separator between them, unless the first is empty or
/// brings its own.
pub proof fn law_join_path(base: &str, rel: &str, r: String)
    requires
        call_ensures(join_path, (base, rel), r),
    ensures
        rel@.len() > 0 && rel@[0] == '/' ==> r@ == rel@,
        !(rel@.len() > 0 && rel@[0] == '/') ==> {
            &&& base@.len() == 0 ==> r@ == rel@
            &&& base@.len() > 0 && base@.last() == '/' ==> r@ == base@ + rel@
            &&& base@.len() > 0 && base@.last() != '/' ==> r@ == base@.push('/') + rel@
        },
{
    reveal_strlit("/");
    assert("/"@ =~= seq!['/']);
    assert(base@ + "/"@ + rel@ =~= base@.push('/') + rel@);
    if base@.len() == 0 {
        assert(base@ + rel@ =~= rel@);
    }
}

/// A path is absolute exactly if it begins with a separator.
pub proof fn law_path_is_absolute(p: &str, r: bool)
    requires
        call_ensures(path_is_absolute, (p,), r),
    ensures
        r <==> exists|rest: Seq<char>| p@ == #[trigger] (seq!['/'] + rest),
{
    if r {
        assert(p@ =~= seq!['/'] + p@.skip(1));
    }
}

/// A path is resolved from the root of the repository by going on from there.
pub proof fn law_resolve_path(repo_root: &str, path: &str, r: String, joined: String)
    requires
        call_ensures(resolve_path, (repo_root, path), r),
        call_ensures(join_path, (repo_root, path), joined),
    ensures
        r@ == joined@,
        path@.len() > 0 && path@[0] == '/' ==> r@ == path@,
{
}

/// A directory, as one writes it: not empty, and without a separator, or one and a dot, at
/// its end.
pub open spec fn is_plain(dir: Seq<char>) -> bool {
    &&& dir.len() > 0
    &&& dir.last() != '/'
    &&& !(dir.len() > 1 && dir.last() == '.' && dir[dir.len() - 2] == '/')
}

proof fn lemma_tail(lead: Seq<char>, name: Seq<char>)
    requires
        lead.len() == 0 || lead.last() == '/',
        !name.contains('/'),
    ensures
        tail_start(lead + name) == lead.len(),
    decreases name.len(),
{
    let p = lead + name;
    if name.len() > 0 {
        assert(name.contains(name.last()));
        assert(p.last() == name.last());
        assert(p.drop_last() =~= lead + name.drop_last());
        assert(!name.drop_last().contains('/')) by {
            if name.drop_last().contains('/') {
                let i = choose|i: int| 0 <= i < name.drop_last().len() && name.drop_last()[i] == '/';
                assert(name[i] == '/');
            }
        }
        lemma_tail(lead, name.drop_last());
    } else {
        assert(p =~= lead);
    }
}

proof fn lemma_named_file(lead: Seq<char>, name: Seq<char>)
    requires
        lead.len() == 0 || lead.last() == '/',
        is_name(name),
    ensures
        trim_tail(lead + name) == lead + name,
        (lead + name).skip(tail_start(lead + name)) == name,
        (lead + name).take(tail_start(lead + name)) == lead,
        lead + name != seq!['/'],
{
    let p = lead + name;
    lemma_tail(lead, name);
    assert(name.contains(name.last()));
    assert(p.last() == name.last());
    if p.last() == '.' && p.len() > 1 && p[p.len() - 2] == '/' {
        if name.len() == 1 {
            assert(name =~= seq!['.']);
        } else {
            assert(name.contains(name[name.len() - 2]));
            assert(p[p.len() - 2] == name[name.len() - 2]);
        }
    }
    assert(p.skip(lead.len() as int) =~= name);
    assert(p.take(lead.len() as int) =~= lead);
}

/// A second separator, or a dot between separators, makes no difference to the parent and the
/// name of a file. Two dots are no name, and their parent is what stands before them.
pub proof fn law_parent_is_tidy(
    p: &str,
    dir: Seq<char>,
    name: Seq<char>,
    up: Option<String>,
    own: Option<String>,
)
    requires
        is_name(name),
        is_plain(dir),
        call_ensures(parent_of, (p,), up),
        call_ensures(file_name_of, (p,), own),
    ensures
        p@ == dir.push('/').push('/') + name || p@ == dir.push('/').push('.').push('/') + name
            ==> up.deep_view() == Some(dir) && own.deep_view() == Some(name),
        p@ == dir.push('/') + seq!['.', '.'] ==> up.deep_view() == Some(dir) && own is None,
{
    let one = dir.push('/');
    let two = one.push('/');
    let dot = one.push('.');
    let more = dot.push('/');
    lemma_named_file(two, name);
    lemma_named_file(more, name);
    assert(one.drop_last() =~= dir);
    assert(two.drop_last() =~= one);
    assert(dot.drop_last() =~= one);
    assert(more.drop_last() =~= dot);
    assert(trim_tail(dir) == dir);
    assert(trim_tail(one) == dir);
    assert(trim_tail(two) == dir);
    assert(dot[dot.len() - 2] == '/');
    assert(trim_tail(dot) == dir);
    assert(trim_tail(more) == dir);
    if p@ == one + seq!['.', '.'] {
        lemma_tail(one, seq!['.', '.']);
        assert(p@.last() == '.' && p@[p@.len() - 2] == '.');
        assert(trim_tail(p@) == p@);
        assert(p@.skip(one.len() as int) =~= seq!['.', '.']);
        assert(p@.take(one.len() as int) =~= one);
    }
}

/// The parent of a file in a directory is that directory, and its name is its name. A file
/// without a directory has an empty one, and one at the top has the root. The root has
/// neither parent nor name, and neither has the empty path.
pub proof fn law_parent_and_name(
    p: &str,
    dir: Seq<char>,
    name: Seq<char>,
    up: Option<String>,
    own: Option<String>,
)
    requires
        is_name(name),
        call_ensures(parent_of, (p,), up),
        call_ensures(file_name_of, (p,), own),
    ensures
        is_plain(dir) && p@ == dir.push('/') + name ==> up.deep_view() == Some(dir)
            && own.deep_view() == Some(name),
        p@ == name ==> up.deep_view() == Some(Seq::<char>::empty()) && own.deep_view() == Some(name),
        p@ == seq!['/'] + name ==> up.deep_view() == Some(seq!['/']) && own.deep_view() == Some(
            name,
        ),
        p@.len() == 0 || p@ == seq!['/'] ==> up is None && own is None,
{
    reveal_with_fuel(trim_tail, 2);
    lemma_named_file(dir.push('/'), name);
    lemma_named_file(Seq::empty(), name);
    lemma_named_file(seq!['/'], name);
    if is_plain(dir) && p@ == dir.push('/') + name {
        assert(dir.push('/').drop_last() =~= dir);
        assert(trim_tail(dir.push('/')) == dir);
    }
    if p@ == name {
        assert(Seq::<char>::empty() + name =~= name);
    }
}

/// Separators at the end of a path do not count for its parent and its name.
pub proof fn law_trailing_separator(
    p: &str,
    q: &str,
    up: Option<String>,
    own: Option<String>,
    up_too: Option<String>,
    own_too: Option<String>,
)
    requires
        p@.len() > 0,
        q@ == p@.push('/'),
        call_ensures(parent_of, (p,), up),
        call_ensures(file_name_of, (p,), own),
        call_ensures(parent_of, (q,), up_too),
        call_ensures(file_name_of, (q,), own_too),
    ensures
        up.deep_view() == up_too.deep_view(),
        own.deep_view() == own_too.deep_view(),
{
    assert(q@.drop_last() =~= p@);
}

proof fn lemma_no_separator(a: Seq<char>, k: int)
    requires
        k == first_of(a, '/'),
    ensures
        0 <= k <= a.len(),
        forall|i: int| 0 <= i < k ==> a[i] != '/',
        k < a.len() ==> a[k] == '/',
{
    lemma_first_of(a, '/');
}

/// The names in a path are those before a separator and those behind it.
proof fn lemma_named_in_parts(a: Seq<char>, b: Seq<char>)
    ensures
        named(a.push('/') + b) == named(a) + named(b),
    decreases a.len(),
{
    let p = a.push('/') + b;
    let k = first_of(a, '/');
    lemma_no_separator(a, k);
    assert forall|i: int| 0 <= i < k implies p[i] != '/' by {
        assert(p[i] == a[i]);
    }
    assert(p[k] == '/');
    lemma_first_of_is(p, '/', k);
    assert(p.take(k) =~= a.take(k));
    if k < a.len() {
        let rest = a.skip(k + 1);
        assert(p.skip(k + 1) =~= rest.push('/') + b);
        lemma_named_in_parts(rest, b);
        assert(named(p) =~= named(a) + named(b));
    } else {
        assert(p.skip(k + 1) =~= b);
        assert(named(p) =~= named(a) + named(b));
    }
}

proof fn lemma_one_name(name: Seq<char>)
    requires
        !name.contains('/'),
    ensures
        is_name(name) ==> named(name) == seq![name],
        first_of(name, '/') == name.len(),
{
    reveal_strlit("");
    reveal_strlit(".");
    assert("."@ =~= seq!['.']);
    lemma_no_separator(name, first_of(name, '/'));
    let k = first_of(name, '/');
    if k < name.len() {
        assert(name.contains(name[k]));
    }
    assert(name.take(name.len() as int) =~= name);
    assert(seq![name] + Seq::<Seq<char>>::empty() =~= seq![name]);
}

proof fn lemma_components_in_parts(a: Seq<char>, b: Seq<char>)
    requires
        a.len() > 0,
    ensures
        components(a.push('/') + b) == components(a) + named(b),
{
    let p = a.push('/') + b;
    lemma_named_in_parts(a, b);
    let k = first_of(a, '/');
    lemma_no_separator(a, k);
    assert forall|i: int| 0 <= i < k implies p[i] != '/' by {
        assert(p[i] == a[i]);
    }
    assert(p[k] == '/');
    lemma_first_of_is(p, '/', k);
    assert(p.take(k) =~= a.take(k));
    assert(components(p) =~= components(a) + named(b));
}

/// What is written below a directory lies below it, at whatever depth, and so does the
/// directory itself; what lies below its neighbour does not.
pub proof fn law_is_below(
    p: &str,
    dir: &str,
    r: bool,
    base: Seq<char>,
    name: Seq<char>,
    other: Seq<char>,
    rest: Seq<char>,
)
    requires
        call_ensures(is_below, (p, dir), r),
        base.len() > 0,
        is_name(name),
        is_name(other),
    ensures
        p@ == dir@ ==> r,
        dir@.len() > 0 && p@ == dir@.push('/') + rest ==> r,
        name != other && dir@ == base.push('/') + name && (p@ == base.push('/') + other || p@
            == base.push('/') + (other.push('/') + rest) || p@ == base) ==> !r,
{
    if dir@.len() > 0 && p@ == dir@.push('/') + rest {
        lemma_components_in_parts(dir@, rest);
    }
    if name != other && dir@ == base.push('/') + name {
        let n = components(base).len() as int;
        lemma_one_name(name);
        lemma_one_name(other);
        lemma_components_in_parts(base, name);
        lemma_components_in_parts(base, other);
        lemma_components_in_parts(base, other.push('/') + rest);
        lemma_named_in_parts(other, rest);
        assert(components(dir@)[n] == name);
        assert(components(base.push('/') + other)[n] == other);
        assert(components(base.push('/') + (other.push('/') + rest))[n] == other);
    }
}

} // verus!
