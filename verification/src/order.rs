//! Stable sorting, over any type with a total preorder.

use vstd::prelude::*;

use crate::text::{
    lemma_text_le_transitive, lemma_text_lt_total, text_before, text_le, texts,
};

verus! {

/// A type whose values are ranked: any two can be compared, and ties are possible.
pub trait Ranked: Sized {
    /// `self` ranks before `other`, or with it.
    spec fn leq(&self, other: &Self) -> bool;

    /// Any two values can be compared.
    proof fn leq_total(a: &Self, b: &Self)
        ensures
            a.leq(b) || b.leq(a),
    ;

    /// The ranking is transitive.
    proof fn leq_transitive(a: &Self, b: &Self, c: &Self)
        requires
            a.leq(b),
            b.leq(c),
        ensures
            a.leq(c),
    ;

    /// Whether `self` ranks before `other`, or with it.
    fn not_after(&self, other: &Self) -> (r: bool)
        ensures
            r == self.leq(other),
    ;
}

/// The two rank alike.
pub open spec fn tied<T: Ranked>(a: T, b: T) -> bool {
    a.leq(&b) && b.leq(&a)
}

/// No value ranks before one that stands earlier.
pub open spec fn in_order<T: Ranked>(s: Seq<T>) -> bool {
    forall|i: int, j: int| #![trigger s[i], s[j]] 0 <= i < j < s.len() ==> s[i].leq(&s[j])
}

/// The values of `s` that rank like `r`, in their order.
pub open spec fn tied_with<T: Ranked>(s: Seq<T>, r: T) -> Seq<T> {
    s.filter(|x: T| tied(x, r))
}

/// `out` holds the values of `s` in order, and values that rank alike keep the order
/// that they have in `s`.
pub open spec fn stably_sorted<T: Ranked>(s: Seq<T>, out: Seq<T>) -> bool {
    &&& in_order(out)
    &&& out.to_multiset() == s.to_multiset()
    &&& forall|r: T| #[trigger] tied_with(out, r) == tied_with(s, r)
}

proof fn lemma_filter_one<T>(x: T, pred: spec_fn(T) -> bool)
    ensures
        seq![x].filter(pred) == (if pred(x) {
            seq![x]
        } else {
            Seq::<T>::empty()
        }),
{
    reveal(Seq::filter);
    assert(seq![x].drop_last().filter(pred) =~= Seq::<T>::empty());
}

/// Putting a value in front of the first that it does not rank after sorts it in.
proof fn lemma_sort_in<T: Ranked>(s: Seq<T>, out: Seq<T>, x: T, at: int)
    requires
        stably_sorted(s, out),
        0 <= at <= out.len(),
        forall|i: int| 0 <= i < at ==> !x.leq(&#[trigger] out[i]),
        at < out.len() ==> x.leq(&out[at]),
    ensures
        stably_sorted(seq![x] + s, out.insert(at, x)),
{
    let next = out.insert(at, x);
    let a = out.take(at);
    let b = out.skip(at);
    assert(out =~= a + b);
    assert(next =~= a + (seq![x] + b));
    assert forall|i: int, j: int|
        #![trigger next[i], next[j]]
        0 <= i < j < next.len() implies next[i].leq(&next[j]) by {
        if i < at && j == at {
            T::leq_total(&next[i], &x);
        } else if i == at {
            if j - 1 > at {
                T::leq_transitive(&x, &out[at], &out[j - 1]);
            }
        }
    }
    assert(next.to_multiset() =~= (seq![x] + s).to_multiset()) by {
        vstd::seq_lib::lemma_multiset_commutative(a, seq![x] + b);
        vstd::seq_lib::lemma_multiset_commutative(seq![x], b);
        vstd::seq_lib::lemma_multiset_commutative(a, b);
        vstd::seq_lib::lemma_multiset_commutative(seq![x], s);
    }
    assert forall|r: T| #[trigger] tied_with(next, r) == tied_with(seq![x] + s, r) by {
        let pred = |y: T| tied(y, r);
        T::leq_total(&x, &x);
        Seq::filter_distributes_over_add(a, seq![x] + b, pred);
        Seq::filter_distributes_over_add(seq![x], b, pred);
        Seq::filter_distributes_over_add(a, b, pred);
        Seq::filter_distributes_over_add(seq![x], s, pred);
        lemma_filter_one(x, pred);
        assert(tied_with(out, r) == tied_with(s, r));
        if pred(x) {
            assert forall|i: int| 0 <= i < a.len() implies !pred(#[trigger] a[i]) by {
                if pred(a[i]) {
                    T::leq_transitive(&x, &r, &a[i]);
                }
            }
            a.lemma_all_neg_filter_empty(pred);
        }
    }
}

/// The values of `v`, stably sorted.
pub fn sorted<T: Ranked>(v: Vec<T>) -> (r: Vec<T>)
    ensures
        stably_sorted(v@, r@),
{
    let mut rest = v;
    let mut out: Vec<T> = Vec::new();
    proof {
        assert(v@.skip(v@.len() as int) =~= out@);
    }
    while rest.len() > 0
        invariant
            rest@.len() <= v@.len(),
            rest@ == v@.take(rest@.len() as int),
            stably_sorted(v@.skip(rest@.len() as int), out@),
        decreases rest@.len(),
    {
        let ghost n = rest@.len();
        if let Some(x) = rest.pop() {
            let mut at: usize = 0;
            while at < out.len() && !x.not_after(&out[at])
                invariant
                    at <= out@.len(),
                    forall|i: int| 0 <= i < at ==> !x.leq(&#[trigger] out@[i]),
                decreases out@.len() - at,
            {
                at += 1;
            }
            proof {
                lemma_sort_in(v@.skip(n as int), out@, x, at as int);
                assert(seq![x] + v@.skip(n as int) =~= v@.skip(n - 1));
            }
            out.insert(at, x);
        }
    }
    out
}

/// `out` holds the values of `s` by ascending key, and values with the same key keep the
/// order that they have in `s`.
pub open spec fn by_key<T>(s: Seq<T>, out: Seq<T>, key: spec_fn(T) -> Seq<char>) -> bool {
    &&& forall|i: int, j: int|
        #![trigger out[i], out[j]]
        0 <= i < j < out.len() ==> text_le(key(out[i]), key(out[j]))
    &&& forall|k: Seq<char>| #[trigger] with_key(out, key, k) == with_key(s, key, k)
}

/// The values of `s` with the key `k`, in their order.
pub open spec fn with_key<T>(s: Seq<T>, key: spec_fn(T) -> Seq<char>, k: Seq<char>) -> Seq<T> {
    s.filter(|x: T| key(x) == k)
}

/// Choosing among views is choosing among what they are views of.
pub proof fn lemma_filter_map<T, W>(s: Seq<T>, v: spec_fn(T) -> W, p: spec_fn(W) -> bool)
    ensures
        s.map_values(v).filter(p) == s.filter(|x: T| p(v(x))).map_values(v),
    decreases s.len(),
{
    reveal(Seq::filter);
    if s.len() > 0 {
        lemma_filter_map(s.drop_last(), v, p);
        assert(s.map_values(v).drop_last() =~= s.drop_last().map_values(v));
    }
}

/// What is listed by key was there to be listed.
pub proof fn lemma_by_key_lists<T>(
    s: Seq<T>,
    out: Seq<T>,
    key: spec_fn(T) -> Seq<char>,
    i: int,
)
    requires
        by_key(s, out, key),
        0 <= i < out.len(),
    ensures
        s.contains(out[i]),
{
    let p = |x: T| key(x) == key(out[i]);
    out.lemma_filter_contains(p, i);
    assert(with_key(out, key, key(out[i])) == with_key(s, key, key(out[i])));
    s.lemma_filter_contains_rev(p, out[i]);
}

proof fn lemma_count_with_key<T>(s: Seq<T>, key: spec_fn(T) -> Seq<char>, x: T)
    ensures
        s.to_multiset().count(x) == with_key(s, key, key(x)).to_multiset().count(x),
    decreases s.len(),
{
    broadcast use vstd::seq_lib::group_to_multiset_ensures;

    if s.len() > 0 {
        let p = s.drop_last();
        lemma_count_with_key(p, key, x);
        lemma_with_key_last(s, key, key(x));
        assert(s =~= p.push(s.last()));
    } else {
        lemma_none_with_key(s, key, key(x));
        assert(s =~= Seq::<T>::empty());
    }
}

/// What is listed by key is as much as there was to be listed, and each value comes as often.
pub proof fn lemma_order_keeps_count<T>(s: Seq<T>, out: Seq<T>, key: spec_fn(T) -> Seq<char>)
    requires
        by_key(s, out, key),
    ensures
        out.to_multiset() == s.to_multiset(),
        out.len() == s.len(),
{
    broadcast use vstd::seq_lib::group_to_multiset_ensures;

    assert forall|x: T| out.to_multiset().count(x) == s.to_multiset().count(x) by {
        lemma_count_with_key(s, key, x);
        lemma_count_with_key(out, key, x);
        assert(with_key(out, key, key(x)) == with_key(s, key, key(x)));
    }
    assert(out.to_multiset() =~= s.to_multiset());
    out.to_multiset_ensures();
    s.to_multiset_ensures();
}

/// The last value comes last among those with its key.
proof fn lemma_with_key_last<T>(s: Seq<T>, key: spec_fn(T) -> Seq<char>, k: Seq<char>)
    requires
        s.len() > 0,
    ensures
        with_key(s, key, k) == if key(s.last()) == k {
            with_key(s.drop_last(), key, k).push(s.last())
        } else {
            with_key(s.drop_last(), key, k)
        },
{
    reveal(Seq::filter);
}

/// A value that shares its key with no other is alone with it.
pub proof fn lemma_alone_with_key<T>(s: Seq<T>, key: spec_fn(T) -> Seq<char>, i: int)
    requires
        0 <= i < s.len(),
        forall|j: int| 0 <= j < s.len() && j != i ==> key(#[trigger] s[j]) != key(s[i]),
    ensures
        with_key(s, key, key(s[i])) == seq![s[i]],
    decreases s.len(),
{
    let k = key(s[i]);
    let p = s.drop_last();
    lemma_with_key_last(s, key, k);
    if i == s.len() - 1 {
        assert forall|x: T| p.contains(x) implies key(x) != k by {
            let j = choose|j: int| 0 <= j < p.len() && p[j] == x;
            assert(s[j] == x);
        }
        lemma_none_with_key(p, key, k);
        assert(with_key(s, key, k) =~= seq![s[i]]);
    } else {
        assert forall|j: int| 0 <= j < p.len() && j != i implies key(#[trigger] p[j]) != key(
            p[i],
        ) by {
            assert(p[j] == s[j]);
        }
        lemma_alone_with_key(p, key, i);
        assert(key(s[s.len() - 1]) != k);
    }
}

/// Where no value has the key, there is none to choose.
pub proof fn lemma_none_with_key<T>(s: Seq<T>, key: spec_fn(T) -> Seq<char>, k: Seq<char>)
    requires
        forall|x: T| s.contains(x) ==> key(x) != k,
    ensures
        with_key(s, key, k) == Seq::<T>::empty(),
    decreases s.len(),
{
    if s.len() > 0 {
        lemma_with_key_last(s, key, k);
        assert(s.contains(s.last()));
        assert forall|x: T| s.drop_last().contains(x) implies key(x) != k by {
            let j = choose|j: int| 0 <= j < s.drop_last().len() && s.drop_last()[j] == x;
            assert(s[j] == x);
            assert(s.contains(x));
        }
        lemma_none_with_key(s.drop_last(), key, k);
    } else {
        assert(with_key(s, key, k) =~= Seq::<T>::empty()) by {
            reveal(Seq::filter);
        }
    }
}

/// What was there to be listed by key is listed.
pub proof fn lemma_order_lists_all<T>(
    s: Seq<T>,
    out: Seq<T>,
    key: spec_fn(T) -> Seq<char>,
    x: T,
)
    requires
        by_key(s, out, key),
        s.contains(x),
    ensures
        out.contains(x),
{
    let p = |y: T| key(y) == key(x);
    let i = choose|i: int| 0 <= i < s.len() && s[i] == x;
    s.lemma_filter_contains(p, i);
    assert(with_key(out, key, key(x)) == with_key(s, key, key(x)));
    out.lemma_filter_contains_rev(p, x);
}

/// Keys that come once are listed once.
pub proof fn lemma_order_keeps_once<T>(s: Seq<T>, out: Seq<T>, key: spec_fn(T) -> Seq<char>)
    requires
        by_key(s, out, key),
        forall|i: int, j: int|
            #![trigger s[i], s[j]]
            0 <= i < j < s.len() ==> key(s[i]) != key(s[j]),
    ensures
        forall|i: int, j: int|
            #![trigger out[i], out[j]]
            0 <= i < j < out.len() ==> key(out[i]) != key(out[j]),
{
    assert forall|i: int, j: int|
        #![trigger out[i], out[j]]
        0 <= i < j < out.len() implies key(out[i]) != key(out[j]) by {
        if key(out[i]) == key(out[j]) {
            let k = key(out[j]);
            lemma_by_key_lists(s, out, key, j);
            let n = choose|n: int| 0 <= n < s.len() && s[n] == out[j];
            assert forall|m: int| 0 <= m < s.len() && m != n implies key(#[trigger] s[m]) != key(
                s[n],
            ) by {
                if m < n {
                    assert(key(s[m]) != key(s[n]));
                } else {
                    assert(key(s[n]) != key(s[m]));
                }
            }
            lemma_alone_with_key(s, key, n);
            assert(with_key(out, key, k) == with_key(s, key, k));
            lemma_two_with_key(out, key, i, j);
        }
    }
}

/// Two values with a key are both chosen.
proof fn lemma_two_with_key<T>(s: Seq<T>, key: spec_fn(T) -> Seq<char>, i: int, j: int)
    requires
        0 <= i < j < s.len(),
        key(s[i]) == key(s[j]),
    ensures
        with_key(s, key, key(s[j])).len() >= 2,
    decreases s.len(),
{
    let k = key(s[j]);
    let p = s.drop_last();
    lemma_with_key_last(s, key, k);
    if j < p.len() {
        lemma_two_with_key(p, key, i, j);
    } else {
        p.lemma_filter_contains(|x: T| key(x) == k, i);
        assert(with_key(p, key, k).contains(p[i]));
    }
}

/// There is one order by key: two sequences that are in it, and hold the same values with
/// each key, are the same.
pub proof fn lemma_order_is_unique<T>(a: Seq<T>, b: Seq<T>, key: spec_fn(T) -> Seq<char>)
    requires
        by_key(a, b, key),
        by_key(b, a, key),
    ensures
        a == b,
    decreases a.len(),
{
    if a.len() == 0 {
        if b.len() > 0 {
            lemma_by_key_lists(a, b, key, 0);
        }
    } else if b.len() == 0 {
        lemma_by_key_lists(b, a, key, 0);
    } else {
        let k = key(a.last());
        let l = key(b.last());
        lemma_by_key_lists(b, a, key, a.len() - 1);
        lemma_by_key_lists(a, b, key, b.len() - 1);
        let i = choose|i: int| 0 <= i < b.len() && b[i] == a.last();
        let j = choose|j: int| 0 <= j < a.len() && a[j] == b.last();
        if k != l {
            assert(text_le(key(b[i]), key(b[b.len() - 1])));
            assert(text_le(key(a[j]), key(a[a.len() - 1])));
            lemma_text_lt_total(k, l);
        }
        assert(k == l);
        let pa = a.drop_last();
        let pb = b.drop_last();
        lemma_with_key_last(a, key, k);
        lemma_with_key_last(b, key, k);
        assert(with_key(b, key, k) == with_key(a, key, k));
        assert(with_key(a, key, k).last() == a.last());
        assert(with_key(b, key, k).last() == b.last());
        assert forall|m: Seq<char>| #[trigger] with_key(pa, key, m) == with_key(pb, key, m) by {
            lemma_with_key_last(a, key, m);
            lemma_with_key_last(b, key, m);
            assert(with_key(b, key, m) == with_key(a, key, m));
            if m == k {
                assert(with_key(pa, key, m) =~= with_key(a, key, m).drop_last());
                assert(with_key(pb, key, m) =~= with_key(b, key, m).drop_last());
            }
        }
        assert forall|m: Seq<char>| #[trigger] with_key(pb, key, m) == with_key(pa, key, m) by {
            assert(with_key(pa, key, m) == with_key(pb, key, m));
        }
        assert(by_key(pa, pb, key));
        assert(by_key(pb, pa, key));
        lemma_order_is_unique(pa, pb, key);
        assert(a =~= pa.push(a.last()));
        assert(b =~= pb.push(b.last()));
    }
}

/// Values that are sorted by the key of their view have their views sorted by that key.
pub proof fn lemma_sorted_views<T: Ranked, W>(
    s: Seq<T>,
    out: Seq<T>,
    v: spec_fn(T) -> W,
    key: spec_fn(W) -> Seq<char>,
)
    requires
        stably_sorted(s, out),
        forall|a: T, b: T| #[trigger] a.leq(&b) == text_le(key(v(a)), key(v(b))),
    ensures
        by_key(s.map_values(v), out.map_values(v), key),
{
    let sv = s.map_values(v);
    let ov = out.map_values(v);
    assert forall|k: Seq<char>| #[trigger] with_key(ov, key, k) == with_key(sv, key, k) by {
        let p = |w: W| key(w) == k;
        let q = |x: T| p(v(x));
        lemma_filter_map(s, v, p);
        lemma_filter_map(out, v, p);
        if exists|r: T| #[trigger] q(r) {
            let r = choose|r: T| #[trigger] q(r);
            let t = |x: T| tied(x, r);
            assert forall|x: T| #[trigger] t(x) == q(x) by {
                lemma_text_lt_total(key(v(x)), k);
            }
            assert(t =~= q);
            assert(tied_with(out, r) == tied_with(s, r));
        } else {
            s.lemma_all_neg_filter_empty(q);
            out.lemma_all_neg_filter_empty(q);
        }
    }
}

/// The texts of sorted strings are sorted.
pub proof fn lemma_sorted_texts(s: Seq<String>, out: Seq<String>)
    requires
        stably_sorted(s, out),
    ensures
        by_key(texts(s), texts(out), |t: Seq<char>| t),
{
    lemma_sorted_views(s, out, |x: String| x@, |t: Seq<char>| t);
}

impl Ranked for String {
    open spec fn leq(&self, other: &Self) -> bool {
        text_le(self@, other@)
    }

    proof fn leq_total(a: &Self, b: &Self) {
        lemma_text_lt_total(a@, b@);
    }

    proof fn leq_transitive(a: &Self, b: &Self, c: &Self) {
        lemma_text_le_transitive(a@, b@, c@);
    }

    fn not_after(&self, other: &Self) -> (r: bool) {
        !text_before(other.as_str(), self.as_str())
    }
}

/// Pairs are ranked by the text that they begin with.
impl<T> Ranked for (String, T) {
    open spec fn leq(&self, other: &Self) -> bool {
        text_le(self.0@, other.0@)
    }

    proof fn leq_total(a: &Self, b: &Self) {
        lemma_text_lt_total(a.0@, b.0@);
    }

    proof fn leq_transitive(a: &Self, b: &Self, c: &Self) {
        lemma_text_le_transitive(a.0@, b.0@, c.0@);
    }

    fn not_after(&self, other: &Self) -> (r: bool) {
        !text_before(other.0.as_str(), self.0.as_str())
    }
}

} // verus!
