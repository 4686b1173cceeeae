//! A map from texts to values that hands its keys out in order, and a set of texts.

use vstd::prelude::*;

use crate::text::{
    lemma_text_lt_irreflexive, lemma_text_lt_total, lemma_text_lt_transitive, same_text,
    text_before, text_lt, texts,
};

verus! {

/// Each text comes before the next ones; so none occurs twice.
pub open spec fn ascending(s: Seq<Seq<char>>) -> bool {
    forall|i: int, j: int| #![trigger s[i], s[j]] 0 <= i < j < s.len() ==> text_lt(s[i], s[j])
}

/// `s` lists the texts of `set` in order, each once.
pub open spec fn lists_set(s: Seq<Seq<char>>, set: Set<Seq<char>>) -> bool {
    &&& ascending(s)
    &&& forall|t: Seq<char>| #[trigger] s.contains(t) <==> set.contains(t)
}

/// The keys of pairs.
pub open spec fn keys_of<V>(s: Seq<(String, V)>) -> Seq<Seq<char>> {
    s.map_values(|p: (String, V)| p.0@)
}

/// The position of `key` among `keys`.
pub open spec fn position(keys: Seq<Seq<char>>, key: Seq<char>) -> int {
    choose|i: int| 0 <= i < keys.len() && keys[i] == key
}

/// A map from texts to values. Its keys come out in ascending order.
pub struct TextMap<V> {
    entries: Vec<(String, V)>,
}

impl<V> View for TextMap<V> {
    type V = Map<Seq<char>, V>;

    closed spec fn view(&self) -> Map<Seq<char>, V> {
        let keys = keys_of(self.entries@);
        Map::new(|k: Seq<char>| keys.contains(k), |k: Seq<char>| self.entries@[position(keys, k)].1)
    }
}

impl<V> TextMap<V> {
    #[verifier::type_invariant]
    spec fn ordered(&self) -> bool {
        ascending(keys_of(self.entries@))
    }

    /// The map without entries.
    pub fn new() -> (r: Self)
        ensures
            r@ == Map::<Seq<char>, V>::empty(),
    {
        TextMap { entries: Vec::new() }
    }

    proof fn lemma_position(s: Seq<(String, V)>, i: int)
        requires
            ascending(keys_of(s)),
            0 <= i < s.len(),
        ensures
            keys_of(s).contains(s[i].0@),
            position(keys_of(s), s[i].0@) == i,
    {
        let keys = keys_of(s);
        let j = position(keys, s[i].0@);
        lemma_text_lt_irreflexive(keys[i]);
        assert(keys[j] == keys[i]);
    }

    /// The first position whose key does not come before `key`.
    fn slot(&self, key: &str) -> (r: usize)
        ensures
            r <= self.entries@.len(),
            forall|i: int| 0 <= i < r ==> text_lt(#[trigger] self.entries@[i].0@, key@),
            r < self.entries@.len() ==> !text_lt(self.entries@[r as int].0@, key@),
    {
        let mut i: usize = 0;
        while i < self.entries.len() && text_before(self.entries[i].0.as_str(), key)
            invariant
                i <= self.entries@.len(),
                forall|j: int| 0 <= j < i ==> text_lt(#[trigger] self.entries@[j].0@, key@),
            decreases self.entries@.len() - i,
        {
            i += 1;
        }
        i
    }

    proof fn lemma_slot(s: Seq<(String, V)>, key: Seq<char>, at: int)
        requires
            ascending(keys_of(s)),
            0 <= at <= s.len(),
            forall|i: int| 0 <= i < at ==> text_lt(#[trigger] s[i].0@, key),
            at < s.len() ==> !text_lt(s[at].0@, key),
        ensures
            keys_of(s).contains(key) <==> at < s.len() && s[at].0@ == key,
            at < s.len() && s[at].0@ != key ==> text_lt(key, s[at].0@),
            forall|i: int| at < i < s.len() ==> text_lt(key, #[trigger] s[i].0@),
    {
        let keys = keys_of(s);
        if at < s.len() {
            lemma_text_lt_total(keys[at], key);
        }
        assert forall|i: int| at < i < s.len() implies text_lt(key, #[trigger] s[i].0@) by {
            assert(text_lt(keys[at], keys[i]));
            if keys[at] != key {
                lemma_text_lt_transitive(key, keys[at], keys[i]);
            }
        }
        if keys.contains(key) {
            lemma_text_lt_irreflexive(key);
        }
    }

    /// What becomes of the keys and the values where a pair is put in its place, instead of
    /// the one that was there with its key, if there was one.
    proof fn lemma_inserted(
        before: Seq<(String, V)>,
        s: Seq<(String, V)>,
        key: Seq<char>,
        at: int,
        d: int,
    )
        requires
            ascending(keys_of(before)),
            d == 0 || d == 1,
            0 <= at <= before.len() - d,
            s.len() == before.len() + 1 - d,
            s[at].0@ == key,
            d == 1 ==> before[at].0@ == key,
            forall|i: int| 0 <= i < at ==> #[trigger] s[i] == before[i],
            forall|i: int| at < i < s.len() ==> #[trigger] s[i] == before[i - 1 + d],
            forall|i: int| 0 <= i < at ==> text_lt(#[trigger] before[i].0@, key),
            forall|i: int| at + d <= i < before.len() ==> text_lt(key, #[trigger] before[i].0@),
        ensures
            ascending(keys_of(s)),
            forall|k: Seq<char>| #[trigger]
                keys_of(s).contains(k) <==> (k == key || keys_of(before).contains(k)),
            keys_of(s).contains(key),
            position(keys_of(s), key) == at,
            forall|k: Seq<char>|
                keys_of(s).contains(k) && k != key ==> #[trigger] s[position(keys_of(s), k)].1
                    == before[position(keys_of(before), k)].1,
    {
        let keys = keys_of(s);
        let bk = keys_of(before);
        assert forall|i: int, j: int|
            #![trigger keys[i], keys[j]]
            0 <= i < j < keys.len() implies text_lt(keys[i], keys[j]) by {
            let bi: int = if i < at { i } else { i - 1 + d };
            let bj: int = if j < at { j } else { j - 1 + d };
            if i != at {
                assert(keys[i] == bk[bi] && bk[bi] == before[bi].0@);
            }
            if j != at {
                assert(keys[j] == bk[bj] && bk[bj] == before[bj].0@);
            }
        }
        assert forall|k: Seq<char>| #[trigger] keys.contains(k) <==> (k == key || bk.contains(k)) by {
            assert(keys[at] == key);
            if keys.contains(k) {
                let i = position(keys, k);
                if i != at {
                    let bi: int = if i < at { i } else { i - 1 + d };
                    assert(bk[bi] == k);
                }
            }
            if bk.contains(k) && k != key {
                let bi = position(bk, k);
                let i: int = if bi < at { bi } else { bi + 1 - d };
                assert(keys[i] == k);
            }
        }
        Self::lemma_position(s, at);
        assert forall|k: Seq<char>| keys.contains(k) && k != key implies #[trigger] s[position(
            keys,
            k,
        )].1 == before[position(bk, k)].1 by {
            let i = position(keys, k);
            let bi: int = if i < at { i } else { i - 1 + d };
            Self::lemma_position(before, bi);
        }
    }

    /// The value under `key`.
    pub fn get(&self, key: &str) -> (r: Option<&V>)
        ensures
            match r {
                Some(v) => self@.contains_key(key@) && *v == self@[key@],
                None => !self@.contains_key(key@),
            },
    {
        proof {
            use_type_invariant(self);
        }
        let at: usize = self.slot(key);
        proof {
            Self::lemma_slot(self.entries@, key@, at as int);
        }
        if at < self.entries.len() && same_text(self.entries[at].0.as_str(), key) {
            Some(&self.entries[at].1)
        } else {
            None
        }
    }

    /// Puts `value` under `key`, in place of what was there.
    pub fn insert(&mut self, key: String, value: V)
        ensures
            final(self)@ == old(self)@.insert(key@, value),
    {
        proof {
            use_type_invariant(&*self);
        }
        let at: usize = self.slot(key.as_str());
        let mut entries: Vec<(String, V)> = Vec::new();
        let ghost before = self.entries@;
        proof {
            Self::lemma_slot(before, key@, at as int);
        }
        std::mem::swap(&mut entries, &mut self.entries);
        if at < entries.len() && same_text(entries[at].0.as_str(), key.as_str()) {
            let _ = entries.remove(at);
        }
        let ghost d: int = before.len() - entries@.len();
        entries.insert(at, (key, value));
        proof {
            Self::lemma_inserted(before, entries@, key@, at as int, d);
        }
        self.entries = entries;
    }

    /// The keys, in ascending order.
    pub fn keys(&self) -> (r: Vec<String>)
        ensures
            lists_set(texts(r@), self@.dom()),
    {
        proof {
            use_type_invariant(self);
        }
        let mut out: Vec<String> = Vec::new();
        let mut i: usize = 0;
        while i < self.entries.len()
            invariant
                i <= self.entries@.len(),
                texts(out@) == keys_of(self.entries@).take(i as int),
            decreases self.entries@.len() - i,
        {
            let ghost before = out@;
            out.push(self.entries[i].0.clone());
            proof {
                assert(texts(out@) =~= texts(before).push(self.entries@[i as int].0@));
            }
            i += 1;
        }
        proof {
            assert(texts(out@) =~= keys_of(self.entries@));
        }
        out
    }
}

/// A set of texts that comes out in ascending order.
pub struct TextSet {
    members: TextMap<()>,
}

impl View for TextSet {
    type V = Set<Seq<char>>;

    closed spec fn view(&self) -> Set<Seq<char>> {
        self.members@.dom()
    }
}

impl TextSet {
    /// The empty set.
    pub fn new() -> (r: Self)
        ensures
            r@ == Set::<Seq<char>>::empty(),
    {
        TextSet { members: TextMap::new() }
    }

    /// Puts a text into the set.
    pub fn insert(&mut self, text: String)
        ensures
            final(self)@ == old(self)@.insert(text@),
    {
        self.members.insert(text, ());
    }

    /// Whether the set holds `text`.
    pub fn contains(&self, text: &str) -> (r: bool)
        ensures
            r == self@.contains(text@),
    {
        self.members.get(text).is_some()
    }

    /// The texts of the set, in ascending order.
    pub fn members(&self) -> (r: Vec<String>)
        ensures
            lists_set(texts(r@), self@),
    {
        self.members.keys()
    }
}

} // verus!
