//! A map from strings to strings that remembers the order in which its keys
//! were first inserted.

use crate::text::{lemma_texts_push, str_eq, texts};
use vstd::prelude::*;

verus! {

/// The mathematical model of a map: its entries in insertion order.
pub type Pairs = Seq<(Seq<char>, Seq<char>)>;

/// The position of the first entry with key `k`.
pub open spec fn position(m: Pairs, k: Seq<char>) -> Option<int>
    decreases m.len(),
{
    if m.len() == 0 {
        None
    } else {
        match position(m.drop_last(), k) {
            Some(i) => Some(i),
            None => if m.last().0 == k {
                Some(m.len() - 1)
            } else {
                None
            },
        }
    }
}

/// The value stored under `k`.
pub open spec fn lookup(m: Pairs, k: Seq<char>) -> Option<Seq<char>> {
    match position(m, k) {
        Some(i) => Some(m[i].1),
        None => None,
    }
}

/// Whether `k` is a key of `m`.
pub open spec fn has_key(m: Pairs, k: Seq<char>) -> bool {
    position(m, k) is Some
}

/// `m` with `v` stored under `k`: in place where `k` is a key already, at the
/// end otherwise.
pub open spec fn put(m: Pairs, k: Seq<char>, v: Seq<char>) -> Pairs {
    match position(m, k) {
        Some(i) => m.update(i, (k, v)),
        None => m.push((k, v)),
    }
}

/// `m` with every entry of `more` stored in it, in the order of `more`.
pub open spec fn put_all(m: Pairs, more: Pairs) -> Pairs
    decreases more.len(),
{
    if more.len() == 0 {
        m
    } else {
        put(put_all(m, more.drop_last()), more.last().0, more.last().1)
    }
}

/// No key occurs twice.
pub open spec fn distinct_keys(m: Pairs) -> bool {
    forall|i: int, j: int| 0 <= i < j < m.len() ==> m[i].0 != m[j].0
}

/// The keys of `m`, in order.
pub open spec fn keys(m: Pairs) -> Seq<Seq<char>> {
    m.map_values(|e: (Seq<char>, Seq<char>)| e.0)
}

/// `position` finds the first entry with the key, or none where there is none.
pub proof fn lemma_position(m: Pairs, k: Seq<char>)
    ensures
        match position(m, k) {
            Some(i) => 0 <= i < m.len() && m[i].0 == k && forall|j: int|
                0 <= j < i ==> m[j].0 != k,
            None => forall|j: int| 0 <= j < m.len() ==> m[j].0 != k,
        },
    decreases m.len(),
{
    if m.len() > 0 {
        let front = m.drop_last();
        lemma_position(front, k);
        assert(forall|j: int| 0 <= j < front.len() ==> front[j] == m[j]);
    }
}

/// An entry with key `k` that no entry with that key precedes is the one that
/// `position` finds.
pub proof fn lemma_position_is(m: Pairs, k: Seq<char>, i: int)
    requires
        0 <= i < m.len(),
        m[i].0 == k,
        forall|j: int| 0 <= j < i ==> m[j].0 != k,
    ensures
        position(m, k) == Some(i),
{
    lemma_position(m, k);
}

/// Storing a value keeps the keys distinct.
pub proof fn lemma_put_distinct(m: Pairs, k: Seq<char>, v: Seq<char>)
    requires
        distinct_keys(m),
    ensures
        distinct_keys(put(m, k, v)),
{
    lemma_position(m, k);
}

/// After storing `v` under `k`, `k` maps to `v` and every other key to what
/// it mapped to before.
pub proof fn lemma_lookup_put(m: Pairs, k: Seq<char>, v: Seq<char>, other: Seq<char>)
    ensures
        lookup(put(m, k, v), other) == if other == k {
            Some(v)
        } else {
            lookup(m, other)
        },
{
    let after = put(m, k, v);
    lemma_position(m, k);
    lemma_position(m, other);
    lemma_position(after, other);
    match position(m, other) {
        Some(i) => {
            lemma_position_is(after, other, i);
        },
        None => {
            if other == k {
                lemma_position_is(after, other, m.len() as int);
            }
        },
    }
}

/// After storing the entries of `more`, which have distinct keys, a key of
/// `more` maps to what `more` maps it to and every other key to what it
/// mapped to before.
pub proof fn lemma_lookup_put_all(m: Pairs, more: Pairs, k: Seq<char>)
    requires
        distinct_keys(more),
    ensures
        lookup(put_all(m, more), k) == if has_key(more, k) {
            lookup(more, k)
        } else {
            lookup(m, k)
        },
    decreases more.len(),
{
    if more.len() > 0 {
        let front = more.drop_last();
        let last = more.last();
        assert forall|i: int, j: int| 0 <= i < j < front.len() implies front[i].0
            != front[j].0 by {
            assert(front[i] == more[i] && front[j] == more[j]);
        }
        lemma_lookup_put_all(m, front, k);
        lemma_lookup_put(put_all(m, front), last.0, last.1, k);
        lemma_position(front, k);
        lemma_position(more, k);
        if k == last.0 {
            if position(front, k) is Some {
                let p = position(front, k)->0;
                assert(front[p] == more[p]);
                assert(more[p].0 != more[more.len() - 1].0);
            }
        }
    } else {
        lemma_position(more, k);
    }
}

/// A map from strings to strings. Its entries keep the order in which their
/// keys were first inserted; a key occurs at most once.
#[derive(Debug, PartialEq, Eq)]
pub struct StrMap {
    entries: Vec<(String, String)>,
}

impl View for StrMap {
    type V = Pairs;

    closed spec fn view(&self) -> Pairs {
        pairs_of(self.entries@)
    }
}

/// The views of a sequence of entries.
pub open spec fn pairs_of(entries: Seq<(String, String)>) -> Pairs {
    entries.map_values(|e: (String, String)| (e.0@, e.1@))
}

/// Taking the views commutes with appending one entry.
pub proof fn lemma_pairs_push(entries: Seq<(String, String)>, k: String, v: String)
    ensures
        pairs_of(entries.push((k, v))) == pairs_of(entries).push((k@, v@)),
{
    assert(pairs_of(entries.push((k, v))) =~= pairs_of(entries).push((k@, v@)));
}

impl Clone for StrMap {
    fn clone(&self) -> (m: Self)
        ensures
            m@ == self@,
    {
        self.copy()
    }
}

impl StrMap {
    #[verifier::type_invariant]
    spec fn keys_are_distinct(&self) -> bool {
        distinct_keys(self@)
    }

    /// The empty map.
    pub fn new() -> (m: StrMap)
        ensures
            m@ == Pairs::empty(),
    {
        let m = StrMap { entries: Vec::new() };
        assert(m@ =~= Pairs::empty());
        m
    }

    /// The number of entries, which have distinct keys.
    pub fn len(&self) -> (n: usize)
        ensures
            n == self@.len(),
            distinct_keys(self@),
    {
        proof {
            use_type_invariant(self);
        }
        self.entries.len()
    }

    /// Whether the map has no entry.
    pub fn is_empty(&self) -> (r: bool)
        ensures
            r == (self@.len() == 0),
    {
        self.entries.len() == 0
    }

    /// The key of the entry at position `i`.
    pub fn key_at(&self, i: usize) -> (k: &String)
        requires
            i < self@.len(),
        ensures
            k@ == self@[i as int].0,
    {
        &self.entries[i].0
    }

    /// The value of the entry at position `i`.
    pub fn value_at(&self, i: usize) -> (v: &String)
        requires
            i < self@.len(),
        ensures
            v@ == self@[i as int].1,
    {
        &self.entries[i].1
    }

    fn find(&self, key: &str) -> (r: Option<usize>)
        ensures
            match r {
                Some(i) => position(self@, key@) == Some(i as int) && i < self@.len(),
                None => position(self@, key@) is None,
            },
    {
        let mut i: usize = 0;
        while i < self.entries.len()
            invariant
                i <= self.entries.len(),
                forall|j: int| 0 <= j < i ==> self@[j].0 != key@,
            decreases self.entries.len() - i,
        {
            if str_eq(self.entries[i].0.as_str(), key) {
                proof {
                    lemma_position_is(self@, key@, i as int);
                }
                return Some(i);
            }
            i += 1;
        }
        proof {
            lemma_position(self@, key@);
        }
        None
    }

    /// The value stored under `key`.
    pub fn get(&self, key: &str) -> (r: Option<&String>)
        ensures
            match r {
                Some(v) => lookup(self@, key@) == Some(v@),
                None => lookup(self@, key@) is None,
            },
    {
        match self.find(key) {
            Some(i) => Some(&self.entries[i].1),
            None => None,
        }
    }

    /// Whether `key` is a key of the map.
    pub fn contains_key(&self, key: &str) -> (r: bool)
        ensures
            r == has_key(self@, key@),
    {
        self.find(key).is_some()
    }

    /// Stores `value` under `key`. A key that is in the map already keeps its
    /// position; a new key goes to the end.
    pub fn insert(&mut self, key: String, value: String)
        ensures
            final(self)@ == put(old(self)@, key@, value@),
    {
        proof {
            use_type_invariant(&*self);
            lemma_put_distinct(self@, key@, value@);
        }
        let found = self.find(key.as_str());
        let ghost before = self@;
        let mut entries: Vec<(String, String)> = Vec::new();
        std::mem::swap(&mut entries, &mut self.entries);
        match found {
            Some(i) => {
                entries.set(i, (key, value));
            },
            None => {
                entries.push((key, value));
            },
        }
        assert(pairs_of(entries@) =~= put(before, key@, value@));
        self.entries = entries;
    }

    /// Stores every entry of `more`, in the order of `more`.
    pub fn extend(&mut self, more: &StrMap)
        ensures
            final(self)@ == put_all(old(self)@, more@),
    {
        let mut i: usize = 0;
        assert(more@.take(0) =~= Pairs::empty());
        while i < more.len()
            invariant
                i <= more@.len(),
                self@ == put_all(old(self)@, more@.take(i as int)),
            decreases more@.len() - i,
        {
            assert(more@.take(i as int + 1).drop_last() =~= more@.take(i as int));
            let k = more.key_at(i).clone();
            let v = more.value_at(i).clone();
            self.insert(k, v);
            i += 1;
        }
        assert(more@.take(more@.len() as int) =~= more@);
    }

    /// A copy of the map.
    pub fn copy(&self) -> (m: StrMap)
        ensures
            m@ == self@,
    {
        proof {
            use_type_invariant(self);
        }
        let mut entries: Vec<(String, String)> = Vec::new();
        let mut i: usize = 0;
        while i < self.entries.len()
            invariant
                i <= self.entries.len(),
                pairs_of(entries@) == self@.take(i as int),
            decreases self.entries.len() - i,
        {
            let k = self.entries[i].0.clone();
            let v = self.entries[i].1.clone();
            proof {
                lemma_pairs_push(entries@, k, v);
                assert(self@.take(i as int + 1) =~= self@.take(i as int).push(self@[i as int]));
            }
            entries.push((k, v));
            i += 1;
        }
        assert(self@.take(self.entries.len() as int) =~= self@);
        StrMap { entries }
    }

    /// The keys, in insertion order.
    pub fn key_list(&self) -> (out: Vec<String>)
        ensures
            texts(out@) == keys(self@),
    {
        let mut out: Vec<String> = Vec::new();
        let mut i: usize = 0;
        while i < self.entries.len()
            invariant
                i <= self.entries.len(),
                texts(out@) == keys(self@).take(i as int),
            decreases self.entries.len() - i,
        {
            let k = self.entries[i].0.clone();
            proof {
                lemma_texts_push(out@, k);
                assert(keys(self@).take(i as int + 1) =~= keys(self@).take(i as int).push(
                    self@[i as int].0,
                ));
            }
            out.push(k);
            i += 1;
        }
        assert(keys(self@).take(self.entries.len() as int) =~= keys(self@));
        out
    }
}

} // verus!
