//! A map from texts to values that keeps the order of insertion.

use std::collections::HashMap;

use vstd::prelude::*;
use vstd::std_specs::iter::IteratorSpec;

use crate::text::same;

verus! {

broadcast use vstd::std_specs::hash::group_hash_axioms;

/// The hash of a text, character by character.
pub closed spec fn text_hash(s: Seq<char>) -> u64
    decreases s.len(),
{
    if s.len() == 0 {
        7
    } else {
        ((text_hash(s.drop_last()) as int * 31 + s.last() as u32) % 0x1_0000_0000_0000_0000) as u64
    }
}

fn hash_of(s: &str) -> (r: u64)
    ensures
        r == text_hash(s@),
{
    let mut h: u64 = 7;
    let items = s.chars();
    let ghost all = items.remaining();
    for c in it: items
        invariant
            it.seq() == all,
            h == text_hash(all.take(it.index())),
    {
        assert(all.take(it.index() + 1).drop_last() =~= all.take(it.index()));
        h = ((h as u128 * 31 + (c as u32) as u128) % 0x1_0000_0000_0000_0000) as u64;
    }
    assert(all.take(all.len() as int) =~= all);
    h
}

/// Keys and values in order of insertion.
pub struct TextMap<V> {
    entries: Vec<(String, V)>,
    buckets: HashMap<u64, Vec<usize>>,
}

/// The first position of a key.
pub open spec fn key_position<V>(entries: Seq<(Seq<char>, V)>, key: Seq<char>) -> Option<int>
    decreases entries.len(),
{
    if entries.len() == 0 {
        None
    } else {
        match key_position(entries.drop_last(), key) {
            Some(i) => Some(i),
            None => if entries.last().0 == key {
                Some(entries.len() - 1)
            } else {
                None
            },
        }
    }
}

/// The value of a key.
pub open spec fn lookup<V>(entries: Seq<(Seq<char>, V)>, key: Seq<char>) -> Option<V> {
    match key_position(entries, key) {
        Some(i) => Some(entries[i].1),
        None => None,
    }
}

/// The entries with one key set.
pub open spec fn with_entry<V>(entries: Seq<(Seq<char>, V)>, key: Seq<char>, value: V) -> Seq<(Seq<char>, V)> {
    match key_position(entries, key) {
        Some(i) => entries.update(i, (key, value)),
        None => entries.push((key, value)),
    }
}

pub proof fn lemma_key_position<V>(entries: Seq<(Seq<char>, V)>, key: Seq<char>)
    ensures
        match key_position(entries, key) {
            Some(i) => 0 <= i < entries.len() && entries[i].0 == key && forall|j: int|
                0 <= j < i ==> (#[trigger] entries[j]).0 != key,
            None => forall|j: int| 0 <= j < entries.len() ==> (#[trigger] entries[j]).0 != key,
        },
    decreases entries.len(),
{
    if entries.len() > 0 {
        let front = entries.drop_last();
        lemma_key_position(front, key);
        assert forall|j: int| 0 <= j < front.len() implies front[j] == entries[j] by {}
    }
}

/// Setting a key leaves the others as they were.
pub proof fn lemma_other_key<V>(entries: Seq<(Seq<char>, V)>, key: Seq<char>, value: V, other: Seq<char>)
    requires
        other != key,
    ensures
        lookup(with_entry(entries, key, value), other) == lookup(entries, other),
{
    let after = with_entry(entries, key, value);
    lemma_key_position(entries, key);
    lemma_key_position(entries, other);
    lemma_key_position(after, other);
    assert forall|j: int| 0 <= j < entries.len() implies (#[trigger] after[j]).0 == entries[j].0 by {}
    match (key_position(entries, other), key_position(after, other)) {
        (Some(i), Some(k)) => {
            assert(after[i].0 == other);
            assert(k <= i);
            assert(entries[k].0 == other);
        },
        (Some(i), None) => {
            assert(after[i].0 == other);
        },
        (None, Some(k)) => {
            if k < entries.len() {
                assert(entries[k].0 == other);
            }
        },
        (None, None) => {},
    }
}

/// A key that was set is found with its value.
pub proof fn lemma_with_entry<V>(entries: Seq<(Seq<char>, V)>, key: Seq<char>, value: V)
    ensures
        lookup(with_entry(entries, key, value), key) == Some(value),
{
    let after = with_entry(entries, key, value);
    lemma_key_position(entries, key);
    lemma_key_position(after, key);
    match key_position(entries, key) {
        Some(i) => {
            assert(after[i].0 == key);
            let k = key_position(after, key)->0;
            if k < i {
                assert(after[k].0 == entries[k].0);
            }
        },
        None => {
            assert(after[entries.len() as int].0 == key);
            let k = key_position(after, key)->0;
            if k < entries.len() {
                assert(after[k].0 == entries[k].0);
            }
        },
    }
}

impl<V> TextMap<V> {
    /// The entries in order of insertion.
    pub closed spec fn entries(self) -> Seq<(Seq<char>, V)> {
        self.entries@.map_values(|e: (String, V)| (e.0@, e.1))
    }

    #[verifier::type_invariant]
    spec fn indexed(self) -> bool {
        &&& forall|i: int, j: int|
            #![trigger self.entries@[i], self.entries@[j]]
            0 <= i < j < self.entries@.len() ==> self.entries@[i].0@ != self.entries@[j].0@
        &&& forall|i: int|
            0 <= i < self.entries@.len() ==> #[trigger] in_bucket(
                self.buckets@,
                text_hash(self.entries@[i].0@),
                i,
            )
        &&& forall|h: u64, k: int|
            #![trigger self.buckets@[h]@[k]]
            self.buckets@.contains_key(h) && 0 <= k < self.buckets@[h]@.len() ==> self.buckets@[h]@[k]
                < self.entries@.len()
    }

    pub fn new() -> (r: Self)
        ensures
            r.entries() == Seq::<(Seq<char>, V)>::empty(),
    {
        let r = TextMap { entries: Vec::new(), buckets: HashMap::new() };
        assert(r.entries() =~= Seq::<(Seq<char>, V)>::empty());
        r
    }

    /// The number of entries.
    pub fn len(&self) -> (r: usize)
        ensures
            r == self.entries().len(),
    {
        self.entries.len()
    }

    /// The key at a position; it stands nowhere else.
    pub fn key_at(&self, i: usize) -> (r: &String)
        requires
            i < self.entries().len(),
        ensures
            r@ == self.entries()[i as int].0,
            forall|j: int| 0 <= j < self.entries().len() && j != i ==> (#[trigger] self.entries()[j]).0 != r@,
    {
        proof {
            use_type_invariant(self);
            let es = self.entries();
            assert forall|j: int| 0 <= j < es.len() && j != i implies (#[trigger] es[j]).0 != es[i as int].0 by {
                assert(es[j].0 == self.entries@[j].0@);
                assert(es[i as int].0 == self.entries@[i as int].0@);
            }
        }
        &self.entries[i].0
    }

    /// The value at a position.
    pub fn value_at(&self, i: usize) -> (r: &V)
        requires
            i < self.entries().len(),
        ensures
            *r == self.entries()[i as int].1,
    {
        &self.entries[i].1
    }

    /// The position of a key.
    pub fn find(&self, key: &str) -> (r: Option<usize>)
        ensures
            match r {
                Some(i) => i < self.entries().len() && key_position(self.entries(), key@) == Some(i as int),
                None => key_position(self.entries(), key@) is None,
            },
    {
        proof {
            use_type_invariant(self);
            lemma_key_position(self.entries(), key@);
        }
        let h: u64 = hash_of(key);
        let ghost es = self.entries();
        match self.buckets.get(&h) {
            None => {
                proof {
                    if let Some(i) = key_position(es, key@) {
                        assert(es[i].0 == self.entries@[i].0@);
                        assert(in_bucket(self.buckets@, text_hash(self.entries@[i].0@), i));
                    }
                }
                None
            },
            Some(bucket) => {
                let mut k: usize = 0;
                while k < bucket.len()
                    invariant
                        k <= bucket@.len(),
                        es == self.entries(),
                        self.indexed(),
                        self.buckets@.contains_key(h),
                        *bucket == self.buckets@[h],
                        h == text_hash(key@),
                        forall|x: int| 0 <= x < k ==> es[#[trigger] bucket@[x] as int].0 != key@,
                    decreases bucket.len() - k,
                {
                    let i: usize = bucket[k];
                    assert(self.buckets@[h]@[k as int] < self.entries@.len());
                    assert(es[i as int].0 == self.entries@[i as int].0@);
                    if same(self.entries[i].0.as_str(), key) {
                        proof {
                            lemma_key_position(es, key@);
                            match key_position(es, key@) {
                                Some(j) => {
                                    assert(es[j].0 == self.entries@[j].0@);
                                    if j < i {
                                        assert(self.entries@[j].0@ != self.entries@[i as int].0@);
                                    }
                                },
                                None => {
                                    assert(es[i as int].0 == key@);
                                },
                            }
                        }
                        return Some(i);
                    }
                    k = k + 1;
                }
                proof {
                    lemma_key_position(es, key@);
                    if let Some(i) = key_position(es, key@) {
                        assert(es[i].0 == self.entries@[i].0@);
                        assert(in_bucket(self.buckets@, text_hash(self.entries@[i].0@), i));
                        let x = choose|x: int| 0 <= x < bucket@.len() && #[trigger] bucket@[x] == i;
                        assert(es[bucket@[x] as int].0 != key@);
                    }
                }
                None
            },
        }
    }

    /// The value of a key.
    pub fn get(&self, key: &str) -> (r: Option<&V>)
        ensures
            match r {
                Some(v) => lookup(self.entries(), key@) == Some(*v),
                None => lookup(self.entries(), key@) is None,
            },
    {
        match self.find(key) {
            Some(i) => Some(self.value_at(i)),
            None => None,
        }
    }

    pub fn contains_key(&self, key: &str) -> (r: bool)
        ensures
            r == (lookup(self.entries(), key@) is Some),
    {
        self.find(key).is_some()
    }

    /// The map with one key set.
    fn extended(self, key: String, value: V) -> (r: Self)
        ensures
            r.entries() == with_entry(self.entries(), key@, value),
    {
        proof {
            use_type_invariant(&self);
        }
        let ghost es = self.entries();
        let found = self.find(key.as_str());
        let TextMap { entries, buckets } = self;
        let mut entries = entries;
        let mut buckets = buckets;
        let ghost entries0 = entries@;
        let ghost buckets0 = buckets@;
        match found {
            Some(i) => {
                proof {
                    lemma_key_position(es, key@);
                    assert(es[i as int].0 == entries0[i as int].0@);
                }
                entries.set(i, (key, value));
                let r = TextMap { entries, buckets };
                assert(r.entries() =~= with_entry(es, key@, value));
                r
            },
            None => {
                let h: u64 = hash_of(key.as_str());
                let i: usize = entries.len();
                let mut bucket: Vec<usize> = match buckets.remove(&h) {
                    Some(b) => b,
                    None => Vec::new(),
                };
                let ghost bucket0 = bucket@;
                bucket.push(i);
                buckets.insert(h, bucket);
                entries.push((key, value));
                proof {
                    lemma_key_position(es, key@);
                    assert(buckets0.contains_key(h) ==> bucket0 == buckets0[h]@);
                    assert forall|a: int, b: int|
                        #![trigger entries@[a], entries@[b]]
                        0 <= a < b < entries@.len() implies entries@[a].0@ != entries@[b].0@ by {
                        assert(es[a].0 == entries0[a].0@);
                    }
                    assert forall|a: int| 0 <= a < entries@.len() implies #[trigger] in_bucket(
                        buckets@,
                        text_hash(entries@[a].0@),
                        a,
                    ) by {
                        let g = text_hash(entries@[a].0@);
                        if a < i {
                            assert(entries@[a] == entries0[a]);
                            assert(in_bucket(buckets0, text_hash(entries0[a].0@), a));
                            let x = choose|x: int| 0 <= x < buckets0[g]@.len() && #[trigger] buckets0[g]@[x] == a;
                            assert(buckets@[g]@[x] == a);
                        } else {
                            assert(buckets@[h]@[bucket0.len() as int] == i);
                        }
                    }
                    assert forall|g: u64, k: int|
                        #![trigger buckets@[g]@[k]]
                        buckets@.contains_key(g) && 0 <= k < buckets@[g]@.len() implies buckets@[g]@[k]
                        < entries@.len() by {
                        if g == h {
                            if k < bucket0.len() {
                                assert(buckets@[g]@[k] == bucket0[k]);
                                assert(buckets0[h]@[k] < entries0.len());
                            }
                        } else {
                            assert(buckets0[g]@[k] < entries0.len());
                        }
                    }
                }
                let r = TextMap { entries, buckets };
                assert(r.entries() =~= with_entry(es, key@, value));
                r
            },
        }
    }

    /// Sets a key; a key that is new comes last.
    pub fn insert(&mut self, key: String, value: V)
        ensures
            final(self).entries() == with_entry(old(self).entries(), key@, value),
    {
        let mut current = TextMap::new();
        core::mem::swap(self, &mut current);
        *self = current.extended(key, value);
    }
}

/// The bucket of hash `h` lists position `i`.
spec fn in_bucket(buckets: Map<u64, Vec<usize>>, h: u64, i: int) -> bool {
    buckets.contains_key(h) && exists|x: int| 0 <= x < buckets[h]@.len() && #[trigger] buckets[h]@[x] == i
}

} // verus!
