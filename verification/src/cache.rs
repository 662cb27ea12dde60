//! The cache itself: a bounded key-value store with least-recently-used
//! eviction.
//!
//! The entries live in one canonical vector ordered by recency (front =
//! least recently used, back = most recently used).  Where a by-key hash
//! index and an intrusive recency list would hold two views of shared
//! entries, here both views collapse into this single sequence plus the
//! invariant that no key occurs twice: the views cannot diverge, every
//! entry is owned exactly once, and extracting an evicted pair needs no
//! run-time ownership check.

use vstd::laws_eq::obeys_concrete_eq;
use vstd::prelude::*;

use crate::model::{contains_key, distinct_keys, evict_count, index_of_key, remove_key, spec_get,
    touched};
use crate::model::{lemma_index_of_key_unique, lemma_push_fresh_key, lemma_remove_at_distinct,
    lemma_remove_key, lemma_skip_distinct};

verus! {

/// A fixed-capacity key-value cache with least-recently-used eviction.
#[derive(Debug)]
pub struct LRUCache<K, V> {
    /// All current entries, least recently used first.
    entries: Vec<(K, V)>,
    /// The capacity: how many entries the cache may hold at once.
    max_len: u32,
}

impl<K, V> View for LRUCache<K, V> {
    type V = Seq<(K, V)>;

    /// The recency sequence: every current entry, least recently used first.
    closed spec fn view(&self) -> Seq<(K, V)> {
        self.entries@
    }
}

impl<K, V> LRUCache<K, V> {
    /// The capacity, as a mathematical number.
    pub closed spec fn spec_max_len(&self) -> nat {
        self.max_len as nat
    }

    /// Well-formedness: the capacity is positive, the occupancy never
    /// exceeds it, and no key occurs twice.
    pub open spec fn wf(&self) -> bool {
        &&& 1 <= self.spec_max_len() <= u32::MAX
        &&& self@.len() <= self.spec_max_len()
        &&& distinct_keys(self@)
    }

    /// Create an empty cache holding at most `max_len` elements.
    ///
    /// The capacity must be positive; a zero capacity is rejected by the
    /// contract.  Allocates storage for `max_len` entries beforehand.
    pub fn with_max_len(max_len: u32) -> (r: Self)
        requires
            1 <= max_len,
        ensures
            r.wf(),
            r@ === Seq::<(K, V)>::empty(),
            r.spec_max_len() == max_len,
    {
        LRUCache { entries: Vec::with_capacity(max_len as usize), max_len }
    }

    /// Create an empty cache of capacity one.
    pub fn new() -> (r: Self)
        ensures
            r.wf(),
            r@ === Seq::<(K, V)>::empty(),
            r.spec_max_len() == 1,
    {
        Self::default()
    }

    /// The number of entries currently held.
    pub fn len(&self) -> (r: usize)
        ensures
            r == self@.len(),
    {
        self.entries.len()
    }

    /// The capacity: how many entries the cache may hold at once.
    pub fn max_len(&self) -> (r: usize)
        ensures
            r == self.spec_max_len(),
    {
        self.max_len as usize
    }

    /// Detach the entry at the known position `i` from the recency sequence
    /// and hand it back; no key search happens here.
    fn drop_from_queue(&mut self, i: usize) -> (r: (K, V))
        requires
            i < old(self)@.len(),
        ensures
            r == old(self)@[i as int],
            final(self)@ == old(self)@.remove(i as int),
            final(self).spec_max_len() == old(self).spec_max_len(),
    {
        self.entries.remove(i)
    }

    /// Append a fresh entry as most recently used.
    ///
    /// Requires the cache to have room for it and the key to be absent, so
    /// the key-uniqueness invariant is preserved.
    fn push_entry(&mut self, key: K, value: V)
        requires
            old(self).wf(),
            old(self)@.len() < old(self).spec_max_len(),
            !contains_key(old(self)@, key),
        ensures
            final(self).wf(),
            final(self).spec_max_len() == old(self).spec_max_len(),
            final(self)@ == old(self)@.push((key, value)),
            spec_get(final(self)@, key) == Some(value),
    {
        proof {
            lemma_push_fresh_key(self@, key, value);
        }
        self.entries.push((key, value));
    }
}

impl<K: Eq, V> LRUCache<K, V> {
    /// The position of the entry carrying `key`, if any.
    fn position_of(&self, key: &K) -> (r: Option<usize>)
        requires
            obeys_concrete_eq::<K>(),
        ensures
            match r {
                Some(i) => i < self@.len() && self@[i as int].0 == *key,
                None => !contains_key(self@, *key),
            },
    {
        let n = self.entries.len();
        let mut i: usize = 0;
        while i < n
            invariant
                obeys_concrete_eq::<K>(),
                n == self@.len(),
                i <= n,
                forall|j: int| 0 <= j < i ==> self@[j].0 != *key,
            decreases n - i,
        {
            let hit = self.entries[i].0 == *key;
            proof {
                reveal(vstd::laws_eq::obeys_concrete_eq);
            }
            if hit {
                return Some(i);
            }
            i += 1;
        }
        None
    }

    /// Make room for an insertion of `key`.
    ///
    /// If `key` is present, detach its entry from the recency sequence and
    /// hand its pair back.  Otherwise, if the cache is full, evict the least
    /// recently used entry and discard it.  Otherwise do nothing.  In every
    /// case the cache afterwards has room for a fresh entry of `key`.
    fn drop_before_insertion(&mut self, key: &K) -> (r: Option<(K, V)>)
        requires
            old(self).wf(),
            obeys_concrete_eq::<K>(),
        ensures
            final(self).wf(),
            final(self).spec_max_len() == old(self).spec_max_len(),
            final(self)@.len() < final(self).spec_max_len(),
            !contains_key(final(self)@, *key),
            contains_key(old(self)@, *key) ==> {
                &&& r == Some(old(self)@[index_of_key(old(self)@, *key)])
                &&& final(self)@ == remove_key(old(self)@, *key)
            },
            !contains_key(old(self)@, *key) && old(self)@.len() == old(self).spec_max_len() ==> {
                &&& r is None
                &&& final(self)@ == old(self)@.skip(1)
            },
            !contains_key(old(self)@, *key) && old(self)@.len() < old(self).spec_max_len() ==> {
                &&& r is None
                &&& final(self)@ == old(self)@
            },
    {
        match self.position_of(key) {
            Some(i) => {
                proof {
                    lemma_index_of_key_unique(self@, *key, i as int);
                    lemma_remove_key(self@, *key);
                }
                let pair = self.drop_from_queue(i);
                Some(pair)
            },
            None => {
                if self.entries.len() == self.max_len as usize {
                    proof {
                        lemma_skip_distinct(self@, 1);
                        assert(self@.remove(0) =~= self@.skip(1));
                    }
                    let _evicted = self.drop_from_queue(0);
                    None
                } else {
                    None
                }
            },
        }
    }

    /// Add an entry to the cache.
    ///
    /// If `key` is new, the pair is stored and `None` comes back; when the
    /// cache is full, the least recently used entry is first evicted and
    /// discarded.  If `key` is present, its entry is replaced, the previous
    /// pair comes back, and no other entry is evicted.  Either way the new
    /// pair afterwards counts as most recently used.
    pub fn insert(&mut self, key: K, value: V) -> (r: Option<(K, V)>)
        requires
            old(self).wf(),
            obeys_concrete_eq::<K>(),
        ensures
            final(self).wf(),
            final(self).spec_max_len() == old(self).spec_max_len(),
            contains_key(old(self)@, key) ==> {
                &&& r == Some(old(self)@[index_of_key(old(self)@, key)])
                &&& final(self)@ == remove_key(old(self)@, key).push((key, value))
                &&& final(self)@.len() == old(self)@.len()
            },
            !contains_key(old(self)@, key) && old(self)@.len() == old(self).spec_max_len() ==> {
                &&& r is None
                &&& final(self)@ == old(self)@.skip(1).push((key, value))
                &&& final(self)@.len() == old(self)@.len()
            },
            !contains_key(old(self)@, key) && old(self)@.len() < old(self).spec_max_len() ==> {
                &&& r is None
                &&& final(self)@ == old(self)@.push((key, value))
                &&& final(self)@.len() == old(self)@.len() + 1
            },
            final(self)@.last() == (key, value),
            spec_get(final(self)@, key) == Some(value),
    {
        proof {
            if contains_key(self@, key) {
                lemma_remove_key(self@, key);
            }
        }
        let removed = self.drop_before_insertion(&key);
        self.push_entry(key, value);
        removed
    }

    /// Retrieve the value stored under `key`.
    ///
    /// A hit re-appends the entry as most recently used, deferring its
    /// eviction; what each key maps to is left unchanged.  A miss has no
    /// effect at all.  The recency reorder is a real mutation, so the cache
    /// is taken by `&mut` rather than hiding the reorder behind a run-time
    /// checked interior-mutability cell.
    pub fn get(&mut self, key: &K) -> (r: Option<&V>)
        requires
            old(self).wf(),
            obeys_concrete_eq::<K>(),
        ensures
            final(self).wf(),
            final(self).spec_max_len() == old(self).spec_max_len(),
            final(self)@ == touched(old(self)@, *key),
            final(self)@.len() == old(self)@.len(),
            match r {
                Some(v) => {
                    &&& contains_key(old(self)@, *key)
                    &&& *v == old(self)@[index_of_key(old(self)@, *key)].1
                    &&& spec_get(old(self)@, *key) == Some(*v)
                },
                None => !contains_key(old(self)@, *key),
            },
            forall|k2: K| spec_get(final(self)@, k2) == spec_get(old(self)@, k2),
    {
        match self.position_of(key) {
            Some(i) => {
                proof {
                    lemma_index_of_key_unique(self@, *key, i as int);
                    lemma_remove_key(self@, *key);
                    lemma_push_fresh_key(
                        remove_key(self@, *key),
                        self@[i as int].0,
                        self@[i as int].1,
                    );
                }
                let pair = self.entries.remove(i);
                self.entries.push(pair);
                let n = self.entries.len();
                Some(&self.entries[n - 1].1)
            },
            None => None,
        }
    }
}

impl<K, V> LRUCache<K, V> {
    /// Change the capacity to `new_max_len`.
    ///
    /// Growing (or keeping) the capacity evicts nothing and returns an
    /// empty vector.  Shrinking below the current occupancy evicts exactly
    /// enough least-recently-used entries to fit, and returns them as pairs
    /// in eviction order, least recently used first.
    pub fn resize(&mut self, new_max_len: u32) -> (r: Vec<(K, V)>)
        requires
            old(self).wf(),
            1 <= new_max_len,
        ensures
            final(self).wf(),
            final(self).spec_max_len() == new_max_len,
            r@ == old(self)@.take(evict_count(old(self)@, new_max_len as nat)),
            final(self)@ == old(self)@.skip(evict_count(old(self)@, new_max_len as nat)),
            new_max_len >= old(self).spec_max_len() ==> {
                &&& r@ === Seq::<(K, V)>::empty()
                &&& final(self)@ === old(self)@
            },
    {
        if new_max_len >= self.max_len {
            self.entries.reserve(new_max_len as usize - self.max_len as usize);
            self.max_len = new_max_len;
            proof {
                assert(self@.take(0) =~= Seq::<(K, V)>::empty());
                assert(self@.skip(0) =~= self@);
            }
            return Vec::new();
        }
        let mut all_removed: Vec<(K, V)> = Vec::new();
        while self.entries.len() > new_max_len as usize
            invariant
                old(self).wf(),
                self.max_len == old(self).max_len,
                distinct_keys(self@),
                all_removed@.len() + self@.len() == old(self)@.len(),
                all_removed@ == old(self)@.take(all_removed@.len() as int),
                self@ == old(self)@.skip(all_removed@.len() as int),
                all_removed@.len() == 0 || self@.len() >= new_max_len,
            decreases self@.len(),
        {
            let ghost d = all_removed@.len() as int;
            proof {
                assert(old(self)@.skip(d).remove(0) =~= old(self)@.skip(d + 1));
                assert(old(self)@.take(d).push(old(self)@[d]) =~= old(self)@.take(d + 1));
                lemma_remove_at_distinct(self@, 0);
            }
            let evicted = self.entries.remove(0);
            all_removed.push(evicted);
        }
        proof {
            let d = all_removed@.len() as int;
            if d != evict_count(old(self)@, new_max_len as nat) {
                assert(self@ == old(self)@.skip(d));
                assert(false);
            }
        }
        self.max_len = new_max_len;
        all_removed
    }

    /// Every current entry, as borrowed pairs.
    ///
    /// Producing the listing neither touches nor reorders the recency
    /// sequence; it may be repeated at will with the same outcome.  The
    /// listing happens to follow the recency sequence, but callers should
    /// treat its order as incidental.
    pub fn iter(&self) -> (r: Vec<(&K, &V)>)
        ensures
            r@.len() == self@.len(),
            forall|i: int|
                0 <= i < r@.len() ==> *r@[i].0 == self@[i].0 && *r@[i].1 == self@[i].1,
    {
        let mut out: Vec<(&K, &V)> = Vec::new();
        let n = self.entries.len();
        let mut i: usize = 0;
        while i < n
            invariant
                n == self@.len(),
                i <= n,
                out@.len() == i,
                forall|j: int| 0 <= j < i ==> *out@[j].0 == self@[j].0 && *out@[j].1 == self@[j].1,
            decreases n - i,
        {
            out.push((&self.entries[i].0, &self.entries[i].1));
            i += 1;
        }
        out
    }
}

impl<K, V> Default for LRUCache<K, V> {
    /// An empty cache of capacity one.
    fn default() -> (r: Self)
        ensures
            r.wf(),
            r@ === Seq::<(K, V)>::empty(),
            r.spec_max_len() == 1,
    {
        LRUCache::with_max_len(1)
    }
}

}
