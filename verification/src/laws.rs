//! Laws of the cache, proved once and for all over the recency-sequence
//! model that every operation's contract is stated in.

use vstd::prelude::*;

use crate::model::{contains_key, distinct_keys, evict_count, index_of_key, remove_key, spec_get,
    touched};
use crate::model::{lemma_index_of_key, lemma_index_of_key_unique, lemma_push_fresh_key,
    lemma_remove_key, lemma_skip_distinct};

verus! {

/// Under distinct keys, the set of keys has exactly as many elements as the
/// sequence itself: the by-key lookup view and the recency view hold the
/// same entries, each key exactly once.
pub proof fn lemma_distinct_keys_bijective<K, V>(s: Seq<(K, V)>)
    requires
        distinct_keys(s),
    ensures
        s.map_values(|p: (K, V)| p.0).to_set().len() == s.len(),
{
    let ks = s.map_values(|p: (K, V)| p.0);
    assert(ks.no_duplicates());
    ks.unique_seq_to_set();
}

/// Insert-collision law: re-inserting a present key keeps the length,
/// hands back the previously stored pair, makes the key most recently
/// used, and leaves every other key's value alone.
pub proof fn lemma_insert_collision<K, V>(s: Seq<(K, V)>, k: K, v: V)
    requires
        distinct_keys(s),
        contains_key(s, k),
    ensures
        ({
            let s1 = remove_key(s, k).push((k, v));
            &&& s1.len() == s.len()
            &&& s1.last() == (k, v)
            &&& spec_get(s1, k) == Some(v)
            &&& forall|k2: K| k2 != k ==> spec_get(s1, k2) == spec_get(s, k2)
        }),
{
    lemma_remove_key(s, k);
    lemma_push_fresh_key(remove_key(s, k), k, v);
}

/// Eviction law: inserting a fresh key into a full cache drops exactly the
/// least recently used key, stores the new pair as most recently used, and
/// leaves every other key's value alone.
pub proof fn lemma_insert_eviction<K, V>(s: Seq<(K, V)>, k: K, v: V)
    requires
        distinct_keys(s),
        !contains_key(s, k),
        s.len() >= 1,
    ensures
        ({
            let s1 = s.skip(1).push((k, v));
            &&& s1.len() == s.len()
            &&& !contains_key(s1, s[0].0)
            &&& s1.last() == (k, v)
            &&& spec_get(s1, k) == Some(v)
            &&& forall|k2: K|
                k2 != k && k2 != s[0].0 ==> spec_get(s1, k2) == spec_get(s, k2)
        }),
{
    lemma_skip_distinct(s, 1);
    assert(!contains_key(s.skip(1), k));
    lemma_push_fresh_key(s.skip(1), k, v);
    lemma_index_of_key_unique(s, s[0].0, 0);
    lemma_remove_key(s, s[0].0);
    assert(remove_key(s, s[0].0) =~= s.skip(1));
    assert(s[0].0 != k);
}

/// Recency law: touching a present key moves its entry to the most
/// recently used end, keeps every other entry in its relative order, makes
/// some other key the next eviction candidate, and changes no key's value.
pub proof fn lemma_get_recency<K, V>(s: Seq<(K, V)>, k: K)
    requires
        distinct_keys(s),
        contains_key(s, k),
    ensures
        ({
            let t = touched(s, k);
            &&& t.len() == s.len()
            &&& t.last().0 == k
            &&& t.drop_last() == remove_key(s, k)
            &&& s.len() >= 2 ==> t[0].0 != k
            &&& forall|k2: K| spec_get(t, k2) == spec_get(s, k2)
        }),
{
    let i = index_of_key(s, k);
    lemma_index_of_key(s, k);
    lemma_remove_key(s, k);
    let rm = remove_key(s, k);
    lemma_push_fresh_key(rm, s[i].0, s[i].1);
    let t = touched(s, k);
    assert(t.drop_last() =~= rm);
    if s.len() >= 2 {
        assert(t[0] == rm[0]);
        assert(contains_key(rm, rm[0].0));
    }
    assert forall|k2: K| spec_get(t, k2) == spec_get(s, k2) by {
        if k2 == k {
            assert(spec_get(t, k) == Some(s[i].1));
        }
    }
}

/// Resize-grow law: a resize to at least the current capacity evicts
/// nothing and keeps the whole recency sequence.
pub proof fn lemma_resize_grow<K, V>(s: Seq<(K, V)>, max: nat, new_max: nat)
    requires
        s.len() <= max,
        max <= new_max,
    ensures
        evict_count(s, new_max) == 0,
        s.take(evict_count(s, new_max)) === Seq::<(K, V)>::empty(),
        s.skip(evict_count(s, new_max)) === s,
{
    assert(s.take(0) =~= Seq::<(K, V)>::empty());
    assert(s.skip(0) =~= s);
}

/// Resize-shrink law: a shrink evicts exactly as many entries as exceed
/// the new capacity (none when the occupancy already fits), in strict
/// least-to-most-recently-used order; the evicted pairs and the retained
/// ones partition the old sequence, and no evicted key stays retrievable.
pub proof fn lemma_resize_shrink<K, V>(s: Seq<(K, V)>, new_max: nat)
    requires
        distinct_keys(s),
    ensures
        ({
            let d = evict_count(s, new_max);
            &&& d == if s.len() > new_max { s.len() - new_max } else { 0 }
            &&& s.take(d) + s.skip(d) == s
            &&& s.skip(d).len() <= new_max || s.len() <= new_max
            &&& distinct_keys(s.skip(d))
            &&& forall|k: K| contains_key(s.take(d), k) ==> !contains_key(s.skip(d), k)
            &&& forall|k: K|
                contains_key(s.skip(d), k) ==> spec_get(s.skip(d), k) == spec_get(s, k)
        }),
{
    let d = evict_count(s, new_max);
    assert(s.take(d) + s.skip(d) =~= s);
    lemma_skip_distinct(s, d);
    assert forall|k: K| contains_key(s.take(d), k) implies !contains_key(s.skip(d), k) by {
        let i = choose|i: int| 0 <= i < s.take(d).len() && s.take(d)[i].0 == k;
        assert(s[i].0 == k);
        if contains_key(s.skip(d), k) {
            let j = choose|j: int| 0 <= j < s.skip(d).len() && s.skip(d)[j].0 == k;
            assert(s[j + d].0 == k);
        }
    }
    assert forall|k: K| contains_key(s.skip(d), k) implies spec_get(s.skip(d), k) == spec_get(
        s,
        k,
    ) by {
        let j = choose|j: int| 0 <= j < s.skip(d).len() && s.skip(d)[j].0 == k;
        lemma_index_of_key_unique(s.skip(d), k, j);
        assert(s[j + d].0 == k);
        lemma_index_of_key_unique(s, k, j + d);
    }
}

}
