//! The mathematical model of the cache: a recency sequence of key-value
//! pairs, front = least recently used, back = most recently used.
//!
//! All public contracts are stated over these spec functions.

use vstd::prelude::*;

verus! {

/// Whether no two entries of the sequence share a key.
///
/// This is the collapsed form of the two-container invariant: with every
/// entry held once in one canonical sequence, "the lookup view and the
/// recency view contain the same entries" amounts to each key occurring
/// exactly once.
pub open spec fn distinct_keys<K, V>(s: Seq<(K, V)>) -> bool {
    forall|i: int, j: int| 0 <= i < j < s.len() ==> s[i].0 != s[j].0
}

/// Whether some entry of the sequence carries the key `k`.
pub open spec fn contains_key<K, V>(s: Seq<(K, V)>, k: K) -> bool {
    exists|i: int| 0 <= i < s.len() && s[i].0 == k
}

/// The position of the entry carrying key `k`; meaningful only when
/// `contains_key(s, k)` holds (and unique when `distinct_keys(s)` holds).
pub open spec fn index_of_key<K, V>(s: Seq<(K, V)>, k: K) -> int {
    choose|i: int| 0 <= i < s.len() && s[i].0 == k
}

/// The value stored under key `k`, if any.
pub open spec fn spec_get<K, V>(s: Seq<(K, V)>, k: K) -> Option<V> {
    if contains_key(s, k) {
        Some(s[index_of_key(s, k)].1)
    } else {
        None
    }
}

/// The sequence with the entry carrying key `k` detached, its recency order
/// otherwise unchanged; the sequence itself when `k` is absent.
pub open spec fn remove_key<K, V>(s: Seq<(K, V)>, k: K) -> Seq<(K, V)> {
    if contains_key(s, k) {
        s.remove(index_of_key(s, k))
    } else {
        s
    }
}

/// The sequence after the entry carrying key `k` has been touched: detached
/// from its current position and re-appended as most recently used.  The
/// sequence itself when `k` is absent.
pub open spec fn touched<K, V>(s: Seq<(K, V)>, k: K) -> Seq<(K, V)> {
    if contains_key(s, k) {
        remove_key(s, k).push(s[index_of_key(s, k)])
    } else {
        s
    }
}

/// How many entries a shrink to capacity `new_max` must evict.
pub open spec fn evict_count<K, V>(s: Seq<(K, V)>, new_max: nat) -> int {
    if s.len() > new_max {
        s.len() - new_max
    } else {
        0
    }
}

/// The entry carrying key `k` sits exactly at `index_of_key(s, k)`.
pub proof fn lemma_index_of_key<K, V>(s: Seq<(K, V)>, k: K)
    requires
        contains_key(s, k),
    ensures
        0 <= index_of_key(s, k) < s.len(),
        s[index_of_key(s, k)].0 == k,
{
}

/// Under distinct keys, any position holding key `k` is the position
/// `index_of_key` picks.
pub proof fn lemma_index_of_key_unique<K, V>(s: Seq<(K, V)>, k: K, i: int)
    requires
        distinct_keys(s),
        0 <= i < s.len(),
        s[i].0 == k,
    ensures
        contains_key(s, k),
        index_of_key(s, k) == i,
{
    assert(contains_key(s, k));
    lemma_index_of_key(s, k);
}

/// Removing one entry keeps the remaining keys distinct, and under distinct
/// keys the removed key is gone for good.
pub proof fn lemma_remove_key<K, V>(s: Seq<(K, V)>, k: K)
    requires
        distinct_keys(s),
        contains_key(s, k),
    ensures
        remove_key(s, k).len() == s.len() - 1,
        distinct_keys(remove_key(s, k)),
        !contains_key(remove_key(s, k), k),
        forall|k2: K| k2 != k ==> contains_key(remove_key(s, k), k2) == contains_key(s, k2),
        forall|k2: K| k2 != k ==> spec_get(remove_key(s, k), k2) == spec_get(s, k2),
{
    let i = index_of_key(s, k);
    lemma_index_of_key(s, k);
    let r = s.remove(i);
    s.remove_ensures(i);
    assert forall|k2: K| k2 != k implies contains_key(r, k2) == contains_key(s, k2) by {
        lemma_remove_other_keys(s, i, k2);
    }
    assert forall|k2: K| k2 != k && contains_key(s, k2) implies spec_get(r, k2) == spec_get(s, k2) by {
        let j = index_of_key(s, k2);
        lemma_index_of_key(s, k2);
        if j < i {
            lemma_index_of_key_unique(r, k2, j);
        } else {
            lemma_index_of_key_unique(r, k2, j - 1);
        }
    }
}

/// A key found on either side of a single removal is found on the other.
proof fn lemma_remove_other_keys<K, V>(s: Seq<(K, V)>, i: int, k2: K)
    requires
        0 <= i < s.len(),
        s[i].0 != k2,
    ensures
        contains_key(s.remove(i), k2) == contains_key(s, k2),
{
    let r = s.remove(i);
    s.remove_ensures(i);
    if contains_key(s, k2) {
        let j = index_of_key(s, k2);
        lemma_index_of_key(s, k2);
        if j < i {
            assert(r[j].0 == k2);
        } else {
            assert(r[j - 1].0 == k2);
        }
        assert(contains_key(r, k2));
    }
    if contains_key(r, k2) {
        let j = choose|j: int| 0 <= j < r.len() && r[j].0 == k2;
        if j < i {
            assert(s[j].0 == k2);
        } else {
            assert(s[j + 1].0 == k2);
        }
        assert(contains_key(s, k2));
    }
}

/// Removing any one position keeps the remaining keys distinct.
pub proof fn lemma_remove_at_distinct<K, V>(s: Seq<(K, V)>, i: int)
    requires
        distinct_keys(s),
        0 <= i < s.len(),
    ensures
        distinct_keys(s.remove(i)),
{
    s.remove_ensures(i);
}

/// Appending an entry with a fresh key keeps the keys distinct and stores
/// its value.
pub proof fn lemma_push_fresh_key<K, V>(s: Seq<(K, V)>, k: K, v: V)
    requires
        distinct_keys(s),
        !contains_key(s, k),
    ensures
        distinct_keys(s.push((k, v))),
        contains_key(s.push((k, v)), k),
        spec_get(s.push((k, v)), k) == Some(v),
        forall|k2: K| k2 != k ==> contains_key(s.push((k, v)), k2) == contains_key(s, k2),
        forall|k2: K| k2 != k ==> spec_get(s.push((k, v)), k2) == spec_get(s, k2),
{
    let p = s.push((k, v));
    assert(p[s.len() as int].0 == k);
    assert forall|i: int, j: int| 0 <= i < j < p.len() implies p[i].0 != p[j].0 by {
        if j == s.len() {
            assert(p[i] == s[i]);
        }
    }
    lemma_index_of_key_unique(p, k, s.len() as int);
    assert forall|k2: K| k2 != k implies contains_key(p, k2) == contains_key(s, k2) by {
        if contains_key(s, k2) {
            let i = index_of_key(s, k2);
            lemma_index_of_key(s, k2);
            assert(p[i].0 == k2);
        }
        if contains_key(p, k2) {
            let i = choose|i: int| 0 <= i < p.len() && p[i].0 == k2;
            assert(s[i].0 == k2);
        }
    }
    assert forall|k2: K| k2 != k && contains_key(s, k2) implies spec_get(p, k2) == spec_get(s, k2) by {
        let i = index_of_key(s, k2);
        lemma_index_of_key(s, k2);
        lemma_index_of_key_unique(p, k2, i);
    }
}

/// Dropping a front segment keeps the remaining keys distinct, and every key
/// of the remainder is a key of the whole.
pub proof fn lemma_skip_distinct<K, V>(s: Seq<(K, V)>, n: int)
    requires
        distinct_keys(s),
        0 <= n <= s.len(),
    ensures
        distinct_keys(s.skip(n)),
        forall|k: K| contains_key(s.skip(n), k) ==> contains_key(s, k),
{
    let t = s.skip(n);
    assert forall|k: K| contains_key(t, k) implies contains_key(s, k) by {
        let i = choose|i: int| 0 <= i < t.len() && t[i].0 == k;
        assert(s[i + n].0 == k);
    }
}

}
