//! A bounded cache of parsed archives, keyed by the archive's inode.
//!
//! Recency is kept by `lru::LruCache`, which maps each archive inode to a slot in a vector
//! of cached values. A hit moves the key to the most recently used end; inserting into a
//! full cache evicts the least recently used key and reuses its slot, so that the number of
//! archives held never exceeds the capacity.

use std::collections::hash_map::RandomState;
use std::num::NonZeroUsize;
use vstd::prelude::*;

verus! {

/// `lru::LruCache`, held as an opaque value; what it holds is seen through `lru_entries` and
/// `lru_capacity`.
#[verifier::external_type_specification]
#[verifier::external_body]
#[verifier::reject_recursive_types(K)]
#[verifier::reject_recursive_types(V)]
#[verifier::reject_recursive_types(S)]
pub struct ExLruCache<K, V, S>(lru::LruCache<K, V, S>);

/// The entries of an LRU cache of slots, from the least recently used to the most
/// recently used.
pub uninterp spec fn lru_entries(c: lru::LruCache<u64, usize, RandomState>) -> Seq<(u64, usize)>;

/// The number of entries an LRU cache of slots was created to hold.
pub uninterp spec fn lru_capacity(c: lru::LruCache<u64, usize, RandomState>) -> nat;

/// The position of the last entry with key `k` in `s`, or -1 when there is none.
pub open spec fn key_pos<V>(s: Seq<(u64, V)>, k: u64) -> int
    decreases s.len(),
{
    if s.len() == 0 {
        -1
    } else if s.last().0 == k {
        s.len() - 1
    } else {
        key_pos(s.drop_last(), k)
    }
}

/// Relies on lru::LruCache::with_hasher: the cache starts empty and bounded by `cap`.
#[verifier::external_body]
fn lru_new(cap: usize) -> (r: lru::LruCache<u64, usize, RandomState>)
    requires
        cap > 0,
    ensures
        lru_entries(r) == Seq::<(u64, usize)>::empty(),
        lru_capacity(r) == cap,
{
    lru::LruCache::with_hasher(NonZeroUsize::new(cap).unwrap(), RandomState::new())
}

/// Relies on lru::LruCache::len: the number of entries.
#[verifier::external_body]
fn lru_len(c: &lru::LruCache<u64, usize, RandomState>) -> (r: usize)
    ensures
        r == lru_entries(*c).len(),
{
    c.len()
}

/// Relies on lru::LruCache::contains: whether the key is present, without touching the order.
#[verifier::external_body]
fn lru_contains(c: &lru::LruCache<u64, usize, RandomState>, k: u64) -> (r: bool)
    ensures
        r == (key_pos(lru_entries(*c), k) >= 0),
{
    c.contains(&k)
}

/// Relies on lru::LruCache::get: a present key is moved to the most recently used end and
/// its value returned; an absent key changes nothing.
#[verifier::external_body]
fn lru_get(c: &mut lru::LruCache<u64, usize, RandomState>, k: u64) -> (r: Option<usize>)
    ensures
        lru_capacity(*final(c)) == lru_capacity(*old(c)),
        ({
            let s = lru_entries(*old(c));
            let p = key_pos(s, k);
            if p < 0 {
                r.is_none() && lru_entries(*final(c)) == s
            } else {
                r == Some(s[p].1) && lru_entries(*final(c)) == s.remove(p).push(s[p])
            }
        }),
{
    c.get(&k).copied()
}

/// Relies on lru::LruCache::put: a new key is added at the most recently used end, after
/// the least recently used entry is dropped when the cache is full.
#[verifier::external_body]
fn lru_put(c: &mut lru::LruCache<u64, usize, RandomState>, k: u64, v: usize) -> (r: Option<usize>)
    ensures
        lru_capacity(*final(c)) == lru_capacity(*old(c)),
        ({
            let s = lru_entries(*old(c));
            let p = key_pos(s, k);
            if p >= 0 {
                r == Some(s[p].1) && lru_entries(*final(c)) == s.remove(p).push((k, v))
            } else if s.len() < lru_capacity(*old(c)) {
                r.is_none() && lru_entries(*final(c)) == s.push((k, v))
            } else if s.len() == lru_capacity(*old(c)) {
                r.is_none() && lru_entries(*final(c)) == s.drop_first().push((k, v))
            } else {
                true
            }
        }),
{
    c.put(k, v)
}

/// Relies on lru::LruCache::pop_lru: removes and returns the least recently used entry.
#[verifier::external_body]
fn lru_pop_lru(c: &mut lru::LruCache<u64, usize, RandomState>) -> (r: Option<(u64, usize)>)
    ensures
        lru_capacity(*final(c)) == lru_capacity(*old(c)),
        ({
            let s = lru_entries(*old(c));
            if s.len() == 0 {
                r.is_none() && lru_entries(*final(c)) == s
            } else {
                r == Some(s[0]) && lru_entries(*final(c)) == s.drop_first()
            }
        }),
{
    c.pop_lru()
}

/// No two entries share a key.
pub open spec fn keys_distinct<V>(s: Seq<(u64, V)>) -> bool {
    forall|i: int, j: int| 0 <= i < s.len() && 0 <= j < s.len() && i != j ==> s[i].0 != s[j].0
}

/// No two entries share a slot, and every slot is below `n`.
pub open spec fn slots_distinct_below(s: Seq<(u64, usize)>, n: nat) -> bool {
    &&& forall|i: int, j: int| 0 <= i < s.len() && 0 <= j < s.len() && i != j ==> s[i].1 != s[j].1
    &&& forall|i: int| 0 <= i < s.len() ==> s[i].1 < n
}

pub proof fn lemma_key_pos<V>(s: Seq<(u64, V)>, k: u64)
    ensures
        -1 <= key_pos(s, k) < s.len(),
        key_pos(s, k) >= 0 ==> s[key_pos(s, k)].0 == k,
        key_pos(s, k) < 0 ==> forall|i: int| 0 <= i < s.len() ==> s[i].0 != k,
    decreases s.len(),
{
    if s.len() > 0 && s.last().0 != k {
        let t = s.drop_last();
        lemma_key_pos(t, k);
        assert forall|i: int| 0 <= i < s.len() && key_pos(s, k) < 0 implies s[i].0 != k by {
            if i < t.len() {
                assert(s[i] == t[i]);
            }
        }
    }
}

pub proof fn lemma_key_pos_at<V>(s: Seq<(u64, V)>, i: int)
    requires
        keys_distinct(s),
        0 <= i < s.len(),
    ensures
        key_pos(s, s[i].0) == i,
{
    lemma_key_pos(s, s[i].0);
}

/// Moving the entry at `p` to the most recently used end keeps every key with its slot.
proof fn lemma_move_to_back(s: Seq<(u64, usize)>, p: int, n: nat)
    requires
        keys_distinct(s),
        slots_distinct_below(s, n),
        0 <= p < s.len(),
    ensures
        ({
            let t = s.remove(p).push(s[p]);
            &&& t.len() == s.len()
            &&& keys_distinct(t)
            &&& slots_distinct_below(t, n)
            &&& forall|k: u64| (key_pos(t, k) >= 0) == (key_pos(s, k) >= 0)
            &&& forall|k: u64| key_pos(s, k) >= 0 ==> t[key_pos(t, k)] == s[key_pos(s, k)]
        }),
{
    let t = s.remove(p).push(s[p]);
    let len = s.len() as int;
    assert forall|i: int| 0 <= i < len implies #[trigger] t[i] == s[if i < p { i } else if i < len - 1 { i + 1 } else { p }] by {}
    assert forall|i: int, j: int| 0 <= i < len && 0 <= j < len && i != j implies t[i].0 != t[j].0 && t[i].1 != t[j].1 by {
        assert(t[i] == s[if i < p { i } else if i < len - 1 { i + 1 } else { p }]);
        assert(t[j] == s[if j < p { j } else if j < len - 1 { j + 1 } else { p }]);
    }
    assert forall|i: int| 0 <= i < len implies t[i].1 < n by {
        assert(t[i] == s[if i < p { i } else if i < len - 1 { i + 1 } else { p }]);
    }
    assert forall|k: u64| (key_pos(t, k) >= 0) == (key_pos(s, k) >= 0) && (key_pos(s, k) >= 0 ==> t[key_pos(t, k)] == s[key_pos(s, k)]) by {
        lemma_key_pos(s, k);
        lemma_key_pos(t, k);
        let q = key_pos(s, k);
        if q >= 0 {
            let i = if q < p { q } else if q == p { len - 1 } else { q - 1 };
            assert(t[i] == s[if i < p { i } else if i < len - 1 { i + 1 } else { p }]);
            lemma_key_pos_at(t, i);
        } else if key_pos(t, k) >= 0 {
            let i = key_pos(t, k);
            assert(t[i] == s[if i < p { i } else if i < len - 1 { i + 1 } else { p }]);
        }
    }
}

/// Adding a new key at the most recently used end, after dropping the first `d` entries.
proof fn lemma_append(s: Seq<(u64, usize)>, d: int, k: u64, v: usize, n: nat, m: nat)
    requires
        keys_distinct(s),
        slots_distinct_below(s, n),
        d == 0 || d == 1,
        d <= s.len(),
        key_pos(s, k) < 0,
        n <= m,
        v < m,
        forall|i: int| d <= i < s.len() ==> s[i].1 != v,
    ensures
        ({
            let t = s.subrange(d, s.len() as int).push((k, v));
            &&& keys_distinct(t)
            &&& slots_distinct_below(t, m)
            &&& key_pos(t, k) == t.len() - 1
            &&& forall|j: u64| j != k ==> (key_pos(t, j) >= 0) == (key_pos(s, j) >= d)
            &&& forall|j: u64| j != k && key_pos(s, j) >= d ==> t[key_pos(t, j)] == s[key_pos(s, j)]
        }),
{
    let t = s.subrange(d, s.len() as int).push((k, v));
    lemma_key_pos(s, k);
    assert forall|i: int| 0 <= i < t.len() - 1 implies #[trigger] t[i] == s[i + d] by {}
    assert forall|i: int, j: int| 0 <= i < t.len() && 0 <= j < t.len() && i != j implies t[i].0 != t[j].0 && t[i].1 != t[j].1 by {
        if i < t.len() - 1 {
            assert(t[i] == s[i + d]);
        }
        if j < t.len() - 1 {
            assert(t[j] == s[j + d]);
        }
    }
    assert forall|i: int| 0 <= i < t.len() implies t[i].1 < m by {
        if i < t.len() - 1 {
            assert(t[i] == s[i + d]);
        }
    }
    lemma_key_pos_at(t, t.len() - 1);
    assert forall|j: u64| j != k implies (key_pos(t, j) >= 0) == (key_pos(s, j) >= d) && (key_pos(s, j) >= d ==> t[key_pos(t, j)] == s[key_pos(s, j)]) by {
        lemma_key_pos(s, j);
        lemma_key_pos(t, j);
        let q = key_pos(s, j);
        if q >= d {
            assert(t[q - d] == s[q]);
            lemma_key_pos_at(t, q - d);
        } else if key_pos(t, j) >= 0 {
            let i = key_pos(t, j);
            assert(t[i] == s[i + d]);
            lemma_key_pos_at(s, i + d);
        }
    }
}

/// A bounded map from archive inodes to cached values, with least-recently-used eviction.
pub struct ArchiveCache<V> {
    lru: lru::LruCache<u64, usize, RandomState>,
    slots: Vec<V>,
    cap: usize,
}

impl<V> ArchiveCache<V> {
    /// The keys held, from the least recently used to the most recently used.
    pub closed spec fn keys(&self) -> Seq<u64> {
        lru_entries(self.lru).map_values(|e: (u64, usize)| e.0)
    }

    /// The position of `k` in `keys()`, or -1.
    pub closed spec fn position(&self, k: u64) -> int {
        key_pos(lru_entries(self.lru), k)
    }

    pub open spec fn contains(&self, k: u64) -> bool {
        self.position(k) >= 0
    }

    /// The value cached for `k` (meaningful when `contains(k)`).
    pub closed spec fn value(&self, k: u64) -> V {
        self.slots@[lru_entries(self.lru)[self.position(k)].1 as int]
    }

    pub closed spec fn capacity(&self) -> nat {
        self.cap as nat
    }

    pub closed spec fn wf(&self) -> bool {
        let s = lru_entries(self.lru);
        &&& self.cap > 0
        &&& lru_capacity(self.lru) == self.cap
        &&& s.len() == self.slots@.len()
        &&& s.len() <= self.cap
        &&& keys_distinct(s)
        &&& slots_distinct_below(s, self.slots@.len())
    }

    /// Creates an empty cache that holds at most `cap` archives.
    pub fn new(cap: usize) -> (r: Self)
        requires
            cap > 0,
        ensures
            r.wf(),
            r.capacity() == cap,
            r.keys() == Seq::<u64>::empty(),
    {
        let r = ArchiveCache { lru: lru_new(cap), slots: Vec::new(), cap };
        assert(r.keys() =~= Seq::<u64>::empty());
        r
    }

    /// Looks up the archive cached for `k`; a hit makes `k` the most recently used key.
    pub fn get(&mut self, k: u64) -> (r: Option<&V>)
        requires
            old(self).wf(),
        ensures
            final(self).wf(),
            final(self).capacity() == old(self).capacity(),
            old(self).contains(k) ==> r == Some(&old(self).value(k)) && final(self).keys()
                == old(self).keys().remove(old(self).position(k)).push(k),
            !old(self).contains(k) ==> r.is_none() && final(self).keys() == old(self).keys(),
            forall|j: u64| final(self).contains(j) == old(self).contains(j),
            forall|j: u64| old(self).contains(j) ==> final(self).value(j) == old(self).value(j),
    {
        let ghost s = lru_entries(self.lru);
        let g = lru_get(&mut self.lru, k);
        proof {
            lemma_key_pos(s, k);
            let p = key_pos(s, k);
            if p >= 0 {
                lemma_move_to_back(s, p, self.slots@.len());
                assert(self.keys() =~= s.map_values(|e: (u64, usize)| e.0).remove(p).push(k));
            }
        }
        match g {
            Some(slot) => Some(&self.slots[slot]),
            None => None,
        }
    }

    /// Caches `v` for a key that is not yet held. When the cache is full the least recently
    /// used key is evicted first, and returned; its archive is dropped.
    pub fn insert(&mut self, k: u64, v: V) -> (evicted: Option<u64>)
        requires
            old(self).wf(),
            !old(self).contains(k),
        ensures
            final(self).wf(),
            final(self).capacity() == old(self).capacity(),
            old(self).keys().len() < old(self).capacity() ==> evicted.is_none() && final(self).keys()
                == old(self).keys().push(k),
            old(self).keys().len() == old(self).capacity() ==> evicted == Some(old(self).keys()[0])
                && final(self).keys() == old(self).keys().drop_first().push(k),
            final(self).contains(k),
            final(self).value(k) == v,
            forall|j: u64|
                j != k ==> final(self).contains(j) == (old(self).contains(j) && evicted != Some(j)),
            forall|j: u64| j != k && final(self).contains(j) ==> final(self).value(j) == old(self).value(j),
    {
        let ghost s = lru_entries(self.lru);
        let ghost old_slots = self.slots@;
        proof {
            lemma_key_pos(s, k);
        }
        let n = lru_len(&self.lru);
        if n < self.cap {
            let slot = self.slots.len();
            self.slots.push(v);
            let _ = lru_put(&mut self.lru, k, slot);
            proof {
                lemma_append(s, 0, k, slot, old_slots.len(), self.slots@.len());
                assert(s.subrange(0, s.len() as int) =~= s);
                assert(self.keys() =~= s.map_values(|e: (u64, usize)| e.0).push(k));
                assert forall|j: u64| j != k && #[trigger] self.contains(j) implies self.value(j) == old_slots[s[key_pos(s, j)].1 as int] by {
                    lemma_key_pos(s, j);
                }
            }
            None
        } else {
            let popped = lru_pop_lru(&mut self.lru);
            match popped {
                Some((old_key, slot)) => {
                    self.slots.set(slot, v);
                    let _ = lru_put(&mut self.lru, k, slot);
                    proof {
                        lemma_key_pos(s.drop_first(), k);
                        assert forall|i: int| 0 <= i < s.drop_first().len() implies s.drop_first()[i] == s[i + 1] by {}
                        lemma_append(s, 1, k, slot, old_slots.len(), self.slots@.len());
                        assert(s.subrange(1, s.len() as int) =~= s.drop_first());
                        assert(self.keys() =~= s.map_values(|e: (u64, usize)| e.0).drop_first().push(k));
                        lemma_key_pos_at(s, 0);
                        assert forall|j: u64| j != k implies self.contains(j) == (key_pos(s, j) >= 0 && Some(old_key) != Some(j)) by {
                            lemma_key_pos(s, j);
                            if key_pos(s, j) == 0 {
                                assert(j == old_key);
                            }
                        }
                        assert forall|j: u64| j != k && #[trigger] self.contains(j) implies self.value(j) == old_slots[s[key_pos(s, j)].1 as int] by {
                            lemma_key_pos(s, j);
                            assert(s[key_pos(s, j)].1 != slot);
                        }
                    }
                    Some(old_key)
                },
                None => None,
            }
        }
    }

    /// Whether `k` is cached; the order of recency is left as it is.
    pub fn contains_key(&self, k: u64) -> (r: bool)
        requires
            self.wf(),
        ensures
            r == self.contains(k),
    {
        let ghost s = lru_entries(self.lru);
        proof {
            lemma_key_pos(s, k);
        }
        let r = lru_contains(&self.lru, k);
        r
    }

    /// The number of archives held.
    pub fn len(&self) -> (r: usize)
        requires
            self.wf(),
        ensures
            r == self.keys().len(),
    {
        lru_len(&self.lru)
    }

    /// The most archives the cache holds at once.
    pub fn cap(&self) -> (r: usize)
        ensures
            r == self.capacity(),
    {
        self.cap
    }
}

/// The open archives held by a cache never outnumber its capacity.
pub proof fn lemma_cache_bounded<V>(c: &ArchiveCache<V>)
    requires
        c.wf(),
    ensures
        c.keys().len() <= c.capacity(),
        c.capacity() > 0,
{
}

} // verus!
