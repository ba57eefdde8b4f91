use vstd::prelude::*;

verus! {

/// An entry of the admission history: a key seen fewer than K times, the
/// latest value written for it, and how often it has been accessed.
pub struct HistoryEntry<V> {
    pub key: Seq<char>,
    pub value: V,
    pub hits: usize,
}

/// An entry of the cache list. `indexed` tells whether the cache's index
/// points at this entry; entries that lost their index entry stay in the
/// list until they are evicted.
pub struct CacheEntry<V> {
    pub key: Seq<char>,
    pub value: V,
    pub indexed: bool,
}

/// The abstract state of an LRU-K cache: its parameters, the history list
/// and the cache list, both from most to least recently used.
pub struct LRUKModel<V> {
    pub k: usize,
    pub cap: usize,
    pub history_cap: usize,
    pub history: Seq<HistoryEntry<V>>,
    pub cache: Seq<CacheEntry<V>>,
}

/// The hit counter after one more access (it wraps around at the top of
/// `usize`).
pub open spec fn bump(hits: usize) -> usize {
    if hits == usize::MAX {
        0
    } else {
        (hits + 1) as usize
    }
}

/// Drops the last entry of a cache list and removes the index entry of its
/// key: every entry with that key is left unindexed.
pub open spec fn evict_back<V>(c: Seq<CacheEntry<V>>) -> Seq<CacheEntry<V>> {
    let gone = c.last().key;
    c.drop_last().map_values(
        |e: CacheEntry<V>|
            if e.key == gone {
                CacheEntry { key: e.key, value: e.value, indexed: false }
            } else {
                e
            },
    )
}

impl<V> LRUKModel<V> {
    pub open spec fn in_history(self, key: Seq<char>) -> bool {
        exists|i: int| 0 <= i < self.history.len() && #[trigger] self.history[i].key == key
    }

    pub open spec fn history_position(self, key: Seq<char>) -> int {
        choose|i: int| 0 <= i < self.history.len() && #[trigger] self.history[i].key == key
    }

    pub open spec fn in_cache(self, key: Seq<char>) -> bool {
        exists|j: int|
            0 <= j < self.cache.len() && #[trigger] self.cache[j].key == key
                && self.cache[j].indexed
    }

    pub open spec fn cache_position(self, key: Seq<char>) -> int {
        choose|j: int|
            0 <= j < self.cache.len() && #[trigger] self.cache[j].key == key
                && self.cache[j].indexed
    }

    pub open spec fn with_history(self, history: Seq<HistoryEntry<V>>) -> Self {
        LRUKModel {
            k: self.k,
            cap: self.cap,
            history_cap: self.history_cap,
            history,
            cache: self.cache,
        }
    }

    pub open spec fn with_cache(self, cache: Seq<CacheEntry<V>>) -> Self {
        LRUKModel {
            k: self.k,
            cap: self.cap,
            history_cap: self.history_cap,
            history: self.history,
            cache,
        }
    }

    /// Promotes `key` with `value` to the front of the cache list. If the key
    /// was indexed, its old entry leaves the list and the new entry stays
    /// unindexed; otherwise the new entry is indexed. A list that grew past
    /// the capacity drops its last entry.
    pub open spec fn promote(self, key: Seq<char>, value: V) -> Self {
        let c1 = if self.in_cache(key) {
            seq![CacheEntry { key, value, indexed: false }] + self.cache.remove(
                self.cache_position(key),
            )
        } else {
            seq![CacheEntry { key, value, indexed: true }] + self.cache
        };
        self.with_cache(
            if c1.len() > self.cap {
                evict_back(c1)
            } else {
                c1
            },
        )
    }

    /// The effect of `put(key, value)`.
    pub open spec fn put(self, key: Seq<char>, value: V) -> Self {
        if self.in_history(key) {
            let i = self.history_position(key);
            let hits = bump(self.history[i].hits);
            if hits == self.k {
                self.with_history(self.history.remove(i)).promote(key, value)
            } else {
                self.with_history(
                    seq![HistoryEntry { key, value, hits }] + self.history.remove(i),
                )
            }
        } else {
            let h1 = seq![HistoryEntry { key, value, hits: 1 }] + self.history;
            self.with_history(
                if h1.len() > self.history_cap {
                    h1.drop_last()
                } else {
                    h1
                },
            )
        }
    }

    /// The effect of an access on the history: the hit counter of the key
    /// grows, and at the K-th access the key moves to the cache.
    pub open spec fn hit(self, key: Seq<char>) -> Self {
        if self.in_history(key) {
            let i = self.history_position(key);
            let e = self.history[i];
            let hits = bump(e.hits);
            if hits == self.k {
                self.with_history(self.history.remove(i)).promote(key, e.value)
            } else {
                self.with_history(
                    self.history.update(i, HistoryEntry { key: e.key, value: e.value, hits }),
                )
            }
        } else {
            self
        }
    }

    /// A lookup in the cache: an indexed entry moves to the front and its
    /// value is returned.
    pub open spec fn lookup(self, key: Seq<char>) -> (Self, Option<V>) {
        if self.in_cache(key) {
            let j = self.cache_position(key);
            let e = self.cache[j];
            (self.with_cache(seq![e] + self.cache.remove(j)), Some(e.value))
        } else {
            (self, None)
        }
    }

    /// The effect and result of `get(key)`.
    pub open spec fn get(self, key: Seq<char>) -> (Self, Option<V>) {
        self.hit(key).lookup(key)
    }

    /// What every reachable state satisfies.
    pub open spec fn inv(self) -> bool {
        &&& forall|i: int, j: int|
            0 <= i < j < self.history.len() ==> #[trigger] self.history[i].key
                != #[trigger] self.history[j].key
        &&& forall|i: int, j: int|
            0 <= i < j < self.cache.len() && self.cache[i].indexed && self.cache[j].indexed
                ==> #[trigger] self.cache[i].key != #[trigger] self.cache[j].key
        &&& self.history.len() <= self.history_cap
        &&& self.cache.len() <= self.cap
        &&& self.k >= 2 ==> forall|i: int|
            0 <= i < self.history.len() ==> 1 <= #[trigger] self.history[i].hits < self.k
    }
}

/// A key that was never accessed (it is neither in the history nor in the
/// cache) reads as absent and the read changes nothing.
pub proof fn lemma_get_unknown_key<V>(s: LRUKModel<V>, key: Seq<char>)
    requires
        !s.in_history(key),
        !s.in_cache(key),
    ensures
        s.get(key) == (s, None::<V>),
{
}

/// A read of a cached key that is not in the history returns its value and
/// makes its entry the most recently used one.
pub proof fn lemma_get_refreshes<V>(s: LRUKModel<V>, key: Seq<char>)
    requires
        s.inv(),
        !s.in_history(key),
        s.in_cache(key),
    ensures
        s.get(key).1 == Some(s.cache[s.cache_position(key)].value),
        s.get(key).0.cache[0] == s.cache[s.cache_position(key)],
        s.get(key).0.cache.len() == s.cache.len(),
        s.get(key).0.history == s.history,
{
}

/// With K of at least two, the first write of a key only enters it in the
/// history, with one hit, at the front; the cache is untouched.
pub proof fn lemma_first_put_records_history<V>(s: LRUKModel<V>, key: Seq<char>, value: V)
    requires
        s.k >= 2,
        s.history_cap >= 1,
        !s.in_history(key),
    ensures
        s.put(key, value).cache == s.cache,
        s.put(key, value).history[0] == (HistoryEntry { key, value, hits: 1 }),
        s.put(key, value).in_history(key),
{
    let t = s.put(key, value);
    assert(t.history[0].key == key);
}

/// The K-th access by a write admits the key: when the history counted
/// K - 1 accesses of a key that has no entry in the cache list and the cache
/// can hold an entry, a write followed by a read returns the written value.
pub proof fn lemma_kth_put_then_get<V>(s: LRUKModel<V>, key: Seq<char>, value: V)
    requires
        s.inv(),
        s.k >= 2,
        s.cap >= 1,
        s.in_history(key),
        s.history[s.history_position(key)].hits == s.k - 1,
        forall|j: int| 0 <= j < s.cache.len() ==> #[trigger] s.cache[j].key != key,
    ensures
        s.put(key, value).get(key).1 == Some(value),
        !s.put(key, value).in_history(key),
        s.put(key, value).in_cache(key),
{
    let i = s.history_position(key);
    let t0 = s.with_history(s.history.remove(i));
    assert(!t0.in_cache(key)) by {
        if t0.in_cache(key) {
            let j = choose|j: int| 0 <= j < t0.cache.len() && #[trigger] t0.cache[j].key == key && t0.cache[j].indexed;
            assert(s.cache[j].key != key);
        }
    }
    let t = s.put(key, value);
    assert(t == t0.promote(key, value));
    let c1 = seq![CacheEntry { key, value, indexed: true }] + s.cache;
    assert(t.cache[0] == (CacheEntry { key, value, indexed: true })) by {
        if c1.len() > s.cap {
            assert(c1.last() == s.cache.last());
            assert(s.cache.last().key != key);
        }
    }
    assert(!t.in_history(key)) by {
        if t.in_history(key) {
            let j = choose|j: int| 0 <= j < t.history.len() && #[trigger] t.history[j].key == key;
            let j0 = if j < i { j } else { j + 1 };
            assert(t.history[j] == s.history[j0]);
            if j0 < i {
                assert(s.history[j0].key != s.history[i].key);
            } else {
                assert(s.history[i].key != s.history[j0].key);
            }
        }
    }
    assert(t.cache[0].key == key && t.cache[0].indexed);
    assert(t.in_cache(key));
    let p = t.cache_position(key);
    assert(p == 0) by {
        if p != 0 {
            assert(t.cache[p].key == key && t.cache[p].indexed);
            if c1.len() > s.cap {
                assert(t.cache[p].indexed ==> c1[p].indexed);
            }
            assert(c1[p] == s.cache[p - 1] || c1.len() > s.cap);
            assert(s.cache[p - 1].key != key);
        }
    }
}

/// The K-th access by a read admits the key: when the history counted
/// K - 1 accesses of a key that has no entry in the cache list and the cache
/// can hold an entry, the read returns the value last written.
pub proof fn lemma_kth_get_returns_value<V>(s: LRUKModel<V>, key: Seq<char>)
    requires
        s.inv(),
        s.k >= 2,
        s.cap >= 1,
        s.in_history(key),
        s.history[s.history_position(key)].hits == s.k - 1,
        forall|j: int| 0 <= j < s.cache.len() ==> #[trigger] s.cache[j].key != key,
    ensures
        s.get(key).1 == Some(s.history[s.history_position(key)].value),
{
    let i = s.history_position(key);
    let value = s.history[i].value;
    let t0 = s.with_history(s.history.remove(i));
    assert(!t0.in_cache(key)) by {
        if t0.in_cache(key) {
            let j = choose|j: int| 0 <= j < t0.cache.len() && #[trigger] t0.cache[j].key == key && t0.cache[j].indexed;
            assert(s.cache[j].key != key);
        }
    }
    let t = s.hit(key);
    assert(t == t0.promote(key, value));
    let c1 = seq![CacheEntry { key, value, indexed: true }] + s.cache;
    assert(t.cache[0] == (CacheEntry { key, value, indexed: true })) by {
        if c1.len() > s.cap {
            assert(c1.last() == s.cache.last());
            assert(s.cache.last().key != key);
        }
    }
    assert(t.cache[0].key == key && t.cache[0].indexed);
    assert(t.in_cache(key));
    let p = t.cache_position(key);
    assert(p == 0) by {
        if p != 0 {
            assert(t.cache[p].key == key && t.cache[p].indexed);
            assert(c1[p] == s.cache[p - 1] || c1.len() > s.cap);
            assert(s.cache[p - 1].key != key);
        }
    }
}

/// A read that does not promote the key answers from the cache whatever the
/// history holds: when the key is indexed in the cache and the access does
/// not bring its history count to K, the read returns the cached value and
/// moves that entry to the front.
pub proof fn lemma_get_reads_cache<V>(s: LRUKModel<V>, key: Seq<char>)
    requires
        s.in_cache(key),
        !(s.in_history(key) && bump(s.history[s.history_position(key)].hits) == s.k),
    ensures
        s.get(key).1 == Some(s.cache[s.cache_position(key)].value),
        s.get(key).0.cache[0] == s.cache[s.cache_position(key)],
        s.get(key).0.cache.len() == s.cache.len(),
{
    let t = s.hit(key);
    assert(t.cache == s.cache);
    assert(t.in_cache(key) == s.in_cache(key));
    assert(t.cache_position(key) == s.cache_position(key));
}

/// A write to a key in the history that does not admit it replaces the
/// value held for the key: the key's entry moves to the front of the history
/// with the written value and one more hit, and the cache is untouched.
pub proof fn lemma_put_replaces_history_value<V>(s: LRUKModel<V>, key: Seq<char>, value: V)
    requires
        s.in_history(key),
        bump(s.history[s.history_position(key)].hits) != s.k,
    ensures
        s.put(key, value).history[0] == (HistoryEntry {
            key,
            value,
            hits: bump(s.history[s.history_position(key)].hits),
        }),
        s.put(key, value).cache == s.cache,
        s.put(key, value).in_history(key),
{
    let t = s.put(key, value);
    assert(t.history[0].key == key);
}

} // verus!
