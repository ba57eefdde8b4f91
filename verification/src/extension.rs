use vstd::prelude::*;

verus! {

/// A value that can tell whether it has expired.
pub trait CacheValue {
    /// Whether the value counts as expired at time `now` (seconds since the
    /// Unix epoch).
    spec fn expired_at(&self, now: u64) -> bool;

    fn is_expire_at(&self, now: u64) -> (r: bool)
        ensures
            r == self.expired_at(now),
    ;

    /// Whether the value has expired by the clock: the answer at the time the
    /// clock reads.
    fn is_expire(&self) -> (r: bool)
        ensures
            exists|now: u64| #[trigger] self.expired_at(now) == r,
    ;
}

/// The entries of `m` whose values count as expired at time `now`.
pub open spec fn expired_entries<V: CacheValue>(m: Map<Seq<char>, V>, now: u64) -> Map<Seq<char>, V> {
    Map::new(|k: Seq<char>| m.contains_key(k) && m[k].expired_at(now), |k: Seq<char>| m[k])
}

/// The keys of an entry list, as character sequences.
pub open spec fn key_views<V>(entries: Seq<(String, V)>) -> Seq<Seq<char>> {
    entries.map_values(|e: (String, V)| e.0@)
}

/// Whether some entry has key `key`.
pub open spec fn has_key<V>(entries: Seq<(String, V)>, key: Seq<char>) -> bool {
    exists|i: int| 0 <= i < entries.len() && #[trigger] entries[i].0@ == key
}

/// A position of an entry with key `key`.
pub open spec fn entry_index<V>(entries: Seq<(String, V)>, key: Seq<char>) -> int {
    choose|i: int| 0 <= i < entries.len() && #[trigger] entries[i].0@ == key
}

/// The map that a list of entries with distinct keys stands for.
pub open spec fn entries_map<V>(entries: Seq<(String, V)>) -> Map<Seq<char>, V> {
    Map::new(|k: Seq<char>| has_key(entries, k), |k: Seq<char>| entries[entry_index(entries, k)].1)
}

/// An entry at position `i` is what the map holds under its key.
pub proof fn lemma_entries_map_at<V>(entries: Seq<(String, V)>, i: int)
    requires
        key_views(entries).no_duplicates(),
        0 <= i < entries.len(),
    ensures
        entries_map(entries).contains_key(entries[i].0@),
        entries_map(entries)[entries[i].0@] == entries[i].1,
{
    let k = entries[i].0@;
    assert(has_key(entries, k));
    let j = entry_index(entries, k);
    assert(key_views(entries)[j] == entries[j].0@);
    assert(key_views(entries)[i] == entries[i].0@);
    assert(j == i);
    assert(entries_map(entries)[k] == entries[j].1);
}

/// A map from `String` keys to values that can be swept of entries by their
/// expiry.
pub struct Cache<V> {
    entries: Vec<(String, V)>,
}

impl<V> View for Cache<V> {
    type V = Map<Seq<char>, V>;

    closed spec fn view(&self) -> Map<Seq<char>, V> {
        entries_map(self.entries@)
    }
}

impl<V> Cache<V> {
    pub closed spec fn wf(&self) -> bool {
        key_views(self.entries@).no_duplicates()
    }

    pub fn new() -> (r: Self)
        ensures
            r.wf(),
            r@ == Map::<Seq<char>, V>::empty(),
    {
        let r = Cache { entries: Vec::new() };
        assert(key_views(r.entries@) =~= Seq::<Seq<char>>::empty());
        assert(r@ =~= Map::<Seq<char>, V>::empty());
        r
    }

    /// The position of the entry with key `key`, if there is one.
    fn find(&self, key: &str) -> (r: Option<usize>)
        requires
            self.wf(),
        ensures
            match r {
                Some(i) => i < self.entries@.len() && self.entries@[i as int].0@ == key@,
                None => !has_key(self.entries@, key@),
            },
    {
        let target = key.to_owned();
        let mut i: usize = 0;
        while i < self.entries.len()
            invariant
                0 <= i <= self.entries@.len(),
                target@ == key@,
                forall|j: int| 0 <= j < i ==> #[trigger] self.entries@[j].0@ != key@,
            decreases self.entries@.len() - i,
        {
            if self.entries[i].0 == target {
                return Some(i);
            }
            i = i + 1;
        }
        None
    }

    pub fn contains_key(&self, key: &str) -> (r: bool)
        requires
            self.wf(),
        ensures
            r == self@.contains_key(key@),
    {
        self.find(key).is_some()
    }

    pub fn get(&self, key: &str) -> (r: Option<&V>)
        requires
            self.wf(),
        ensures
            match r {
                Some(v) => self@.contains_key(key@) && *v == self@[key@],
                None => !self@.contains_key(key@),
            },
    {
        match self.find(key) {
            Some(i) => {
                proof {
                    lemma_entries_map_at(self.entries@, i as int);
                }
                Some(&self.entries[i].1)
            },
            None => None,
        }
    }

    /// Stores `value` under `key`, replacing an earlier value.
    pub fn insert(&mut self, key: String, value: V)
        requires
            old(self).wf(),
        ensures
            final(self).wf(),
            final(self)@ == old(self)@.insert(key@, value),
    {
        let ghost e0 = self.entries@;
        let ghost k = key@;
        match self.find(key.as_str()) {
            Some(i) => {
                self.entries.set(i, (key, value));
                proof {
                    let e = self.entries@;
                    assert(key_views(e) =~= key_views(e0));
                    assert forall|x: Seq<char>| #[trigger] has_key(e, x) == has_key(e0, x) by {
                        if has_key(e, x) {
                            let j = choose|j: int| 0 <= j < e.len() && #[trigger] e[j].0@ == x;
                            assert(e0[j].0@ == x);
                        }
                        if has_key(e0, x) {
                            let j = choose|j: int| 0 <= j < e0.len() && #[trigger] e0[j].0@ == x;
                            assert(e[j].0@ == x);
                        }
                    }
                    assert forall|x: Seq<char>| #[trigger] has_key(e, x) implies entries_map(e)[x]
                        == old(self)@.insert(k, value)[x] by {
                        let j = choose|j: int| 0 <= j < e.len() && #[trigger] e[j].0@ == x;
                        lemma_entries_map_at(e, j);
                        if j != i {
                            assert(e[j] == e0[j]);
                            assert(key_views(e)[j] != key_views(e)[i as int]);
                            assert(x != k);
                            lemma_entries_map_at(e0, j);
                        }
                    }
                    assert(self@ =~= old(self)@.insert(k, value));
                }
            },
            None => {
                self.entries.push((key, value));
                proof {
                    assert(self.entries@ == e0.push(self.entries@.last()));
                    lemma_entries_map_push(e0, self.entries@.last());
                }
            },
        }
    }

    /// Removes `key`, returning the value it held.
    pub fn remove(&mut self, key: &str) -> (r: Option<V>)
        requires
            old(self).wf(),
        ensures
            final(self).wf(),
            final(self)@ == old(self)@.remove(key@),
            match r {
                Some(v) => old(self)@.contains_key(key@) && v == old(self)@[key@],
                None => !old(self)@.contains_key(key@),
            },
    {
        let ghost e0 = self.entries@;
        let ghost k = key@;
        match self.find(key) {
            Some(i) => {
                proof {
                    lemma_entries_map_at(e0, i as int);
                }
                let (_key, value) = self.entries.remove(i);
                proof {
                    let e = self.entries@;
                    assert(key_views(e) =~= key_views(e0).remove(i as int));
                    assert forall|x: Seq<char>| #[trigger] has_key(e, x) == (has_key(e0, x) && x != k) by {
                        if has_key(e, x) {
                            let j = choose|j: int| 0 <= j < e.len() && #[trigger] e[j].0@ == x;
                            let j0 = if j < i { j } else { j + 1 };
                            assert(e0[j0].0@ == x);
                            assert(key_views(e0)[j0] != key_views(e0)[i as int]);
                        }
                        if has_key(e0, x) && x != k {
                            let j0 = choose|j: int| 0 <= j < e0.len() && #[trigger] e0[j].0@ == x;
                            let j = if j0 < i { j0 } else { j0 - 1 };
                            assert(e[j].0@ == x);
                        }
                    }
                    assert forall|x: Seq<char>| #[trigger] has_key(e, x) implies entries_map(e)[x]
                        == old(self)@.remove(k)[x] by {
                        let j = choose|j: int| 0 <= j < e.len() && #[trigger] e[j].0@ == x;
                        let j0 = if j < i { j } else { j + 1 };
                        lemma_entries_map_at(e, j);
                        assert(e[j] == e0[j0]);
                        lemma_entries_map_at(e0, j0);
                    }
                    assert(self@ =~= old(self)@.remove(k));
                }
                Some(value)
            },
            None => {
                proof {
                    assert(self@ =~= old(self)@.remove(k));
                }
                None
            },
        }
    }
}

/// Appending an entry under a new key adds that key to the map.
proof fn lemma_entries_map_push<V>(e: Seq<(String, V)>, x: (String, V))
    requires
        key_views(e).no_duplicates(),
        !has_key(e, x.0@),
    ensures
        key_views(e.push(x)).no_duplicates(),
        entries_map(e.push(x)) == entries_map(e).insert(x.0@, x.1),
{
    let e2 = e.push(x);
    let k = x.0@;
    assert(key_views(e2) =~= key_views(e).push(k));
    assert(!key_views(e).contains(k)) by {
        if key_views(e).contains(k) {
            let j = choose|j: int| 0 <= j < key_views(e).len() && key_views(e)[j] == k;
            assert(e[j].0@ == k);
        }
    }
    assert forall|y: Seq<char>| #[trigger] has_key(e2, y) == (has_key(e, y) || y == k) by {
        if has_key(e2, y) {
            let j = choose|j: int| 0 <= j < e2.len() && #[trigger] e2[j].0@ == y;
            if j < e.len() {
                assert(e[j].0@ == y);
            }
        }
        if has_key(e, y) {
            let j = choose|j: int| 0 <= j < e.len() && #[trigger] e[j].0@ == y;
            assert(e2[j].0@ == y);
        }
        if y == k {
            assert(e2[e.len() as int].0@ == y);
        }
    }
    assert forall|y: Seq<char>| #[trigger] has_key(e2, y) implies entries_map(e2)[y] == entries_map(e).insert(
        k,
        x.1,
    )[y] by {
        let j = choose|j: int| 0 <= j < e2.len() && #[trigger] e2[j].0@ == y;
        lemma_entries_map_at(e2, j);
        if j < e.len() {
            assert(e2[j] == e[j]);
            lemma_entries_map_at(e, j);
        }
    }
    assert(entries_map(e2) =~= entries_map(e).insert(k, x.1));
}

/// One step of a sweep at time `now`: after the first `taken` entries of `e0`
/// have been looked at, the next one is kept exactly when it counts as expired.
proof fn lemma_sweep_step<V: CacheValue>(e0: Seq<(String, V)>, kept: Seq<(String, V)>, taken: int, now: u64)
    requires
        key_views(e0).no_duplicates(),
        0 <= taken < e0.len(),
        key_views(kept).no_duplicates(),
        entries_map(kept) == expired_entries(entries_map(e0.take(taken)), now),
    ensures
        ({
            let next = if e0[taken].1.expired_at(now) { kept.push(e0[taken]) } else { kept };
            &&& key_views(next).no_duplicates()
            &&& entries_map(next) == expired_entries(entries_map(e0.take(taken + 1)), now)
        }),
{
    let x = e0[taken];
    let k = x.0@;
    let before = e0.take(taken);
    assert(e0.take(taken + 1) =~= before.push(x));
    assert(!has_key(before, k)) by {
        if has_key(before, k) {
            let j = choose|j: int| 0 <= j < before.len() && #[trigger] before[j].0@ == k;
            assert(key_views(e0)[j] == key_views(e0)[taken]);
        }
    }
    assert(key_views(before).no_duplicates()) by {
        assert forall|a: int, b: int|
            0 <= a < key_views(before).len() && 0 <= b < key_views(before).len() && a != b implies key_views(
            before,
        )[a] != key_views(before)[b] by {
            assert(key_views(before)[a] == key_views(e0)[a]);
            assert(key_views(before)[b] == key_views(e0)[b]);
        }
    }
    lemma_entries_map_push(before, x);
    let m0 = entries_map(before);
    assert(!has_key(kept, k)) by {
        if has_key(kept, k) {
            assert(entries_map(kept).contains_key(k));
        }
    }
    if x.1.expired_at(now) {
        lemma_entries_map_push(kept, x);
        assert(expired_entries(m0.insert(k, x.1), now) =~= expired_entries(m0, now).insert(k, x.1));
    } else {
        assert(expired_entries(m0.insert(k, x.1), now) =~= expired_entries(m0, now));
    }
}

impl<V: CacheValue> Cache<V> {
    /// Sweeps the cache at time `now`: an entry stays exactly when its value
    /// counts as expired at that time.
    pub fn clean_expired_at(&mut self, now: u64)
        requires
            old(self).wf(),
        ensures
            final(self).wf(),
            final(self)@ == expired_entries(old(self)@, now),
    {
        let ghost e0 = self.entries@;
        let mut old_entries: Vec<(String, V)> = Vec::new();
        std::mem::swap(&mut old_entries, &mut self.entries);
        let mut kept: Vec<(String, V)> = Vec::new();
        let mut rest = old_entries;
        let ghost mut taken: int = 0;
        proof {
            assert(e0.take(0) =~= Seq::<(String, V)>::empty());
            assert(key_views(kept@) =~= Seq::<Seq<char>>::empty());
            assert(entries_map(kept@) =~= expired_entries(entries_map(e0.take(0)), now));
        }
        while rest.len() > 0
            invariant
                key_views(e0).no_duplicates(),
                0 <= taken,
                taken + rest@.len() == e0.len(),
                rest@ == e0.subrange(taken, e0.len() as int),
                key_views(kept@).no_duplicates(),
                entries_map(kept@) == expired_entries(entries_map(e0.take(taken)), now),
            decreases rest@.len(),
        {
            let entry = rest.remove(0);
            proof {
                assert(entry == e0[taken]);
                lemma_sweep_step(e0, kept@, taken, now);
            }
            if entry.1.is_expire_at(now) {
                kept.push(entry);
            }
            proof {
                taken = taken + 1;
                assert(rest@ =~= e0.subrange(taken, e0.len() as int));
            }
        }
        proof {
            assert(e0.take(taken) =~= e0);
        }
        self.entries = kept;
    }

    /// Sweeps the cache by the clock: an entry stays exactly when its value
    /// counts as expired at the time the clock reads. A clock that reads
    /// before the epoch counts as time 0.
    pub fn clean_expired_value(&mut self)
        requires
            old(self).wf(),
        ensures
            final(self).wf(),
            exists|now: u64| final(self)@ == #[trigger] expired_entries(old(self)@, now),
    {
        let now = match crate::jwt::unix_now() {
            Some(now) => now,
            None => 0,
        };
        self.clean_expired_at(now);
    }
}

} // verus!
