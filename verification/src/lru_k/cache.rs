use vstd::prelude::*;
use vstd::hash_map::StringHashMap;
use super::linked_list::{LinkedList, Node};
use super::model::{HistoryEntry, CacheEntry, LRUKModel, bump, evict_back};

verus! {

/// The history entries that a history list and its index describe.
pub open spec fn history_of<V>(
    l: Seq<(String, V)>,
    m: Map<Seq<char>, (usize, usize)>,
) -> Seq<HistoryEntry<V>> {
    Seq::new(l.len(), |i: int| HistoryEntry { key: l[i].0@, value: l[i].1, hits: m[l[i].0@].1 })
}

/// The cache entries that a cache list, its handles and its index describe.
pub open spec fn cache_of<V>(
    l: Seq<(String, V)>,
    hs: Seq<usize>,
    m: Map<Seq<char>, usize>,
) -> Seq<CacheEntry<V>> {
    Seq::new(
        l.len(),
        |j: int|
            CacheEntry {
                key: l[j].0@,
                value: l[j].1,
                indexed: m.contains_key(l[j].0@) && m[l[j].0@] == hs[j],
            },
    )
}

/// Every entry of the history list is indexed under its key with its
/// handle, and every indexed key has an entry in the list.
pub open spec fn history_indexed<V>(
    l: Seq<(String, V)>,
    hs: Seq<usize>,
    m: Map<Seq<char>, (usize, usize)>,
) -> bool {
    &&& forall|i: int|
        #![trigger l[i]]
        0 <= i < l.len() ==> m.contains_key(l[i].0@) && m[l[i].0@].0 == hs[i]
    &&& forall|key: Seq<char>|
        #[trigger] m.contains_key(key) ==> exists|i: int| 0 <= i < l.len() && #[trigger] l[i].0@ == key
}

/// Every key of the cache index points at an entry of the cache list with
/// that key.
pub open spec fn cache_indexed<V>(
    l: Seq<(String, V)>,
    hs: Seq<usize>,
    m: Map<Seq<char>, usize>,
) -> bool {
    forall|key: Seq<char>|
        #[trigger] m.contains_key(key) ==> exists|j: int|
            0 <= j < l.len() && #[trigger] hs[j] == m[key] && l[j].0@ == key
}

/// An LRU-K cache with `String` keys. A key enters the history on its first
/// write and moves to the cache on its K-th access (write or read); the
/// history holds at most `history_cap` keys and the cache list at most `cap`
/// entries, each evicting its least recently used entry when it grows past
/// that.
pub struct LRUKCache<V> {
    k: usize,
    cap: usize,
    cache: StringHashMap<usize>,
    cache_linked_list: LinkedList<(String, V)>,
    history_cap: usize,
    history_cache: StringHashMap<(usize, usize)>,
    history_linked_list: LinkedList<(String, V)>,
}

impl<V> View for LRUKCache<V> {
    type V = LRUKModel<V>;

    closed spec fn view(&self) -> LRUKModel<V> {
        LRUKModel {
            k: self.k,
            cap: self.cap,
            history_cap: self.history_cap,
            history: history_of(self.history_linked_list@, self.history_cache@),
            cache: cache_of(
                self.cache_linked_list@,
                self.cache_linked_list.handles(),
                self.cache@,
            ),
        }
    }
}

impl<V> LRUKCache<V> {
    pub closed spec fn wf(&self) -> bool {
        &&& self.history_linked_list.wf()
        &&& self.cache_linked_list.wf()
        &&& history_indexed(
            self.history_linked_list@,
            self.history_linked_list.handles(),
            self.history_cache@,
        )
        &&& cache_indexed(self.cache_linked_list@, self.cache_linked_list.handles(), self.cache@)
        &&& self@.inv()
    }

    /// Creates an empty cache that admits a key on its `k`-th access and holds
    /// at most `cap` cache entries and `history_cap` history entries.
    pub fn new(k: usize, cap: usize, history_cap: usize) -> (r: Self)
        ensures
            r.wf(),
            r@.inv(),
            r@.k == k,
            r@.cap == cap,
            r@.history_cap == history_cap,
            r@.history == Seq::<HistoryEntry<V>>::empty(),
            r@.cache == Seq::<CacheEntry<V>>::empty(),
    {
        let r = LRUKCache {
            k,
            cap,
            cache: StringHashMap::new(),
            cache_linked_list: LinkedList::new(),
            history_cap,
            history_cache: StringHashMap::new(),
            history_linked_list: LinkedList::new(),
        };
        assert(r@.history =~= Seq::<HistoryEntry<V>>::empty());
        assert(r@.cache =~= Seq::<CacheEntry<V>>::empty());
        r
    }

    proof fn lemma_history_lookup(&self, key: Seq<char>)
        requires
            self.wf(),
        ensures
            self.history_cache@.contains_key(key) <==> self@.in_history(key),
            self@.in_history(key) ==> {
                let p = self@.history_position(key);
                &&& 0 <= p < self.history_linked_list@.len()
                &&& self.history_linked_list.handles()[p] == self.history_cache@[key].0
                &&& self.history_linked_list@[p].0@ == key
                &&& self@.history[p].hits == self.history_cache@[key].1
                &&& self@.history[p].value == self.history_linked_list@[p].1
            },
    {
        self.history_linked_list.lemma_wf_view();
        let l = self.history_linked_list@;
        let s = self@;
        if self.history_cache@.contains_key(key) {
            let i = choose|i: int| 0 <= i < l.len() && #[trigger] l[i].0@ == key;
            assert(s.history[i].key == key);
            let p = s.history_position(key);
            if p != i {
                if p < i {
                    assert(s.history[p].key != s.history[i].key);
                } else {
                    assert(s.history[i].key != s.history[p].key);
                }
            }
        }
        if s.in_history(key) {
            let i = choose|i: int| 0 <= i < s.history.len() && #[trigger] s.history[i].key == key;
            assert(l[i].0@ == key);
        }
    }

    proof fn lemma_cache_lookup(&self, key: Seq<char>)
        requires
            self.wf(),
        ensures
            self.cache@.contains_key(key) <==> self@.in_cache(key),
            self@.in_cache(key) ==> {
                let p = self@.cache_position(key);
                &&& 0 <= p < self.cache_linked_list@.len()
                &&& self.cache_linked_list.handles()[p] == self.cache@[key]
                &&& self.cache_linked_list@[p].0@ == key
                &&& self@.cache[p].value == self.cache_linked_list@[p].1
            },
    {
        self.cache_linked_list.lemma_wf_view();
        let l = self.cache_linked_list@;
        let hs = self.cache_linked_list.handles();
        let s = self@;
        if self.cache@.contains_key(key) {
            let j = choose|j: int| 0 <= j < l.len() && #[trigger] hs[j] == self.cache@[key] && l[j].0@ == key;
            assert(s.cache[j].key == key && s.cache[j].indexed);
            let p = s.cache_position(key);
            if p != j {
                if p < j {
                    assert(s.cache[p].key != s.cache[j].key);
                } else {
                    assert(s.cache[j].key != s.cache[p].key);
                }
            }
        }
        if s.in_cache(key) {
            let j = choose|j: int| 0 <= j < s.cache.len() && #[trigger] s.cache[j].key == key && s.cache[j].indexed;
            assert(l[j].0@ == key);
        }
    }
}

impl<V> LRUKCache<V> {
    /// Moves an entry that reached its K-th access into the cache list.
    fn put_cache(&mut self, node: Node<(String, V)>)
        requires
            old(self).wf(),
        ensures
            final(self).wf(),
            final(self)@ == old(self)@.promote(node.value().0@, node.value().1),
    {
        let ghost s = self@;
        let ghost key = node.value().0@;
        let ghost value = node.value().1;
        let ghost cl0 = self.cache_linked_list@;
        let ghost ch0 = self.cache_linked_list.handles();
        let ghost cm0 = self.cache@;
        let k: String = node.elem().0.clone();
        proof {
            self.lemma_cache_lookup(key);
            self.cache_linked_list.lemma_wf_view();
        }
        if self.cache.contains_key(k.as_str()) {
            let n: usize = *self.cache.get(k.as_str()).unwrap();
            self.cache.remove(k.as_str());
            let ghost p = s.cache_position(key);
            let _unlinked = self.cache_linked_list.unlink_node(n);
            let _h = self.cache_linked_list.push_front_node(node);
            proof {
                let cl = self.cache_linked_list@;
                let ch = self.cache_linked_list.handles();
                let cm = self.cache@;
                self.cache_linked_list.lemma_wf_view();
                assert(cl == seq![(k, value)] + cl0.remove(p));
                assert(ch == seq![n] + ch0.remove(p));
                let c1 = seq![CacheEntry { key, value, indexed: false }] + s.cache.remove(p);
                assert forall|j: int| 0 <= j < cl.len() implies #[trigger] cache_of(cl, ch, cm)[j] == c1[j] by {
                    if j > 0 {
                        let j0 = if j - 1 < p { j - 1 } else { j };
                        assert(cl[j] == cl0[j0]);
                        assert(ch[j] == ch0[j0]);
                        if cl0[j0].0@ == key {
                            assert(j0 != p);
                            assert(ch0[j0] != ch0[p]);
                        }
                    }
                }
                assert(cache_of(cl, ch, cm) =~= c1);
                assert forall|key2: Seq<char>| #[trigger] cm.contains_key(key2) implies exists|j: int|
                    0 <= j < cl.len() && #[trigger] ch[j] == cm[key2] && cl[j].0@ == key2 by {
                    assert(cm0.contains_key(key2));
                    let j0 = choose|j: int| 0 <= j < cl0.len() && #[trigger] ch0[j] == cm0[key2] && cl0[j].0@ == key2;
                    assert(j0 != p);
                    let j = if j0 < p { j0 + 1 } else { j0 };
                    assert(ch[j] == ch0[j0] && cl[j] == cl0[j0]);
                }
            }
        } else {
            let h = self.cache_linked_list.push_front_node(node);
            self.cache.insert(k, h);
            proof {
                let cl = self.cache_linked_list@;
                let ch = self.cache_linked_list.handles();
                let cm = self.cache@;
                self.cache_linked_list.lemma_wf_view();
                let c1 = seq![CacheEntry { key, value, indexed: true }] + s.cache;
                assert forall|j: int| 0 <= j < cl.len() implies #[trigger] cache_of(cl, ch, cm)[j] == c1[j] by {
                    if j > 0 {
                        assert(cl[j] == cl0[j - 1]);
                        assert(ch[j] == ch0[j - 1]);
                        assert(ch[j] != ch[0]);
                    }
                }
                assert(cache_of(cl, ch, cm) =~= c1);
                assert forall|key2: Seq<char>| #[trigger] cm.contains_key(key2) implies exists|j: int|
                    0 <= j < cl.len() && #[trigger] ch[j] == cm[key2] && cl[j].0@ == key2 by {
                    if key2 == key {
                        assert(ch[0] == cm[key2] && cl[0].0@ == key2);
                    } else {
                        assert(cm0.contains_key(key2));
                        let j0 = choose|j: int| 0 <= j < cl0.len() && #[trigger] ch0[j] == cm0[key2] && cl0[j].0@ == key2;
                        assert(ch[j0 + 1] == ch0[j0] && cl[j0 + 1] == cl0[j0]);
                    }
                }
            }
        }
        let ghost mid = self@;
        if self.cache_linked_list.len() > self.cap {
            let ghost cl1 = self.cache_linked_list@;
            let ghost ch1 = self.cache_linked_list.handles();
            let ghost cm1 = self.cache@;
            let popped = self.cache_linked_list.pop_back_node();
            match popped {
                Some(d) => {
                    let (dk, _dv) = d.into_elem();
                    self.cache.remove(dk.as_str());
                    proof {
                        let cl = self.cache_linked_list@;
                        let ch = self.cache_linked_list.handles();
                        let cm = self.cache@;
                        let gone = dk@;
                        assert(gone == mid.cache.last().key);
                        assert forall|j: int| 0 <= j < cl.len() implies #[trigger] cache_of(cl, ch, cm)[j]
                            == evict_back(mid.cache)[j] by {
                            assert(cl[j] == cl1[j] && ch[j] == ch1[j]);
                        }
                        assert(cache_of(cl, ch, cm) =~= evict_back(mid.cache));
                        assert forall|key2: Seq<char>| #[trigger] cm.contains_key(key2) implies exists|j: int|
                            0 <= j < cl.len() && #[trigger] ch[j] == cm[key2] && cl[j].0@ == key2 by {
                            assert(cm1.contains_key(key2));
                            let j0 = choose|j: int| 0 <= j < cl1.len() && #[trigger] ch1[j] == cm1[key2] && cl1[j].0@ == key2;
                            assert(j0 != cl1.len() - 1);
                            assert(ch[j0] == ch1[j0] && cl[j0] == cl1[j0]);
                        }
                    }
                },
                None => {},
            }
        }
        proof {
            assert(self@.history == s.history);
            lemma_promote_inv(s, key, value);
        }
    }
}

impl<V> LRUKCache<V> {
    /// Takes the history entry at position `p` (indexed under `key`) out of
    /// the history list and the history index; the result describes the
    /// model without that entry.
    fn take_history_entry(&mut self, key: &String, h: usize, Ghost(p): Ghost<int>) -> (n: Node<(String, V)>)
        requires
            old(self).wf(),
            old(self)@.in_history(key@),
            p == old(self)@.history_position(key@),
            h == old(self).history_cache@[key@].0,
        ensures
            final(self).wf(),
            final(self)@ == old(self)@.with_history(old(self)@.history.remove(p)),
            n.value().0@ == key@,
            n.value().1 == old(self)@.history[p].value,
    {
        proof {
            self.lemma_history_lookup(key@);
            self.history_linked_list.lemma_wf_view();
        }
        let ghost s = self@;
        let ghost l0 = self.history_linked_list@;
        let ghost hs0 = self.history_linked_list.handles();
        let ghost m0 = self.history_cache@;
        self.history_cache.remove(key.as_str());
        let n = self.history_linked_list.unlink_node(h);
        proof {
            let l = self.history_linked_list@;
            let hs = self.history_linked_list.handles();
            let m = self.history_cache@;
            self.history_linked_list.lemma_wf_view();
            assert forall|i: int| 0 <= i < l.len() implies l[i] == l0[if i < p { i } else { i + 1 }]
                && hs[i] == hs0[if i < p { i } else { i + 1 }] && l[i].0@ != key@ by {
                let i0 = if i < p { i } else { i + 1 };
                assert(s.history[i0].key != s.history[p].key || i0 == p);
                if i0 < p {
                    assert(s.history[i0].key != s.history[p].key);
                } else {
                    assert(s.history[p].key != s.history[i0].key);
                }
            }
            assert(history_of(l, m) =~= s.history.remove(p));
            assert forall|key2: Seq<char>| #[trigger] m.contains_key(key2) implies exists|i: int|
                0 <= i < l.len() && #[trigger] l[i].0@ == key2 by {
                let i0 = choose|i: int| 0 <= i < l0.len() && #[trigger] l0[i].0@ == key2;
                assert(i0 != p);
                let i = if i0 < p { i0 } else { i0 - 1 };
                assert(l[i] == l0[i0]);
            }
            let t = s.with_history(s.history.remove(p));
            assert forall|i: int, j: int| 0 <= i < j < t.history.len() implies #[trigger] t.history[i].key
                != #[trigger] t.history[j].key by {
                let i0 = if i < p { i } else { i + 1 };
                let j0 = if j < p { j } else { j + 1 };
                assert(t.history[i] == s.history[i0] && t.history[j] == s.history[j0]);
            }
            if t.k >= 2 {
                assert forall|i: int| 0 <= i < t.history.len() implies 1 <= #[trigger] t.history[i].hits < t.k by {
                    let i0 = if i < p { i } else { i + 1 };
                    assert(t.history[i] == s.history[i0]);
                }
            }
            assert(self@ == t);
        }
        n
    }

    /// Counts an access to `key` in the history and promotes the key to the
    /// cache on its K-th access.
    fn hit_history(&mut self, key: &String)
        requires
            old(self).wf(),
        ensures
            final(self).wf(),
            final(self)@ == old(self)@.hit(key@),
    {
        proof {
            self.lemma_history_lookup(key@);
        }
        let ghost s = self@;
        let entry = self.history_cache.get(key.as_str());
        match entry {
            Some(pair) => {
                let (h, hits) = *pair;
                let ghost p = s.history_position(key@);
                let new_hits: usize = if hits == usize::MAX { 0 } else { hits + 1 };
                if new_hits == self.k {
                    let node = self.take_history_entry(key, h, Ghost(p));
                    self.put_cache(node);
                } else {
                    let ghost l = self.history_linked_list@;
                    self.history_cache.insert(key.clone(), (h, new_hits));
                    proof {
                        let m = self.history_cache@;
                        let e = s.history[p];
                        let expect = s.history.update(p, HistoryEntry { key: e.key, value: e.value, hits: new_hits });
                        assert forall|i: int| 0 <= i < l.len() implies #[trigger] history_of(l, m)[i] == expect[i] by {
                            if i != p {
                                if i < p {
                                    assert(s.history[i].key != s.history[p].key);
                                } else {
                                    assert(s.history[p].key != s.history[i].key);
                                }
                            }
                        }
                        assert(history_of(l, m) =~= expect);
                        assert forall|key2: Seq<char>| #[trigger] m.contains_key(key2) implies exists|i: int|
                            0 <= i < l.len() && #[trigger] l[i].0@ == key2 by {
                            if key2 == key@ {
                                assert(l[p].0@ == key2);
                            } else {
                                assert(s.history[0].key == l[0].0@ || l.len() == 0);
                                assert(self.history_cache@.contains_key(key2));
                                assert(old(self).history_cache@.contains_key(key2));
                            }
                        }
                        let t = s.with_history(expect);
                        assert forall|i: int, j: int| 0 <= i < j < t.history.len() implies #[trigger] t.history[i].key
                            != #[trigger] t.history[j].key by {
                            assert(t.history[i].key == s.history[i].key && t.history[j].key == s.history[j].key);
                        }
                        if t.k >= 2 {
                            assert forall|i: int| 0 <= i < t.history.len() implies 1 <= #[trigger] t.history[i].hits < t.k by {
                                assert(1 <= s.history[i].hits < s.k);
                            }
                        }
                        assert(self@ == t);
                    }
                }
            },
            None => {},
        }
    }
}

impl<V> LRUKCache<V> {
    /// Looks `key` up in the cache; a hit moves its entry to the front.
    fn get_cache(&mut self, key: &String) -> (r: Option<&V>)
        requires
            old(self).wf(),
        ensures
            final(self).wf(),
            final(self)@ == old(self)@.lookup(key@).0,
            match r {
                Some(v) => old(self)@.lookup(key@).1 == Some(*v),
                None => old(self)@.lookup(key@).1 is None,
            },
    {
        proof {
            self.lemma_cache_lookup(key@);
            self.cache_linked_list.lemma_wf_view();
        }
        let ghost s = self@;
        let ghost cl0 = self.cache_linked_list@;
        let ghost ch0 = self.cache_linked_list.handles();
        let entry = self.cache.get(key.as_str());
        match entry {
            Some(hr) => {
                let h = *hr;
                let ghost p = s.cache_position(key@);
                let node = self.cache_linked_list.unlink_node(h);
                let h2 = self.cache_linked_list.push_front_node(node);
                proof {
                    let cl = self.cache_linked_list@;
                    let ch = self.cache_linked_list.handles();
                    let cm = self.cache@;
                    self.cache_linked_list.lemma_wf_view();
                    assert(h2 == h);
                    assert(cl == seq![cl0[p]] + cl0.remove(p));
                    assert(ch == seq![h] + ch0.remove(p));
                    let expect = seq![s.cache[p]] + s.cache.remove(p);
                    assert forall|j: int| 0 <= j < cl.len() implies #[trigger] cache_of(cl, ch, cm)[j] == expect[j] by {
                        if j > 0 {
                            let j0 = if j - 1 < p { j - 1 } else { j };
                            assert(cl[j] == cl0[j0] && ch[j] == ch0[j0]);
                        }
                    }
                    assert(cache_of(cl, ch, cm) =~= expect);
                    assert forall|key2: Seq<char>| #[trigger] cm.contains_key(key2) implies exists|j: int|
                        0 <= j < cl.len() && #[trigger] ch[j] == cm[key2] && cl[j].0@ == key2 by {
                        let j0 = choose|j: int| 0 <= j < cl0.len() && #[trigger] ch0[j] == cm[key2] && cl0[j].0@ == key2;
                        let j = if j0 == p { 0 } else if j0 < p { j0 + 1 } else { j0 };
                        assert(ch[j] == ch0[j0] && cl[j] == cl0[j0]);
                    }
                    let t = s.with_cache(expect);
                    assert forall|i: int, j: int|
                        0 <= i < j < t.cache.len() && t.cache[i].indexed && t.cache[j].indexed implies #[trigger] t.cache[i].key
                        != #[trigger] t.cache[j].key by {
                        let i0 = if i == 0 { p } else if i - 1 < p { i - 1 } else { i };
                        let j0 = if j - 1 < p { j - 1 } else { j };
                        assert(t.cache[i] == s.cache[i0] && t.cache[j] == s.cache[j0]);
                        if i0 < j0 {
                        } else {
                            assert(s.cache[j0].key != s.cache[i0].key);
                        }
                    }
                    assert(self@ == t);
                }
                let e = self.cache_linked_list.elem_of(h2);
                Some(&e.1)
            },
            None => None,
        }
    }

    /// Records a write of `value` under `key` in the history, promoting the
    /// key to the cache on its K-th access.
    fn put_history(&mut self, key: String, value: V)
        requires
            old(self).wf(),
        ensures
            final(self).wf(),
            final(self)@ == old(self)@.put(key@, value),
    {
        proof {
            self.lemma_history_lookup(key@);
            self.history_linked_list.lemma_wf_view();
        }
        let ghost s = self@;
        let ghost l0 = self.history_linked_list@;
        let ghost hs0 = self.history_linked_list.handles();
        let ghost m0 = self.history_cache@;
        let entry = self.history_cache.get(key.as_str());
        match entry {
            Some(pair) => {
                let (h, hits) = *pair;
                let ghost p = s.history_position(key@);
                let new_hits: usize = if hits == usize::MAX { 0 } else { hits + 1 };
                let _old = self.take_history_entry(&key, h, Ghost(p));
                if new_hits == self.k {
                    self.put_cache(Node::new((key, value)));
                } else {
                    let ghost mid = self@;
                    let ghost l1 = self.history_linked_list@;
                    let ghost hs1 = self.history_linked_list.handles();
                    let ghost m1 = self.history_cache@;
                    proof {
                        self.history_linked_list.lemma_wf_view();
                        assert(!m1.contains_key(key@)) by {
                            if m1.contains_key(key@) {
                                let i = choose|i: int| 0 <= i < l1.len() && #[trigger] l1[i].0@ == key@;
                                assert(mid.history[i].key == key@);
                                let i0 = if i < p { i } else { i + 1 };
                                assert(mid.history[i] == s.history[i0]);
                                if i0 < p {
                                    assert(s.history[i0].key != s.history[p].key);
                                } else {
                                    assert(s.history[p].key != s.history[i0].key);
                                }
                            }
                        }
                    }
                    let kc = key.clone();
                    let h2 = self.history_linked_list.push_front_node(Node::new((kc, value)));
                    self.history_cache.insert(key, (h2, new_hits));
                    proof {
                        let l = self.history_linked_list@;
                        let hs = self.history_linked_list.handles();
                        let m = self.history_cache@;
                        self.history_linked_list.lemma_wf_view();
                        let expect = seq![HistoryEntry { key: key@, value, hits: new_hits }] + mid.history;
                        assert forall|i: int| 0 <= i < l.len() implies #[trigger] history_of(l, m)[i] == expect[i] by {
                            if i > 0 {
                                assert(l[i] == l1[i - 1]);
                                assert(m1.contains_key(l1[i - 1].0@));
                            }
                        }
                        assert(history_of(l, m) =~= expect);
                        assert forall|i: int| 0 <= i < l.len() implies #[trigger] m.contains_key(l[i].0@)
                            && m[l[i].0@].0 == hs[i] by {
                            if i > 0 {
                                assert(l[i] == l1[i - 1] && hs[i] == hs1[i - 1]);
                                assert(m1.contains_key(l1[i - 1].0@));
                            }
                        }
                        assert forall|key2: Seq<char>| #[trigger] m.contains_key(key2) implies exists|i: int|
                            0 <= i < l.len() && #[trigger] l[i].0@ == key2 by {
                            if key2 == key@ {
                                assert(l[0].0@ == key2);
                            } else {
                                assert(m1.contains_key(key2));
                                let i0 = choose|i: int| 0 <= i < l1.len() && #[trigger] l1[i].0@ == key2;
                                assert(l[i0 + 1] == l1[i0]);
                            }
                        }
                        let t = mid.with_history(expect);
                        assert forall|i: int, j: int| 0 <= i < j < t.history.len() implies #[trigger] t.history[i].key
                            != #[trigger] t.history[j].key by {
                            if i == 0 {
                                assert(t.history[j] == mid.history[j - 1]);
                                assert(m1.contains_key(l1[j - 1].0@));
                            } else {
                                assert(t.history[i] == mid.history[i - 1] && t.history[j] == mid.history[j - 1]);
                            }
                        }
                        if t.k >= 2 {
                            assert forall|i: int| 0 <= i < t.history.len() implies 1 <= #[trigger] t.history[i].hits < t.k by {
                                if i > 0 {
                                    assert(t.history[i] == mid.history[i - 1]);
                                } else {
                                    assert(1 <= s.history[p].hits < s.k);
                                }
                            }
                        }
                        assert(self@ == t);
                    }
                }
            },
            None => {
                let kc = key.clone();
                let h = self.history_linked_list.push_front_node(Node::new((kc, value)));
                self.history_cache.insert(key, (h, 1));
                let ghost mid = self@;
                let ghost l1 = self.history_linked_list@;
                let ghost hs1 = self.history_linked_list.handles();
                let ghost m1 = self.history_cache@;
                proof {
                    self.history_linked_list.lemma_wf_view();
                    let expect = seq![HistoryEntry { key: key@, value, hits: 1 }] + s.history;
                    assert forall|i: int| 0 <= i < l1.len() implies #[trigger] history_of(l1, m1)[i] == expect[i] by {
                        if i > 0 {
                            assert(l1[i] == l0[i - 1]);
                            assert(m0.contains_key(l0[i - 1].0@));
                        }
                    }
                    assert(history_of(l1, m1) =~= expect);
                    assert forall|i: int| 0 <= i < l1.len() implies #[trigger] m1.contains_key(l1[i].0@)
                        && m1[l1[i].0@].0 == hs1[i] by {
                        if i > 0 {
                            assert(l1[i] == l0[i - 1] && hs1[i] == hs0[i - 1]);
                            assert(m0.contains_key(l0[i - 1].0@));
                        }
                    }
                    assert forall|key2: Seq<char>| #[trigger] m1.contains_key(key2) implies exists|i: int|
                        0 <= i < l1.len() && #[trigger] l1[i].0@ == key2 by {
                        if key2 == key@ {
                            assert(l1[0].0@ == key2);
                        } else {
                            assert(m0.contains_key(key2));
                            let i0 = choose|i: int| 0 <= i < l0.len() && #[trigger] l0[i].0@ == key2;
                            assert(l1[i0 + 1] == l0[i0]);
                        }
                    }
                    assert forall|i: int, j: int| 0 <= i < j < expect.len() implies #[trigger] expect[i].key
                        != #[trigger] expect[j].key by {
                        if i == 0 {
                            assert(expect[j] == s.history[j - 1]);
                            assert(m0.contains_key(l0[j - 1].0@));
                        } else {
                            assert(expect[i] == s.history[i - 1] && expect[j] == s.history[j - 1]);
                        }
                    }
                    assert(mid.history == expect);
                }
                if self.history_linked_list.len() > self.history_cap {
                    let popped = self.history_linked_list.pop_back_node();
                    match popped {
                        Some(d) => {
                            let (dk, _dv) = d.into_elem();
                            self.history_cache.remove(dk.as_str());
                            proof {
                                let l = self.history_linked_list@;
                                let hs = self.history_linked_list.handles();
                                let m = self.history_cache@;
                                let last = l1.len() - 1;
                                assert(dk@ == l1[last].0@);
                                assert forall|i: int| 0 <= i < l.len() implies l[i] == l1[i] && hs[i] == hs1[i]
                                    && l[i].0@ != dk@ by {
                                    assert(mid.history[i].key != mid.history[last].key);
                                }
                                assert(history_of(l, m) =~= mid.history.drop_last());
                                assert forall|key2: Seq<char>| #[trigger] m.contains_key(key2) implies exists|i: int|
                                    0 <= i < l.len() && #[trigger] l[i].0@ == key2 by {
                                    let i0 = choose|i: int| 0 <= i < l1.len() && #[trigger] l1[i].0@ == key2;
                                    assert(i0 != last);
                                    assert(l[i0] == l1[i0]);
                                }
                                let t = mid.with_history(mid.history.drop_last());
                                assert forall|i: int, j: int| 0 <= i < j < t.history.len() implies #[trigger] t.history[i].key
                                    != #[trigger] t.history[j].key by {
                                    assert(t.history[i] == mid.history[i] && t.history[j] == mid.history[j]);
                                }
                                if t.k >= 2 {
                                    assert forall|i: int| 0 <= i < t.history.len() implies 1 <= #[trigger] t.history[i].hits < t.k by {
                                        assert(t.history[i] == mid.history[i]);
                                        if i > 0 {
                                            assert(mid.history[i] == s.history[i - 1]);
                                        }
                                    }
                                }
                                assert(self@ == t);
                            }
                        },
                        None => {},
                    }
                } else {
                    proof {
                        if mid.k >= 2 {
                            assert forall|i: int| 0 <= i < mid.history.len() implies 1 <= #[trigger] mid.history[i].hits < mid.k by {
                                if i > 0 {
                                    assert(mid.history[i] == s.history[i - 1]);
                                }
                            }
                        }
                    }
                }
            },
        }
    }

    /// Stores `value` under `key`: the write counts as an access in the
    /// history, and the K-th access admits the key to the cache.
    pub fn put(&mut self, key: String, value: V)
        requires
            old(self).wf(),
        ensures
            final(self).wf(),
            final(self)@.inv(),
            final(self)@ == old(self)@.put(key@, value),
    {
        self.put_history(key, value);
    }

    /// Reads `key`: the read counts as an access in the history (possibly
    /// admitting the key to the cache), then a cached value is returned and
    /// its entry becomes the most recently used.
    pub fn get(&mut self, key: &String) -> (r: Option<&V>)
        requires
            old(self).wf(),
        ensures
            final(self).wf(),
            final(self)@.inv(),
            final(self)@ == old(self)@.get(key@).0,
            match r {
                Some(v) => old(self)@.get(key@).1 == Some(*v),
                None => old(self)@.get(key@).1 is None,
            },
    {
        self.hit_history(key);
        self.get_cache(key)
    }
}

/// Promoting a key keeps the invariant.
pub proof fn lemma_promote_inv<V>(s: LRUKModel<V>, key: Seq<char>, value: V)
    requires
        s.inv(),
    ensures
        s.promote(key, value).inv(),
        s.promote(key, value).history == s.history,
{
    let c1 = if s.in_cache(key) {
        seq![CacheEntry { key, value, indexed: false }] + s.cache.remove(s.cache_position(key))
    } else {
        seq![CacheEntry { key, value, indexed: true }] + s.cache
    };
    assert forall|i: int, j: int|
        0 <= i < j < c1.len() && c1[i].indexed && c1[j].indexed implies #[trigger] c1[i].key
        != #[trigger] c1[j].key by {
        if s.in_cache(key) {
            let p = s.cache_position(key);
            let i0 = if i - 1 < p { i - 1 } else { i };
            let j0 = if j - 1 < p { j - 1 } else { j };
            assert(c1[i] == s.cache[i0] && c1[j] == s.cache[j0]);
        } else {
            if i == 0 {
                assert(c1[j] == s.cache[j - 1]);
                assert(!s.in_cache(key));
                if c1[j].key == key {
                    assert(s.cache[j - 1].key == key && s.cache[j - 1].indexed);
                }
            } else {
                assert(c1[i] == s.cache[i - 1] && c1[j] == s.cache[j - 1]);
            }
        }
    }
    if c1.len() > s.cap {
        let e = evict_back(c1);
        assert forall|i: int, j: int|
            0 <= i < j < e.len() && e[i].indexed && e[j].indexed implies #[trigger] e[i].key
            != #[trigger] e[j].key by {
            assert(c1[i].indexed && c1[j].indexed);
        }
    }
}

} // verus!
