use utils::lru_k::{LRUKCache, LinkedList, Node};

fn key(s: &str) -> String {
    s.to_string()
}

#[test]
fn second_access_by_read_admits_key() {
    let mut c: LRUKCache<u8> = LRUKCache::new(2, 2, 2);
    c.put(key("a"), 1);
    assert_eq!(c.get(&key("a")), Some(&1));
    assert_eq!(c.get(&key("a")), Some(&1));
}

#[test]
fn second_write_admits_latest_value() {
    let mut c: LRUKCache<u8> = LRUKCache::new(2, 2, 2);
    c.put(key("a"), 1);
    c.put(key("a"), 7);
    assert_eq!(c.get(&key("a")), Some(&7));
}

#[test]
fn unknown_key_reads_absent() {
    let mut c: LRUKCache<u8> = LRUKCache::new(2, 2, 2);
    assert_eq!(c.get(&key("missing")), None);
    c.put(key("a"), 1);
    assert_eq!(c.get(&key("b")), None);
}

#[test]
fn third_access_admits_with_k_three() {
    let mut c: LRUKCache<u8> = LRUKCache::new(3, 4, 4);
    c.put(key("a"), 1);
    assert_eq!(c.get(&key("a")), None);
    assert_eq!(c.get(&key("a")), Some(&1));
}

#[test]
fn history_evicts_least_recent_key() {
    let mut c: LRUKCache<u8> = LRUKCache::new(2, 4, 1);
    c.put(key("a"), 1);
    c.put(key("b"), 2);
    // "a" left the history, so this write starts its count again
    c.put(key("a"), 3);
    assert_eq!(c.get(&key("b")), None);
    assert_eq!(c.get(&key("a")), Some(&3));
}

#[test]
fn cache_evicts_least_recent_key() {
    let mut c: LRUKCache<u8> = LRUKCache::new(2, 1, 4);
    c.put(key("a"), 1);
    c.put(key("a"), 1);
    c.put(key("b"), 2);
    c.put(key("b"), 2);
    assert_eq!(c.get(&key("b")), Some(&2));
    // "a" was evicted from the cache and is not in the history
    assert_eq!(c.get(&key("a")), None);
}

#[test]
fn read_refreshes_recency() {
    let mut c: LRUKCache<u8> = LRUKCache::new(2, 2, 4);
    c.put(key("a"), 1);
    c.put(key("a"), 1);
    c.put(key("b"), 2);
    c.put(key("b"), 2);
    // touching "a" makes "b" the least recently used entry
    assert_eq!(c.get(&key("a")), Some(&1));
    c.put(key("c"), 3);
    c.put(key("c"), 3);
    assert_eq!(c.get(&key("b")), None);
    assert_eq!(c.get(&key("a")), Some(&1));
    assert_eq!(c.get(&key("c")), Some(&3));
}

#[test]
fn zero_capacity_never_caches() {
    let mut c: LRUKCache<u8> = LRUKCache::new(2, 0, 4);
    c.put(key("a"), 1);
    c.put(key("a"), 1);
    assert_eq!(c.get(&key("a")), None);
}

#[test]
fn k_one_never_admits() {
    let mut c: LRUKCache<u8> = LRUKCache::new(1, 4, 4);
    c.put(key("a"), 1);
    c.put(key("a"), 1);
    assert_eq!(c.get(&key("a")), None);
}

#[test]
fn repromoted_key_loses_its_index() {
    // a key promoted a second time while it is cached leaves its new entry
    // without an index entry, so it reads as absent
    let mut c: LRUKCache<u8> = LRUKCache::new(2, 4, 4);
    c.put(key("a"), 1);
    c.put(key("a"), 1);
    assert_eq!(c.get(&key("a")), Some(&1));
    c.put(key("a"), 2);
    c.put(key("a"), 2);
    assert_eq!(c.get(&key("a")), None);
}

#[test]
fn list_push_and_pop_order() {
    let mut l: LinkedList<u32> = LinkedList::new();
    l.push_front_node(Node::new(1));
    l.push_front_node(Node::new(2));
    l.push_front_node(Node::new(3));
    assert_eq!(l.len(), 3);
    assert_eq!(l.pop_back_node().map(|n| n.into_elem()), Some(1));
    assert_eq!(l.pop_front_node().map(|n| n.into_elem()), Some(3));
    assert_eq!(l.pop_front_node().map(|n| n.into_elem()), Some(2));
    assert!(l.pop_back_node().is_none());
    assert!(l.pop_front_node().is_none());
    assert_eq!(l.len(), 0);
}

#[test]
fn list_unlink_middle_and_reuse_slot() {
    let mut l: LinkedList<u32> = LinkedList::new();
    let a = l.push_front_node(Node::new(10));
    let b = l.push_front_node(Node::new(20));
    let c = l.push_front_node(Node::new(30));
    assert_eq!(*l.elem_of(a), 10);
    let n = l.unlink_node(b);
    assert_eq!(*n.elem(), 20);
    assert_eq!(l.len(), 2);
    let d = l.push_front_node(Node::new(40));
    assert_eq!(d, b);
    assert_eq!(*l.elem_of(c), 30);
    assert_eq!(l.pop_back_node().map(|n| n.into_elem()), Some(10));
    assert_eq!(l.pop_back_node().map(|n| n.into_elem()), Some(30));
    assert_eq!(l.pop_back_node().map(|n| n.into_elem()), Some(40));
}
