use vstd::prelude::*;

verus! {

/// A node of a doubly linked list: its element and the handles of its
/// neighbours.
pub struct Node<T> {
    elem: T,
    prev: Option<usize>,
    next: Option<usize>,
}

impl<T> Node<T> {
    /// The element the node carries.
    pub closed spec fn value(&self) -> T {
        self.elem
    }

    pub closed spec fn spec_prev(&self) -> Option<usize> {
        self.prev
    }

    pub closed spec fn spec_next(&self) -> Option<usize> {
        self.next
    }

    pub fn new(elem: T) -> (r: Self)
        ensures
            r.value() == elem,
            r.spec_prev() is None,
            r.spec_next() is None,
    {
        Self { elem, prev: None, next: None }
    }

    pub fn elem(&self) -> (r: &T)
        ensures
            *r == self.value(),
    {
        &self.elem
    }

    pub fn into_elem(self) -> (r: T)
        ensures
            r == self.value(),
    {
        self.elem
    }
}

/// The neighbour before position `i` of the list of handles `ids`.
pub open spec fn prev_of(ids: Seq<usize>, i: int) -> Option<usize> {
    if i == 0 {
        None
    } else {
        Some(ids[i - 1])
    }
}

/// The neighbour after position `i` of the list of handles `ids`.
pub open spec fn next_of(ids: Seq<usize>, i: int) -> Option<usize> {
    if i + 1 >= ids.len() {
        None
    } else {
        Some(ids[i + 1])
    }
}

/// Position `i` of `ids` names an occupied slot whose links point at the
/// neighbours of position `i`.
spec fn linked_at<T>(slots: Seq<Option<Node<T>>>, ids: Seq<usize>, i: int) -> bool {
    let id = ids[i];
    &&& id < slots.len()
    &&& slots[id as int] is Some
    &&& slots[id as int]->0.prev == prev_of(ids, i)
    &&& slots[id as int]->0.next == next_of(ids, i)
}

/// Every position of `ids` is linked to its neighbours.
spec fn all_linked<T>(slots: Seq<Option<Node<T>>>, ids: Seq<usize>) -> bool {
    forall|i: int| 0 <= i < ids.len() ==> #[trigger] linked_at(slots, ids, i)
}

/// Every handle on the free stack names an empty slot.
spec fn all_free<T>(slots: Seq<Option<Node<T>>>, free: Seq<usize>) -> bool {
    forall|k: int|
        0 <= k < free.len() ==> #[trigger] free[k] < slots.len() && slots[free[k] as int] is None
}

/// A doubly linked list whose nodes live in slots of a vector and refer to
/// each other by slot index (their handle). Freed slots are kept on a stack
/// and reused by the next insertion.
pub struct LinkedList<T> {
    slots: Vec<Option<Node<T>>>,
    free: Vec<usize>,
    head: Option<usize>,
    tail: Option<usize>,
    len: usize,
    ids: Ghost<Seq<usize>>,
}

impl<T> View for LinkedList<T> {
    type V = Seq<T>;

    /// The elements from front to back.
    closed spec fn view(&self) -> Seq<T> {
        Seq::new(self.ids@.len(), |i: int| self.slots@[self.ids@[i] as int]->0.elem)
    }
}

impl<T> LinkedList<T> {
    /// The handles of the nodes from front to back.
    pub closed spec fn handles(&self) -> Seq<usize> {
        self.ids@
    }

    /// The handle that the next insertion will give its node.
    pub closed spec fn next_handle(&self) -> usize {
        if self.free@.len() > 0 {
            self.free@.last()
        } else {
            self.slots.len()
        }
    }

    pub closed spec fn wf(&self) -> bool {
        &&& self.len == self.ids@.len()
        &&& self.ids@.no_duplicates()
        &&& all_linked(self.slots@, self.ids@)
        &&& self.head == (if self.ids@.len() == 0 {
            None
        } else {
            Some(self.ids@[0])
        })
        &&& self.tail == (if self.ids@.len() == 0 {
            None
        } else {
            Some(self.ids@.last())
        })
        &&& self.free@.no_duplicates()
        &&& all_free(self.slots@, self.free@)
        &&& self.len + self.free@.len() <= self.slots@.len()
    }

    pub proof fn lemma_wf_view(&self)
        requires
            self.wf(),
        ensures
            self@.len() == self.handles().len(),
            self.handles().no_duplicates(),
            !self.handles().contains(self.next_handle()),
    {
        if self.handles().contains(self.next_handle()) {
            let i = choose|i: int| 0 <= i < self.ids@.len() && self.ids@[i] == self.next_handle();
            assert(linked_at(self.slots@, self.ids@, i));
            if self.free@.len() > 0 {
                let k = self.free@.len() - 1;
                assert(self.free@[k] < self.slots@.len() && self.slots@[self.free@[k] as int] is None);
                assert(false);
            } else {
                assert(false);
            }
        }
    }

    pub fn new() -> (r: Self)
        ensures
            r.wf(),
            r@ == Seq::<T>::empty(),
            r.handles() == Seq::<usize>::empty(),
    {
        let r = LinkedList {
            slots: Vec::new(),
            free: Vec::new(),
            head: None,
            tail: None,
            len: 0,
            ids: Ghost(Seq::empty()),
        };
        assert(r@ =~= Seq::<T>::empty());
        r
    }

    pub fn len(&self) -> (r: usize)
        requires
            self.wf(),
        ensures
            r == self@.len(),
    {
        self.len
    }

    /// Overwrites the links of the occupied slot `id`, keeping its element.
    fn set_links(&mut self, id: usize, prev: Option<usize>, next: Option<usize>)
        requires
            id < old(self).slots@.len(),
            old(self).slots@[id as int] is Some,
        ensures
            final(self).slots@ == old(self).slots@.update(
                id as int,
                Some(Node { elem: old(self).slots@[id as int]->0.elem, prev, next }),
            ),
            final(self).free == old(self).free,
            final(self).head == old(self).head,
            final(self).tail == old(self).tail,
            final(self).len == old(self).len,
            final(self).ids == old(self).ids,
    {
        let taken = self.slots[id].take();
        match taken {
            Some(node) => {
                let Node { elem, prev: _, next: _ } = node;
                self.slots[id] = Some(Node { elem, prev, next });
            },
            None => {},
        }
    }
}

impl<T> LinkedList<T> {
    /// Overwrites the link to the previous node of the occupied slot `id`.
    fn set_prev(&mut self, id: usize, prev: Option<usize>)
        requires
            id < old(self).slots@.len(),
            old(self).slots@[id as int] is Some,
        ensures
            final(self).slots@ == old(self).slots@.update(
                id as int,
                Some(
                    Node {
                        elem: old(self).slots@[id as int]->0.elem,
                        prev,
                        next: old(self).slots@[id as int]->0.next,
                    },
                ),
            ),
            final(self).free == old(self).free,
            final(self).head == old(self).head,
            final(self).tail == old(self).tail,
            final(self).len == old(self).len,
            final(self).ids == old(self).ids,
    {
        let next = match &self.slots[id] {
            Some(node) => node.next,
            None => None,
        };
        self.set_links(id, prev, next);
    }

    /// Overwrites the link to the next node of the occupied slot `id`.
    fn set_next(&mut self, id: usize, next: Option<usize>)
        requires
            id < old(self).slots@.len(),
            old(self).slots@[id as int] is Some,
        ensures
            final(self).slots@ == old(self).slots@.update(
                id as int,
                Some(
                    Node {
                        elem: old(self).slots@[id as int]->0.elem,
                        prev: old(self).slots@[id as int]->0.prev,
                        next,
                    },
                ),
            ),
            final(self).free == old(self).free,
            final(self).head == old(self).head,
            final(self).tail == old(self).tail,
            final(self).len == old(self).len,
            final(self).ids == old(self).ids,
    {
        let prev = match &self.slots[id] {
            Some(node) => node.prev,
            None => None,
        };
        self.set_links(id, prev, next);
    }

    /// Takes the node with handle `h` out of the list and frees its slot.
    pub fn unlink_node(&mut self, h: usize) -> (n: Node<T>)
        requires
            old(self).wf(),
            old(self).handles().contains(h),
        ensures
            final(self).wf(),
            final(self).next_handle() == h,
            n.spec_prev() is None,
            n.spec_next() is None,
            forall|p: int|
                0 <= p < old(self).handles().len() && old(self).handles()[p] == h ==> {
                    &&& final(self).handles() == old(self).handles().remove(p)
                    &&& final(self)@ == old(self)@.remove(p)
                    &&& n.value() == old(self)@[p]
                },
    {
        let ghost ids = self.ids@;
        let ghost old_slots = self.slots@;
        let ghost p = choose|p: int| 0 <= p < ids.len() && ids[p] == h;
        assert(linked_at(old_slots, ids, p));
        let (prev, next) = match &self.slots[h] {
            Some(node) => (node.prev, node.next),
            None => (None, None),
        };
        match prev {
            Some(pv) => {
                assert(linked_at(old_slots, ids, p - 1));
                self.set_next(pv, next);
            },
            None => {
                self.head = next;
            },
        }
        let ghost mid_slots = self.slots@;
        match next {
            Some(nx) => {
                proof {
                    assert(linked_at(old_slots, ids, p + 1));
                    assert(ids[p + 1] != ids[p]);
                    if p > 0 {
                        assert(ids[p + 1] != ids[p - 1]);
                    }
                }
                self.set_prev(nx, prev);
            },
            None => {
                self.tail = prev;
            },
        }
        proof {
            if p > 0 {
                assert(ids[p - 1] != ids[p]);
            }
        }
        let taken = self.slots[h].take().unwrap();
        self.free.push(h);
        self.len = self.len - 1;
        self.ids = Ghost(ids.remove(p));
        proof {
            lemma_unlink_relinks(old_slots, self.slots@, ids, p);
            assert(!old(self).free@.contains(h)) by {
                if old(self).free@.contains(h) {
                    let k = choose|k: int| 0 <= k < old(self).free@.len() && old(self).free@[k] == h;
                    assert(old(self).free@[k] < old_slots.len() && old_slots[old(self).free@[k] as int] is None);
                }
            }
            assert forall|k: int| 0 <= k < self.free@.len() implies #[trigger] self.free@[k]
                < self.slots@.len() && self.slots@[self.free@[k] as int] is None by {
                if k < old(self).free@.len() {
                    assert(old(self).free@[k] < old_slots.len() && old_slots[old(self).free@[k] as int] is None);
                    if p > 0 {
                        assert(linked_at(old_slots, ids, p - 1));
                    }
                    if p + 1 < ids.len() {
                        assert(linked_at(old_slots, ids, p + 1));
                    }
                }
            }
            assert(self.ids@.no_duplicates()) by {
                assert forall|a: int, b: int| 0 <= a < b < self.ids@.len() implies self.ids@[a] != self.ids@[b] by {
                    let a0 = if a < p { a } else { a + 1 };
                    let b0 = if b < p { b } else { b + 1 };
                    assert(self.ids@[a] == ids[a0] && self.ids@[b] == ids[b0]);
                }
            }
            if ids.len() > 1 {
                if p == 0 {
                    assert(self.ids@[0] == ids[1]);
                }
                if p == ids.len() - 1 {
                    assert(self.ids@.last() == ids[p - 1]);
                } else {
                    assert(self.ids@.last() == ids.last());
                }
            }
            assert(self@ =~= old(self)@.remove(p)) by {
                assert forall|i: int| 0 <= i < self.ids@.len() implies self@[i] == old(self)@.remove(p)[i] by {
                    let i0 = if i < p { i } else { i + 1 };
                    assert(self.ids@[i] == ids[i0]);
                }
            }
            assert forall|q: int| 0 <= q < ids.len() && ids[q] == h implies q == p by {}
        }
        Node::new(taken.elem)
    }

    /// Takes the last node out of the list, if there is one.
    pub fn pop_back_node(&mut self) -> (r: Option<Node<T>>)
        requires
            old(self).wf(),
        ensures
            final(self).wf(),
            old(self)@.len() == 0 ==> {
                &&& r is None
                &&& final(self)@ == old(self)@
                &&& final(self).handles() == old(self).handles()
                &&& final(self).next_handle() == old(self).next_handle()
            },
            old(self)@.len() > 0 ==> {
                &&& r is Some
                &&& r->0.value() == old(self)@.last()
                &&& final(self)@ == old(self)@.drop_last()
                &&& final(self).handles() == old(self).handles().drop_last()
                &&& final(self).next_handle() == old(self).handles().last()
            },
    {
        proof {
            self.lemma_wf_view();
        }
        match self.tail {
            Some(t) => {
                let ghost ids = self.ids@;
                let ghost v = self@;
                let n = self.unlink_node(t);
                proof {
                    assert(ids[ids.len() - 1] == t);
                    assert(ids.remove(ids.len() - 1) =~= ids.drop_last());
                    assert(v.remove(v.len() - 1) =~= v.drop_last());
                }
                Some(n)
            },
            None => None,
        }
    }

    /// Takes the first node out of the list, if there is one.
    pub fn pop_front_node(&mut self) -> (r: Option<Node<T>>)
        requires
            old(self).wf(),
        ensures
            final(self).wf(),
            old(self)@.len() == 0 ==> {
                &&& r is None
                &&& final(self)@ == old(self)@
                &&& final(self).handles() == old(self).handles()
                &&& final(self).next_handle() == old(self).next_handle()
            },
            old(self)@.len() > 0 ==> {
                &&& r is Some
                &&& r->0.value() == old(self)@[0]
                &&& final(self)@ == old(self)@.drop_first()
                &&& final(self).handles() == old(self).handles().drop_first()
                &&& final(self).next_handle() == old(self).handles()[0]
            },
    {
        proof {
            self.lemma_wf_view();
        }
        match self.head {
            Some(hd) => {
                let ghost ids = self.ids@;
                let ghost v = self@;
                let n = self.unlink_node(hd);
                proof {
                    assert(ids[0] == hd);
                    assert(ids.remove(0) =~= ids.drop_first());
                    assert(v.remove(0) =~= v.drop_first());
                }
                Some(n)
            },
            None => None,
        }
    }

    /// The element of the node with handle `h`.
    pub fn elem_of(&self, h: usize) -> (r: &T)
        requires
            self.wf(),
            self.handles().contains(h),
        ensures
            forall|p: int|
                0 <= p < self.handles().len() && self.handles()[p] == h ==> *r == self@[p],
    {
        let ghost p = choose|p: int| 0 <= p < self.ids@.len() && self.ids@[p] == h;
        assert(linked_at(self.slots@, self.ids@, p));
        assert forall|q: int| 0 <= q < self.ids@.len() && self.ids@[q] == h implies q == p by {}
        let node = self.slots[h].as_ref().unwrap();
        &node.elem
    }

    /// Puts `node` at the front of the list and returns its handle.
    pub fn push_front_node(&mut self, node: Node<T>) -> (h: usize)
        requires
            old(self).wf(),
        ensures
            final(self).wf(),
            h == old(self).next_handle(),
            final(self).handles() == seq![h] + old(self).handles(),
            final(self)@ == seq![node.value()] + old(self)@,
    {
        proof {
            self.lemma_wf_view();
        }
        let ghost old_slots = self.slots@;
        let ghost ids = self.ids@;
        let h = match self.free.pop() {
            Some(f) => f,
            None => {
                self.slots.push(None);
                self.slots.len() - 1
            },
        };
        assert(h == old(self).next_handle());
        assert(h < self.slots@.len() && self.slots@[h as int] is None) by {
            if old(self).free@.len() > 0 {
                let k = old(self).free@.len() - 1;
                assert(old(self).free@[k] < old_slots.len() && old_slots[old(self).free@[k] as int] is None);
            }
        }
        let ghost mid_slots = self.slots@;
        assert(self.len + self.free@.len() < self.slots@.len()) by {
            if old(self).free@.len() > 0 {
                assert(self.free@.len() == old(self).free@.len() - 1);
            }
        }
        assert(self.slots@.len() == self.slots.len());
        assert forall|j: int| 0 <= j < old_slots.len() implies mid_slots[j] == old_slots[j] by {}
        assert forall|i: int| 0 <= i < ids.len() implies #[trigger] linked_at(mid_slots, ids, i) by {
            assert(linked_at(old_slots, ids, i));
        }
        let old_head = self.head;
        match old_head {
            Some(oh) => {
                assert(linked_at(mid_slots, ids, 0));
                self.set_prev(oh, Some(h));
            },
            None => {
                self.tail = Some(h);
            },
        }
        let Node { elem, prev: _, next: _ } = node;
        self.slots[h] = Some(Node { elem, prev: None, next: old_head });
        self.head = Some(h);
        self.len = self.len + 1;
        self.ids = Ghost(seq![h] + ids);
        proof {
            let nids = self.ids@;
            let ns = self.slots@;
            assert forall|i: int| 0 <= i < nids.len() implies #[trigger] linked_at(ns, nids, i) by {
                if i >= 1 {
                    assert(linked_at(mid_slots, ids, i - 1));
                    assert(nids[i] == ids[i - 1]);
                    assert(nids[i] != h);
                    if i >= 2 {
                        assert(ids[i - 1] != ids[0]);
                    }
                }
            }
            assert forall|k: int| 0 <= k < self.free@.len() implies #[trigger] self.free@[k]
                < ns.len() && ns[self.free@[k] as int] is None by {
                if old(self).free@.len() > 0 {
                    assert(old(self).free@[k] == self.free@[k]);
                    assert(old(self).free@[k] != h);
                } else {
                    assert(old(self).free@[k] == self.free@[k]);
                }
                assert(old(self).free@[k] < old_slots.len() && old_slots[old(self).free@[k] as int] is None);
                if ids.len() > 0 {
                    assert(linked_at(old_slots, ids, 0));
                }
            }
            assert(nids.no_duplicates()) by {
                assert forall|a: int, b: int| 0 <= a < b < nids.len() implies nids[a] != nids[b] by {
                    if a > 0 {
                        assert(nids[a] == ids[a - 1] && nids[b] == ids[b - 1]);
                    } else {
                        assert(ids.contains(nids[b]));
                    }
                }
            }
            assert(self.free@.no_duplicates()) by {
                if old(self).free@.len() > 0 {
                    assert(self.free@ =~= old(self).free@.drop_last());
                }
            }
            assert(self@ =~= seq![elem] + old(self)@) by {
                assert forall|i: int| 1 <= i < nids.len() implies self@[i] == old(self)@[i - 1] by {
                    assert(nids[i] == ids[i - 1]);
                    assert(ids[i - 1] != h);
                    assert(linked_at(old_slots, ids, i - 1));
                    assert(mid_slots[ids[i - 1] as int] == old_slots[ids[i - 1] as int]);
                    if ids.len() > 0 && i - 1 != 0 {
                        assert(ids[i - 1] != ids[0]);
                    }
                    assert(ns[ids[i - 1] as int]->0.elem == old_slots[ids[i - 1] as int]->0.elem);
                }
            }
        }
        h
    }
}

/// Pushing a node to the front and popping the front again gives back the
/// node's element and the list as it was.
pub proof fn lemma_push_then_pop_front<T>(s: Seq<T>, x: T)
    ensures
        (seq![x] + s).len() > 0,
        (seq![x] + s)[0] == x,
        (seq![x] + s).drop_first() == s,
{
    assert((seq![x] + s).drop_first() =~= s);
}

/// Pushing a node to the front of a non-empty list and popping the back
/// gives back the old last element; the rest keeps its order.
pub proof fn lemma_push_front_then_pop_back<T>(s: Seq<T>, x: T)
    requires
        s.len() > 0,
    ensures
        (seq![x] + s).last() == s.last(),
        (seq![x] + s).drop_last() == seq![x] + s.drop_last(),
{
    assert((seq![x] + s).drop_last() =~= seq![x] + s.drop_last());
}

/// Unlinking position `p` of `ids`: when the neighbours of `p` are relinked
/// to each other and every other slot is left alone, the remaining handles
/// are linked in order and keep their elements.
proof fn lemma_unlink_relinks<T>(
    old_slots: Seq<Option<Node<T>>>,
    new_slots: Seq<Option<Node<T>>>,
    ids: Seq<usize>,
    p: int,
)
    requires
        all_linked(old_slots, ids),
        ids.no_duplicates(),
        0 <= p < ids.len(),
        new_slots.len() == old_slots.len(),
        forall|j: int|
            0 <= j < old_slots.len() && (p == 0 || j != ids[p - 1]) && (p + 1 >= ids.len() || j
                != ids[p + 1]) && j != ids[p] ==> #[trigger] new_slots[j] == old_slots[j],
        p > 0 ==> new_slots[ids[p - 1] as int] == Some(
            Node {
                elem: old_slots[ids[p - 1] as int]->0.elem,
                prev: old_slots[ids[p - 1] as int]->0.prev,
                next: next_of(ids, p),
            },
        ),
        p + 1 < ids.len() ==> new_slots[ids[p + 1] as int] == Some(
            Node {
                elem: old_slots[ids[p + 1] as int]->0.elem,
                prev: prev_of(ids, p),
                next: old_slots[ids[p + 1] as int]->0.next,
            },
        ),
    ensures
        all_linked(new_slots, ids.remove(p)),
        forall|i: int|
            0 <= i < ids.len() - 1 ==> #[trigger] new_slots[ids.remove(p)[i] as int]->0.elem
                == old_slots[ids.remove(p)[i] as int]->0.elem,
{
    let nids = ids.remove(p);
    assert forall|i: int| 0 <= i < nids.len() implies #[trigger] linked_at(new_slots, nids, i)
        && new_slots[nids[i] as int]->0.elem == old_slots[nids[i] as int]->0.elem by {
        if i < p {
            assert(nids[i] == ids[i]);
            assert(linked_at(old_slots, ids, i));
            if i + 1 < p {
                assert(nids[i + 1] == ids[i + 1]);
                assert(ids[i] != ids[p - 1]);
            }
            if i > 0 {
                assert(nids[i - 1] == ids[i - 1]);
            }
            assert(ids[i] != ids[p]);
            if p + 1 < ids.len() {
                assert(ids[i] != ids[p + 1]);
            }
        } else {
            assert(nids[i] == ids[i + 1]);
            assert(linked_at(old_slots, ids, i + 1));
            if i + 1 < nids.len() {
                assert(nids[i + 1] == ids[i + 2]);
            }
            if i > p {
                assert(nids[i - 1] == ids[i]);
                assert(ids[i + 1] != ids[p + 1]);
            }
            assert(ids[i + 1] != ids[p]);
            if p > 0 {
                assert(ids[i + 1] != ids[p - 1]);
            }
        }
    }
    assert forall|i: int| 0 <= i < ids.len() - 1 implies #[trigger] new_slots[nids[i] as int]->0.elem
        == old_slots[nids[i] as int]->0.elem by {
        assert(linked_at(new_slots, nids, i));
    }
}

} // verus!
