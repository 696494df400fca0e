use vstd::prelude::*;

verus! {

/// Errors returned by [`MpscQueue::try_dequeue`] and
/// [`Consumer::try_dequeue`].
#[derive(Copy, Clone, Debug, PartialEq, Eq, Structural)]
pub enum TryDequeueError {
    /// No element was dequeued because the queue was empty.
    Empty,
    /// The queue is currently in an inconsistent state.
    Inconsistent,
    /// A consumer is already dequeueing from the queue.
    Busy,
}

/// Links of one node of an [`MpscQueue`]: the slot of the next node, toward
/// the producer end.
#[derive(Copy, Clone, Debug, PartialEq, Eq, Structural)]
pub struct Links {
    next: Option<usize>,
}

impl Links {
    /// Returns new, unlinked links.
    pub fn new() -> (r: Self)
        ensures
            r.next_spec() is None,
    {
        Links { next: None }
    }

    pub closed spec fn next_spec(&self) -> Option<usize> {
        self.next
    }
}

struct QNode<T> {
    value: Option<T>,
    links: Links,
}

/// A first-in, first-out queue in the style of Vyukov's intrusive MPSC
/// queue: producers link new nodes at the `head`, the consumer takes nodes
/// from the `tail`, and a stub node keeps the chain from ever being empty.
///
/// `chain` names the slots from `tail` to `head`; the stub appears in it at
/// most once, at `stub_pos`, and every other slot in it holds an element.
pub struct MpscQueue<T> {
    nodes: Vec<QNode<T>>,
    free: Vec<usize>,
    head: usize,
    tail: usize,
    stub: usize,
    chain: Ghost<Seq<usize>>,
    stub_pos: Ghost<Option<int>>,
}

/// The slots of `free` are distinct slots below `len`, neither the stub
/// nor in `chain`: they are empty, and are reused before storage grows.
pub open spec fn free_slots_ok(len: nat, chain: Seq<usize>, stub: usize, free: Seq<usize>) -> bool {
    &&& free.no_duplicates()
    &&& forall|i: int|
        0 <= i < free.len() ==> #[trigger] free[i] < len && free[i] != stub && !chain.contains(
            free[i],
        )
}

/// The slots of `chain` with the stub at `stub_pos` taken out.
pub open spec fn items_of(chain: Seq<usize>, stub_pos: Option<int>) -> Seq<usize> {
    match stub_pos {
        Some(j) => chain.remove(j),
        None => chain,
    }
}

impl<T> MpscQueue<T> {
    /// The elements in the queue, from the next one to be dequeued.
    pub closed spec fn view(&self) -> Seq<T> {
        let items = items_of(self.chain@, self.stub_pos@);
        Seq::new(items.len(), |k: int| self.nodes@[items[k] as int].value->0)
    }

    /// The number of node slots in storage.
    pub closed spec fn capacity(&self) -> nat {
        self.nodes@.len()
    }

    /// The number of empty slots that the next enqueues reuse.
    pub closed spec fn spare(&self) -> nat {
        self.free@.len()
    }

    /// The chain links `tail` to `head` through distinct slots, the stub is
    /// in it at most once, and every other slot in it holds an element.
    pub closed spec fn wf(&self) -> bool {
        let c = self.chain@;
        &&& c.len() > 0
        &&& c.no_duplicates()
        &&& c[0] == self.tail
        &&& c[c.len() - 1] == self.head
        &&& self.stub < self.nodes@.len()
        &&& forall|k: int|
            #![trigger c[k]]
            0 <= k < c.len() ==> {
                &&& c[k] < self.nodes@.len()
                &&& self.nodes@[c[k] as int].links.next == if k + 1 < c.len() {
                    Some(c[k + 1])
                } else {
                    None
                }
                &&& c[k] != self.stub ==> self.nodes@[c[k] as int].value is Some
            }
        &&& match self.stub_pos@ {
            Some(j) => 0 <= j < c.len() && c[j] == self.stub,
            None => !c.contains(self.stub),
        }
        &&& free_slots_ok(self.nodes@.len(), c, self.stub, self.free@)
    }

    /// What the stub node holds: the value the queue was made with, if any.
    pub closed spec fn stub_value(&self) -> Option<T> {
        self.nodes@[self.stub as int].value
    }

    /// Returns an empty queue whose stub node holds no element.
    pub fn new() -> (r: Self)
        ensures
            r.wf(),
            r@ == Seq::<T>::empty(),
            r.capacity() == 1,
            r.stub_value() is None,
    {
        let mut nodes = Vec::new();
        nodes.push(QNode { value: None, links: Links::new() });
        let ghost chain = seq![0usize];
        let r = MpscQueue {
            nodes,
            free: Vec::new(),
            head: 0,
            tail: 0,
            stub: 0,
            chain: Ghost(chain),
            stub_pos: Ghost(Some(0)),
        };
        proof {
            assert(r@ =~= Seq::<T>::empty());
        }
        r
    }

    /// Returns an empty queue that uses `stub` as its stub node; the stub is
    /// never dequeued.
    pub fn new_with_stub(stub: T) -> (r: Self)
        ensures
            r.wf(),
            r@ == Seq::<T>::empty(),
            r.capacity() == 1,
            r.stub_value() == Some(stub),
    {
        let mut nodes = Vec::new();
        nodes.push(QNode { value: Some(stub), links: Links::new() });
        let ghost chain = seq![0usize];
        let r = MpscQueue {
            nodes,
            free: Vec::new(),
            head: 0,
            tail: 0,
            stub: 0,
            chain: Ghost(chain),
            stub_pos: Ghost(Some(0)),
        };
        proof {
            assert(r@ =~= Seq::<T>::empty());
        }
        r
    }

    /// Links `slot` at the head of the chain.
    fn enqueue_inner(&mut self, slot: usize)
        requires
            old(self).wf(),
            slot < old(self).nodes@.len(),
            !old(self).chain@.contains(slot),
            slot != old(self).stub ==> old(self).nodes@[slot as int].value is Some,
            forall|i: int| 0 <= i < old(self).free@.len() ==> #[trigger] old(self).free@[i] != slot,
        ensures
            final(self).free == old(self).free,
            final(self).chain@ == old(self).chain@.push(slot),
            final(self).stub_pos@ == (if slot == old(self).stub {
                Some(old(self).chain@.len() as int)
            } else {
                old(self).stub_pos@
            }),
            final(self).nodes@.len() == old(self).nodes@.len(),
            final(self).stub == old(self).stub,
            final(self).wf(),
            forall|i: int| 0 <= i < old(self).nodes@.len() ==> #[trigger] final(self).nodes@[i].value
                == old(self).nodes@[i].value,
    {
        let ghost c = self.chain@;
        self.nodes[slot].links.next = None;
        let prev = self.head;
        self.head = slot;
        proof {
            assert(c[c.len() - 1] == prev);
        }
        self.nodes[prev].links.next = Some(slot);
        let ghost c2 = c.push(slot);
        self.chain = Ghost(c2);
        if slot == self.stub {
            self.stub_pos = Ghost(Some(c.len() as int));
        }
        proof {
            assert forall|a: int, b: int| 0 <= a < b < c2.len() implies c2[a] != c2[b] by {
                if b == c.len() {
                    assert(c.contains(c[a]));
                }
            }
            assert forall|k: int|
                #![trigger c2[k]]
                0 <= k < c2.len() implies {
                &&& c2[k] < self.nodes@.len()
                &&& self.nodes@[c2[k] as int].links.next == if k + 1 < c2.len() {
                    Some(c2[k + 1])
                } else {
                    None
                }
                &&& c2[k] != self.stub ==> self.nodes@[c2[k] as int].value is Some
            } by {
                if k < c.len() {
                    assert(c2[k] == c[k]);
                    if k < c.len() - 1 {
                        assert(c[k] != c[c.len() - 1]);
                        assert(c[k] != slot) by {
                            assert(c.contains(c[k]));
                        }
                    }
                }
            }
            assert forall|i: int| 0 <= i < self.free@.len() implies #[trigger] self.free@[i]
                < self.nodes@.len() && self.free@[i] != self.stub && !c2.contains(self.free@[i]) by {
                if c2.contains(self.free@[i]) {
                    let j = choose|j: int| 0 <= j < c2.len() && c2[j] == self.free@[i];
                    if j < c.len() {
                        assert(c[j] == self.free@[i]);
                    }
                }
            }
            if slot != self.stub {
                if let Some(j) = self.stub_pos@ {
                    assert(c2[j] == c[j]);
                } else {
                    assert(!c2.contains(self.stub)) by {
                        if c2.contains(self.stub) {
                            let k = choose|k: int| 0 <= k < c2.len() && c2[k] == self.stub;
                            assert(c.contains(c[k]));
                        }
                    }
                }
            }
        }
    }

    /// Stores `node` in an empty slot, reusing the last free slot if there
    /// is one and growing storage otherwise, and returns the slot.
    fn new_slot(&mut self, node: QNode<T>) -> (slot: usize)
        requires
            old(self).wf(),
        ensures
            slot < final(self).nodes@.len(),
            final(self).nodes@[slot as int] == node,
            !old(self).chain@.contains(slot),
            slot != old(self).stub,
            final(self).nodes@.len() >= old(self).nodes@.len(),
            forall|i: int|
                0 <= i < old(self).nodes@.len() && i != slot ==> #[trigger] final(self).nodes@[i]
                    == old(self).nodes@[i],
            old(self).free@.len() == 0 ==> final(self).nodes@.len() == old(self).nodes@.len() + 1,
            old(self).free@.len() > 0 ==> final(self).nodes@.len() == old(self).nodes@.len(),
            final(self).free@.len() <= old(self).free@.len(),
            forall|i: int|
                0 <= i < final(self).free@.len() ==> #[trigger] final(self).free@[i] == old(
                    self,
                ).free@[i],
            forall|i: int| 0 <= i < final(self).free@.len() ==> #[trigger] final(self).free@[i] != slot,
            final(self).head == old(self).head,
            final(self).tail == old(self).tail,
            final(self).stub == old(self).stub,
            final(self).chain == old(self).chain,
            final(self).stub_pos == old(self).stub_pos,
    {
        let ghost c = self.chain@;
        let ghost n0 = self.nodes@;
        let ghost f0 = self.free@;
        match self.free.pop() {
            Some(s) => {
                proof {
                    assert(f0[f0.len() - 1] == s);
                    assert forall|i: int| 0 <= i < self.free@.len() implies #[trigger] self.free@[i]
                        != s by {
                        assert(self.free@[i] == f0[i]);
                    }
                }
                self.nodes.set(s, node);
                s
            },
            None => {
                let s = self.nodes.len();
                self.nodes.push(node);
                proof {
                    if c.contains(s) {
                        let k = choose|k: int| 0 <= k < c.len() && c[k] == s;
                        assert(c[k] < n0.len());
                    }
                }
                s
            },
        }
    }

    /// Adds `element` at the back of the queue.
    #[verifier::spinoff_prover]
    #[verifier::rlimit(30)]
    pub fn enqueue(&mut self, element: T)
        requires
            old(self).wf(),
        ensures
            final(self).wf(),
            final(self)@ == old(self)@.push(element),
            old(self).spare() == 0 ==> final(self).capacity() == old(self).capacity() + 1,
            old(self).spare() > 0 ==> final(self).capacity() == old(self).capacity(),
    {
        let ghost c = self.chain@;
        let ghost sp = self.stub_pos@;
        let ghost n0 = self.nodes@;
        let slot = self.new_slot(QNode { value: Some(element), links: Links::new() });
        proof {
            assert forall|k: int| #![trigger c[k]] 0 <= k < c.len() implies self.nodes@[c[k] as int] == n0[c[k] as int] by {
                if c[k] == slot {
                    assert(c.contains(slot));
                }
            }
            assert forall|i: int| 0 <= i < self.free@.len() implies #[trigger] self.free@[i]
                < self.nodes@.len() && self.free@[i] != self.stub && !c.contains(self.free@[i]) by {
                assert(self.free@[i] == old(self).free@[i]);
            }
            assert(self.free@.no_duplicates()) by {
                assert forall|a: int, b: int| 0 <= a < b < self.free@.len() implies self.free@[a]
                    != self.free@[b] by {
                    assert(self.free@[a] == old(self).free@[a]);
                    assert(self.free@[b] == old(self).free@[b]);
                }
            }
            assert(self.wf());
        }
        let ghost cap1 = self.nodes@.len();
        self.enqueue_inner(slot);
        proof {
            assert(self.nodes@.len() == cap1);
        }
        proof {
            let items0 = items_of(c, sp);
            let items1 = items_of(c.push(slot), sp);
            assert(items1 =~= items0.push(slot)) by {
                if let Some(j) = sp {
                    assert(c.push(slot).remove(j) =~= c.remove(j).push(slot));
                }
            }
            assert forall|k: int| 0 <= k < items0.len() implies items0[k] < n0.len() by {
                if let Some(j) = sp {
                    let kk = if k < j {
                        k
                    } else {
                        k + 1
                    };
                    assert(items0[k] == c[kk]);
                } else {
                    assert(items0[k] == c[k]);
                }
            }
            assert(self@ =~= old(self)@.push(element));
        }
    }

    /// Dequeues the element at the front of the queue, if there is one.
    ///
    /// Only one consumer may call this at a time; the `&mut` receiver
    /// guarantees that.
    pub fn try_dequeue_unchecked(&mut self) -> (r: Result<T, TryDequeueError>)
        requires
            old(self).wf(),
        ensures
            final(self).wf(),
            final(self).capacity() == old(self).capacity(),
            old(self)@.len() == 0 ==> r == Err::<T, TryDequeueError>(TryDequeueError::Empty)
                && final(self)@ == old(self)@,
            old(self)@.len() > 0 ==> r == Ok::<T, TryDequeueError>(old(self)@[0]) && final(self)@
                == old(self)@.drop_first(),
    {
        let ghost c0 = self.chain@;
        let ghost sp0 = self.stub_pos@;
        let mut tail_node = self.tail;
        let mut next = self.nodes[tail_node].links.next;
        proof {
            assert(c0[0] == tail_node);
        }
        if tail_node == self.stub {
            proof {
                assert(sp0 == Some(0int)) by {
                    if sp0 is None {
                        assert(c0.contains(c0[0]));
                    }
                }
            }
            match next {
                None => {
                    proof {
                        assert(items_of(c0, sp0).len() == 0);
                    }
                    return Err(TryDequeueError::Empty);
                },
                Some(n) => {
                    proof {
                        assert(c0[1] == n);
                    }
                    self.tail = n;
                    tail_node = n;
                    next = self.nodes[n].links.next;
                    self.chain = Ghost(c0.drop_first());
                    self.stub_pos = Ghost(None);
                    proof {
                        let c = c0.drop_first();
                        assert(c0.remove(0) =~= c);
                        assert forall|a: int, b: int| 0 <= a < b < c.len() implies c[a] != c[b] by {
                            assert(c[a] == c0[a + 1]);
                            assert(c[b] == c0[b + 1]);
                        }
                        assert forall|k: int| #![trigger c[k]] 0 <= k < c.len() implies {
                            &&& c[k] < self.nodes@.len()
                            &&& self.nodes@[c[k] as int].links.next == if k + 1 < c.len() {
                                Some(c[k + 1])
                            } else {
                                None
                            }
                            &&& c[k] != self.stub ==> self.nodes@[c[k] as int].value is Some
                        } by {
                            assert(c[k] == c0[k + 1]);
                        }
                        assert(!c.contains(self.stub)) by {
                            if c.contains(self.stub) {
                                let k = choose|k: int| 0 <= k < c.len() && c[k] == self.stub;
                                assert(c0[k + 1] == c0[0]);
                            }
                        }
                    }
                },
            }
        }
        // Here the tail is not the stub, and it holds the front element.
        let ghost c1 = self.chain@;
        let ghost sp1 = self.stub_pos@;
        proof {
            assert(c1[0] == tail_node);
            assert(tail_node != self.stub);
            assert(items_of(c1, sp1) =~= items_of(c0, sp0));
            if let Some(j) = sp1 {
                assert(j > 0);
                assert(items_of(c1, sp1)[0] == c1[0]);
            } else {
                assert(items_of(c1, sp1)[0] == c1[0]);
            }
        }
        match next {
            Some(n) => {
                proof {
                    assert(c1[1] == n);
                }
                self.tail = n;
                let v = self.take(tail_node);
                let ghost f0 = self.free@;
                self.free.push(tail_node);
                self.chain = Ghost(c1.drop_first());
                self.stub_pos = Ghost(
                    match sp1 {
                        Some(j) => Some(j - 1),
                        None => None,
                    },
                );
                proof {
                    self.lemma_drop_front(c1, sp1, tail_node, f0);
                }
                return Ok(v);
            },
            None => {},
        }
        if tail_node != self.head {
            proof {
                assert(c1.len() == 1);
            }
            return Err(TryDequeueError::Inconsistent);
        }
        proof {
            assert(c1.len() == 1);
            assert(sp1 is None) by {
                if let Some(j) = sp1 {
                    assert(j == 0);
                }
            }
        }
        let stub = self.stub;
        self.enqueue_inner(stub);
        next = self.nodes[tail_node].links.next;
        let ghost c2 = self.chain@;
        proof {
            assert(c2[0] == tail_node);
            assert(c2[1] == stub);
        }
        match next {
            None => {
                return Err(TryDequeueError::Empty);
            },
            Some(n) => {
                self.tail = n;
                let v = self.take(tail_node);
                let ghost f0 = self.free@;
                self.free.push(tail_node);
                self.chain = Ghost(c2.drop_first());
                self.stub_pos = Ghost(Some(0));
                proof {
                    self.lemma_drop_front(c2, Some(1), tail_node, f0);
                    assert(items_of(c2, Some(1)) =~= items_of(c0, sp0));
                }
                Ok(v)
            },
        }
    }

    /// Takes the element out of slot `i`.
    fn take(&mut self, i: usize) -> (r: T)
        requires
            i < old(self).nodes@.len(),
            old(self).nodes@[i as int].value is Some,
        ensures
            r == old(self).nodes@[i as int].value->0,
            final(self).nodes@ == old(self).nodes@.update(
                i as int,
                (QNode { value: None, links: old(self).nodes@[i as int].links }),
            ),
            final(self).head == old(self).head,
            final(self).tail == old(self).tail,
            final(self).stub == old(self).stub,
            final(self).chain == old(self).chain,
            final(self).stub_pos == old(self).stub_pos,
            final(self).free == old(self).free,
    {
        let mut t = None;
        std::mem::swap(&mut self.nodes[i].value, &mut t);
        t.unwrap()
    }

    /// After the front slot `front` of `c` has been emptied and dropped from
    /// the chain, the queue is well formed and holds the remaining elements.
    proof fn lemma_drop_front(&self, c: Seq<usize>, sp: Option<int>, front: usize, f0: Seq<usize>)
        requires
            free_slots_ok(self.nodes@.len(), c, self.stub, f0),
            self.free@ == f0.push(front),
            front < self.nodes@.len(),
            c.len() > 1,
            c.no_duplicates(),
            c[0] == front,
            front != self.stub,
            self.chain@ == c.drop_first(),
            self.stub_pos@ == match sp {
                Some(j) => Some(j - 1),
                None => None::<int>,
            },
            sp matches Some(j) ==> 0 < j < c.len() && c[j] == self.stub,
            sp is None ==> !c.contains(self.stub),
            self.tail == c[1],
            self.head == c[c.len() - 1],
            self.stub < self.nodes@.len(),
            self.nodes@[front as int].value is None,
            forall|k: int|
                #![trigger c[k]]
                1 <= k < c.len() ==> {
                    &&& c[k] < self.nodes@.len()
                    &&& self.nodes@[c[k] as int].links.next == if k + 1 < c.len() {
                        Some(c[k + 1])
                    } else {
                        None
                    }
                    &&& c[k] != self.stub ==> self.nodes@[c[k] as int].value is Some
                },
        ensures
            self.wf(),
            items_of(self.chain@, self.stub_pos@) == items_of(c, sp).drop_first(),
    {
        let c2 = c.drop_first();
        assert forall|a: int, b: int| 0 <= a < b < c2.len() implies c2[a] != c2[b] by {
            assert(c2[a] == c[a + 1]);
            assert(c2[b] == c[b + 1]);
        }
        let f1 = self.free@;
        assert forall|i: int| 0 <= i < f0.len() implies f0[i] != front by {
            assert(c.contains(c[0]));
        }
        assert forall|i: int| 0 <= i < f1.len() implies #[trigger] f1[i] < self.nodes@.len() && f1[i]
            != self.stub && !c2.contains(f1[i]) by {
            if c2.contains(f1[i]) {
                let j = choose|j: int| 0 <= j < c2.len() && c2[j] == f1[i];
                assert(c[j + 1] == f1[i]);
                if i < f0.len() {
                    assert(f1[i] == f0[i]);
                    assert(c.contains(f0[i]));
                } else {
                    assert(f1[i] == front);
                }
            }
        }
        assert(f1.no_duplicates()) by {
            assert forall|a: int, b: int| 0 <= a < b < f1.len() implies f1[a] != f1[b] by {
                if b == f0.len() {
                    assert(f1[a] == f0[a]);
                } else {
                    assert(f1[a] == f0[a] && f1[b] == f0[b]);
                }
            }
        }
        assert forall|k: int|
            #![trigger c2[k]]
            0 <= k < c2.len() implies {
            &&& c2[k] < self.nodes@.len()
            &&& self.nodes@[c2[k] as int].links.next == if k + 1 < c2.len() {
                Some(c2[k + 1])
            } else {
                None
            }
            &&& c2[k] != self.stub ==> self.nodes@[c2[k] as int].value is Some
        } by {
            assert(c2[k] == c[k + 1]);
        }
        match sp {
            Some(j) => {
                assert(c2[j - 1] == c[j]);
                assert(c.remove(j).drop_first() =~= c2.remove(j - 1));
            },
            None => {
                assert(!c2.contains(self.stub)) by {
                    if c2.contains(self.stub) {
                        let k = choose|k: int| 0 <= k < c2.len() && c2[k] == self.stub;
                        assert(c[k + 1] == self.stub);
                    }
                }
            },
        }
    }

    /// Dequeues the element at the front of the queue; returns `Busy` if
    /// another consumer holds the queue, which the `&mut` receiver rules
    /// out.
    pub fn try_dequeue(&mut self) -> (r: Result<T, TryDequeueError>)
        requires
            old(self).wf(),
        ensures
            final(self).wf(),
            final(self).capacity() == old(self).capacity(),
            old(self)@.len() == 0 ==> r == Err::<T, TryDequeueError>(TryDequeueError::Empty)
                && final(self)@ == old(self)@,
            old(self)@.len() > 0 ==> r == Ok::<T, TryDequeueError>(old(self)@[0]) && final(self)@
                == old(self)@.drop_first(),
    {
        self.try_dequeue_unchecked()
    }

    /// Dequeues the element at the front of the queue, or returns `None` if
    /// the queue is empty.
    pub fn dequeue(&mut self) -> (r: Option<T>)
        requires
            old(self).wf(),
        ensures
            final(self).wf(),
            final(self).capacity() == old(self).capacity(),
            old(self)@.len() == 0 ==> r is None && final(self)@ == old(self)@,
            old(self)@.len() > 0 ==> r == Some(old(self)@[0]) && final(self)@ == old(
                self)@.drop_first(),
    {
        match self.try_dequeue() {
            Ok(v) => Some(v),
            Err(_) => None,
        }
    }

    /// Dequeues the element at the front of the queue, or returns `None` if
    /// the queue is empty, without reserving the consumer side first; the
    /// `&mut` receiver already gives this call sole access.
    pub fn dequeue_unchecked(&mut self) -> (r: Option<T>)
        requires
            old(self).wf(),
        ensures
            final(self).wf(),
            final(self).capacity() == old(self).capacity(),
            old(self)@.len() == 0 ==> r is None && final(self)@ == old(self)@,
            old(self)@.len() > 0 ==> r == Some(old(self)@[0]) && final(self)@ == old(
                self)@.drop_first(),
    {
        match self.try_dequeue_unchecked() {
            Ok(val) => Some(val),
            Err(_) => None,
        }
    }

    /// Returns a consumer handle for the queue.
    pub fn consume(&mut self) -> (r: Consumer<'_, T>)
        requires
            old(self).wf(),
        ensures
            r.queue_view() == old(self)@,
            r.wf(),
            r.queue_capacity() == old(self).capacity(),
    {
        Consumer { q: self }
    }

    /// Returns a consumer handle for the queue; the `&mut` receiver means no
    /// other consumer can hold it, so this always succeeds.
    pub fn try_consume(&mut self) -> (r: Option<Consumer<'_, T>>)
        requires
            old(self).wf(),
        ensures
            r matches Some(c) && c.queue_view() == old(self)@ && c.wf() && c.queue_capacity()
                == old(self).capacity(),
    {
        Some(Consumer { q: self })
    }
}

/// Exclusive access to the consumer side of an [`MpscQueue`].
pub struct Consumer<'q, T> {
    q: &'q mut MpscQueue<T>,
}

impl<'q, T> Consumer<'q, T> {
    /// The elements of the queue.
    pub closed spec fn queue_view(&self) -> Seq<T> {
        self.q@
    }

    /// The node storage size of the queue.
    pub closed spec fn queue_capacity(&self) -> nat {
        self.q.capacity()
    }

    pub closed spec fn wf(&self) -> bool {
        self.q.wf()
    }

    /// Dequeues the element at the front of the queue, or returns `None` if
    /// the queue is empty.
    pub fn dequeue(&mut self) -> (r: Option<T>)
        requires
            old(self).wf(),
        ensures
            final(self).wf(),
            final(self).queue_capacity() == old(self).queue_capacity(),
            old(self).queue_view().len() == 0 ==> r is None && final(self).queue_view() == old(
                self).queue_view(),
            old(self).queue_view().len() > 0 ==> r == Some(old(self).queue_view()[0]) && final(
                self).queue_view() == old(self).queue_view().drop_first(),
    {
        self.q.dequeue_unchecked()
    }

    /// Dequeues the element at the front of the queue.
    pub fn try_dequeue(&mut self) -> (r: Result<T, TryDequeueError>)
        requires
            old(self).wf(),
        ensures
            final(self).wf(),
            final(self).queue_capacity() == old(self).queue_capacity(),
            old(self).queue_view().len() == 0 ==> r == Err::<T, TryDequeueError>(
                TryDequeueError::Empty,
            ) && final(self).queue_view() == old(self).queue_view(),
            old(self).queue_view().len() > 0 ==> r == Ok::<T, TryDequeueError>(
                old(self).queue_view()[0],
            ) && final(self).queue_view() == old(self).queue_view().drop_first(),
    {
        self.q.try_dequeue_unchecked()
    }
}

/// The queue is first in, first out: after enqueuing `x` onto a queue
/// holding `before`, dequeuing gives the oldest element (`x` itself only if
/// the queue was empty), and `x` stays behind every element enqueued before
/// it.
pub proof fn law_fifo<T>(before: Seq<T>, x: T)
    ensures
        before.push(x)[0] == if before.len() > 0 {
            before[0]
        } else {
            x
        },
        before.len() > 0 ==> before.push(x).drop_first() == before.drop_first().push(x),
        before.len() == 0 ==> before.push(x).drop_first() == Seq::<T>::empty(),
{
    if before.len() > 0 {
        assert(before.push(x).drop_first() =~= before.drop_first().push(x));
    } else {
        assert(before.push(x).drop_first() =~= Seq::<T>::empty());
    }
}

} // verus!
