use vstd::prelude::*;

verus! {

/// Links of one node of a [`TransferStack`]: the slot of the node pushed
/// before it.
#[derive(Copy, Clone, Debug, PartialEq, Eq, Structural)]
pub struct Links {
    next: Option<usize>,
}

impl Links {
    /// Returns new, unlinked links.
    pub fn new() -> (r: Self)
        ensures
            r.next_spec() is None,
    {
        Links { next: None }
    }

    pub closed spec fn next_spec(&self) -> Option<usize> {
        self.next
    }
}

struct TNode<T> {
    value: Option<T>,
    links: Links,
}

/// Every slot of `o` is distinct, holds an element, and links to the slot
/// after it.
spec fn tnodes_wf<T>(nodes: Seq<TNode<T>>, o: Seq<usize>) -> bool {
    &&& o.no_duplicates()
    &&& forall|k: int|
        #![trigger o[k]]
        0 <= k < o.len() ==> {
            &&& o[k] < nodes.len()
            &&& nodes[o[k] as int].value is Some
            &&& nodes[o[k] as int].links.next == if k + 1 < o.len() {
                Some(o[k + 1])
            } else {
                None
            }
        }
}

spec fn tview<T>(nodes: Seq<TNode<T>>, o: Seq<usize>) -> Seq<T> {
    Seq::new(o.len(), |k: int| nodes[o[k] as int].value->0)
}

/// A stack where elements are pushed one at a time and all elements are
/// taken at once by [`TransferStack::drain`], most recently pushed first.
pub struct TransferStack<T> {
    nodes: Vec<TNode<T>>,
    head: Option<usize>,
    order: Ghost<Seq<usize>>,
}

/// The elements taken from a [`TransferStack`], yielded most recently
/// pushed first.
pub struct Drain<T> {
    nodes: Vec<TNode<T>>,
    next: Option<usize>,
    order: Ghost<Seq<usize>>,
}

impl<T> TransferStack<T> {
    /// The elements, most recently pushed first.
    pub closed spec fn view(&self) -> Seq<T> {
        tview(self.nodes@, self.order@)
    }

    pub closed spec fn capacity(&self) -> nat {
        self.nodes@.len()
    }

    pub closed spec fn wf(&self) -> bool {
        &&& tnodes_wf(self.nodes@, self.order@)
        &&& self.head == if self.order@.len() > 0 {
            Some(self.order@[0])
        } else {
            None
        }
    }

    /// Returns an empty stack.
    pub fn new() -> (r: Self)
        ensures
            r.wf(),
            r@ == Seq::<T>::empty(),
            r.capacity() == 0,
    {
        let r = TransferStack { nodes: Vec::new(), head: None, order: Ghost(Seq::empty()) };
        assert(r@ =~= Seq::<T>::empty());
        r
    }

    /// Pushes `element` onto the stack.
    pub fn push(&mut self, element: T)
        requires
            old(self).wf(),
        ensures
            final(self).wf(),
            final(self)@ == seq![element] + old(self)@,
            final(self).capacity() == old(self).capacity() + 1,
    {
        let ghost o = self.order@;
        let ghost n0 = self.nodes@;
        let slot = self.nodes.len();
        let head = self.head;
        self.nodes.push(TNode { value: Some(element), links: Links { next: head } });
        self.head = Some(slot);
        let ghost o2 = seq![slot] + o;
        self.order = Ghost(o2);
        proof {
            assert forall|j: int| 0 <= j < o.len() implies o[j] != slot by {
                assert(o[j] < n0.len());
            }
            assert forall|a: int, b: int| 0 <= a < b < o2.len() implies o2[a] != o2[b] by {
                if a > 0 {
                    assert(o2[a] == o[a - 1]);
                }
                assert(o2[b] == o[b - 1]);
            }
            assert forall|k: int|
                #![trigger o2[k]]
                0 <= k < o2.len() implies {
                &&& o2[k] < self.nodes@.len()
                &&& self.nodes@[o2[k] as int].value is Some
                &&& self.nodes@[o2[k] as int].links.next == if k + 1 < o2.len() {
                    Some(o2[k + 1])
                } else {
                    None
                }
            } by {
                if k > 0 {
                    assert(o2[k] == o[k - 1]);
                    assert(o[k - 1] < n0.len());
                }
            }
            assert(self@ =~= seq![element] + old(self)@) by {
                assert forall|k: int| 1 <= k < o2.len() implies self@[k] == old(self)@[k - 1] by {
                    assert(o2[k] == o[k - 1]);
                    assert(o[k - 1] < n0.len());
                }
            }
        }
    }

    /// Takes every element out of the stack at once.
    pub fn drain(&mut self) -> (r: Drain<T>)
        requires
            old(self).wf(),
        ensures
            final(self).wf(),
            final(self)@ == Seq::<T>::empty(),
            r.wf(),
            r.remaining() == old(self)@,
    {
        let mut nodes = Vec::new();
        std::mem::swap(&mut nodes, &mut self.nodes);
        let next = self.head;
        self.head = None;
        let order = self.order;
        self.order = Ghost(Seq::empty());
        proof {
            assert(self@ =~= Seq::<T>::empty());
        }
        Drain { nodes, next, order }
    }
}

impl<T> Drain<T> {
    /// The elements not yet yielded, most recently pushed first.
    pub closed spec fn remaining(&self) -> Seq<T> {
        tview(self.nodes@, self.order@)
    }

    pub closed spec fn wf(&self) -> bool {
        &&& tnodes_wf(self.nodes@, self.order@)
        &&& self.next == if self.order@.len() > 0 {
            Some(self.order@[0])
        } else {
            None
        }
    }

    /// Yields the next element.
    pub fn next(&mut self) -> (r: Option<T>)
        requires
            old(self).wf(),
        ensures
            final(self).wf(),
            old(self).remaining().len() == 0 ==> r is None && final(self).remaining() == old(
                self).remaining(),
            old(self).remaining().len() > 0 ==> r == Some(old(self).remaining()[0]) && final(
                self).remaining() == old(self).remaining().drop_first(),
    {
        match self.next {
            None => None,
            Some(curr) => {
                let ghost o = self.order@;
                proof {
                    assert(o[0] == curr);
                }
                let next = self.nodes[curr].links.next;
                let mut t = None;
                std::mem::swap(&mut self.nodes[curr].value, &mut t);
                self.nodes[curr].links.next = None;
                self.next = next;
                let ghost o2 = o.drop_first();
                self.order = Ghost(o2);
                proof {
                    assert forall|a: int, b: int| 0 <= a < b < o2.len() implies o2[a] != o2[b] by {
                        assert(o2[a] == o[a + 1]);
                        assert(o2[b] == o[b + 1]);
                    }
                    assert forall|k: int|
                        #![trigger o2[k]]
                        0 <= k < o2.len() implies {
                        &&& o2[k] < self.nodes@.len()
                        &&& self.nodes@[o2[k] as int].value is Some
                        &&& self.nodes@[o2[k] as int].links.next == if k + 1 < o2.len() {
                            Some(o2[k + 1])
                        } else {
                            None
                        }
                    } by {
                        assert(o2[k] == o[k + 1]);
                        assert(o[k + 1] != o[0]);
                    }
                    if o2.len() > 0 {
                        assert(o2[0] == o[1]);
                    }
                    assert(self.remaining() =~= old(self).remaining().drop_first()) by {
                        assert forall|k: int| 0 <= k < o2.len() implies self.remaining()[k] == old(
                            self).remaining()[k + 1] by {
                            assert(o2[k] == o[k + 1]);
                            assert(o[k + 1] != o[0]);
                        }
                    }
                }
                Some(t.unwrap())
            },
        }
    }
}

/// The stack is last in, first out: after pushing `x`, a drain yields `x`
/// first and then the elements that were there before, in their order.
pub proof fn law_lifo<T>(before: Seq<T>, x: T)
    ensures
        (seq![x] + before)[0] == x,
        (seq![x] + before).drop_first() == before,
{
    assert((seq![x] + before).drop_first() =~= before);
}

} // verus!
