use vstd::prelude::*;

pub mod cursor;

pub use self::cursor::{Cursor, CursorMut, DrainFilter};





verus! {

/// Links of one node to its neighbours in a [`List`].
///
/// Nodes are named by the index of the slot that holds them in the list's
/// node storage.
#[derive(Copy, Clone, Debug, PartialEq, Eq, Structural)]
pub struct Links {
    next: Option<usize>,
    prev: Option<usize>,
}

impl Links {
    pub closed spec fn next_spec(&self) -> Option<usize> {
        self.next
    }

    pub closed spec fn prev_spec(&self) -> Option<usize> {
        self.prev
    }

    /// Returns new, unlinked links.
    pub fn new() -> (r: Self)
        ensures
            r.next_spec() is None,
            r.prev_spec() is None,
    {
        Links { next: None, prev: None }
    }

    /// Checks the links of the node in slot `this`, at position `k` of a list
    /// of at least two nodes running through `o` from `head` to `tail`: the
    /// head has no previous node, the tail no next node, and the node links
    /// neither to itself nor to one node both ways. Every check is proved to
    /// pass.
    fn assert_valid(
        &self,
        this: usize,
        head: usize,
        tail: usize,
        Ghost(o): Ghost<Seq<usize>>,
        Ghost(k): Ghost<int>,
    )
        requires
            o.no_duplicates(),
            o.len() >= 2,
            0 <= k < o.len(),
            o[k] == this,
            o[0] == head,
            o[o.len() - 1] == tail,
            *self == expected_links(o, k),
        ensures
            this == head ==> self.prev_spec() is None,
            this == tail ==> self.next_spec() is None,
            self.next_spec() != self.prev_spec(),
            self.next_spec() != Some(this),
            self.prev_spec() != Some(this),
    {
        proof {
            if this == head {
                assert(k == 0);
                assert(self.prev is None);
            }
            if this == tail {
                assert(k == o.len() - 1);
                assert(self.next is None);
            }
            assert(self.next != self.prev) by {
                if k > 0 && k + 1 < o.len() {
                    assert(o[k - 1] != o[k + 1]);
                }
            }
            if let Some(next) = self.next {
                assert(next != this);
            }
            if let Some(prev) = self.prev {
                assert(prev != this);
            }
        }
    }

    /// Returns `true` if this node is currently linked to a neighbour.
    pub fn is_linked(&self) -> (r: bool)
        ensures
            r == (self.next_spec() is Some || self.prev_spec() is Some),
    {
        self.next.is_some() || self.prev.is_some()
    }
}

/// One slot of a list's node storage: an element (absent once it has been
/// removed) and its links.
struct Node<T> {
    value: Option<T>,
    links: Links,
}

/// A doubly-linked list.
///
/// Nodes live in slots of the list's own storage and link to each other by
/// slot index; `order` names, from head to tail, the slots that are in the
/// list.
pub struct List<T> {
    nodes: Vec<Node<T>>,
    free: Vec<usize>,
    head: Option<usize>,
    tail: Option<usize>,
    len: usize,
    order: Ghost<Seq<usize>>,
}

/// The links that the node at position `k` of `order` must have.
spec fn expected_links(order: Seq<usize>, k: int) -> Links {
    Links {
        next: if k + 1 < order.len() {
            Some(order[k + 1])
        } else {
            None
        },
        prev: if k > 0 {
            Some(order[k - 1])
        } else {
            None
        },
    }
}

/// The first slot of `order`, if any.
pub open spec fn first_of(order: Seq<usize>) -> Option<usize> {
    if order.len() > 0 {
        Some(order[0])
    } else {
        None
    }
}

/// The last slot of `order`, if any.
pub open spec fn last_of(order: Seq<usize>) -> Option<usize> {
    if order.len() > 0 {
        Some(order[order.len() - 1])
    } else {
        None
    }
}

/// Every slot of `o` is distinct, holds an element, and links to the slots
/// before and after it in `o`.
spec fn nodes_wf<T>(nodes: Seq<Node<T>>, o: Seq<usize>) -> bool {
    &&& o.no_duplicates()
    &&& forall|k: int|
        #![trigger o[k]]
        0 <= k < o.len() ==> {
            &&& o[k] < nodes.len()
            &&& nodes[o[k] as int].value is Some
            &&& nodes[o[k] as int].links == expected_links(o, k)
        }
}

/// Only the slots of `o` hold an element.
spec fn values_listed<T>(nodes: Seq<Node<T>>, o: Seq<usize>) -> bool {
    forall|i: int| 0 <= i < nodes.len() && (#[trigger] nodes[i]).value is Some ==> o.contains(i as usize)
}

/// Inserting a slot that holds an element keeps the elements listed.
proof fn lemma_values_listed_insert<T>(
    n0: Seq<Node<T>>,
    n1: Seq<Node<T>>,
    o: Seq<usize>,
    k: int,
    slot: usize,
)
    requires
        values_listed(n0, o),
        0 <= k <= o.len(),
        slot < n1.len(),
        n1.len() >= n0.len(),
        n1.len() <= n0.len() + 1,
        n1.len() == n0.len() + 1 ==> slot == n0.len(),
        n0.len() <= usize::MAX,
        forall|i: int| 0 <= i < n0.len() && i != slot ==> #[trigger] n1[i].value == n0[i].value,
    ensures
        values_listed(n1, o.insert(k, slot)),
{
    let o2 = o.insert(k, slot);
    assert forall|i: int| 0 <= i < n1.len() && (#[trigger] n1[i]).value is Some implies o2.contains(
        i as usize,
    ) by {
        if i == slot {
            assert(o2[k] == slot);
        } else {
            assert(n0[i].value is Some);
            assert(o.contains(i as usize));
            let j = choose|j: int| 0 <= j < o.len() && o[j] == i as usize;
            if j < k {
                assert(o2[j] == i as usize);
            } else {
                assert(o2[j + 1] == i as usize);
            }
        }
    }
}

/// Emptying the slot at position `k` and dropping it from `o` keeps the
/// elements listed.
proof fn lemma_values_listed_remove<T>(n0: Seq<Node<T>>, n1: Seq<Node<T>>, o: Seq<usize>, k: int)
    requires
        values_listed(n0, o),
        0 <= k < o.len(),
        n1.len() == n0.len(),
        n0.len() <= usize::MAX,
        n1[o[k] as int].value is None,
        forall|i: int| 0 <= i < n0.len() && i != o[k] ==> #[trigger] n1[i].value == n0[i].value,
    ensures
        values_listed(n1, o.remove(k)),
{
    let o2 = o.remove(k);
    assert forall|i: int| 0 <= i < n1.len() && (#[trigger] n1[i]).value is Some implies o2.contains(
        i as usize,
    ) by {
        assert(i != o[k]);
        assert(n0[i].value is Some);
        let j = choose|j: int| 0 <= j < o.len() && o[j] == i as usize;
        if j < k {
            assert(o2[j] == i as usize);
        } else {
            assert(j != k);
            assert(o2[j - 1] == i as usize);
        }
    }
}

/// The slots of `free` are distinct slots of `nodes`, none of them in `o`:
/// they are empty, and are reused before storage grows.
spec fn free_ok<T>(nodes: Seq<Node<T>>, o: Seq<usize>, free: Seq<usize>) -> bool {
    &&& free.no_duplicates()
    &&& forall|i: int| 0 <= i < free.len() ==> #[trigger] free[i] < nodes.len() && !o.contains(free[i])
}

/// Taking `slot` off the end of the free slots `f0`, or growing storage by
/// it when there are none, and inserting it into `o` keeps the free slots
/// well formed.
proof fn lemma_free_ok_insert<T>(
    n0: Seq<Node<T>>,
    n1: Seq<Node<T>>,
    o: Seq<usize>,
    k: int,
    slot: usize,
    f0: Seq<usize>,
    f1: Seq<usize>,
)
    requires
        free_ok(n0, o, f0),
        0 <= k <= o.len(),
        n1.len() >= n0.len(),
        f1.len() <= f0.len(),
        forall|i: int| 0 <= i < f1.len() ==> #[trigger] f1[i] == f0[i],
        forall|i: int| 0 <= i < f1.len() ==> #[trigger] f1[i] != slot,
    ensures
        free_ok(n1, o.insert(k, slot), f1),
{
    let o2 = o.insert(k, slot);
    assert forall|i: int| 0 <= i < f1.len() implies #[trigger] f1[i] < n1.len() && !o2.contains(
        f1[i],
    ) by {
        assert(f1[i] == f0[i]);
        if o2.contains(f1[i]) {
            let j = choose|j: int| 0 <= j < o2.len() && o2[j] == f1[i];
            if j < k {
                assert(o[j] == f1[i]);
            } else if j > k {
                assert(o[j - 1] == f1[i]);
            }
        }
    }
    assert(f1.no_duplicates()) by {
        assert forall|a: int, b: int| 0 <= a < b < f1.len() implies f1[a] != f1[b] by {
            assert(f1[a] == f0[a] && f1[b] == f0[b]);
        }
    }
}

/// The elements held by the slots of `o`, in order.
spec fn view_of<T>(nodes: Seq<Node<T>>, o: Seq<usize>) -> Seq<T> {
    Seq::new(o.len(), |k: int| nodes[o[k] as int].value->0)
}

#[verifier::spinoff_prover]
proof fn lemma_insert<T>(
    n0: Seq<Node<T>>,
    n1: Seq<Node<T>>,
    o: Seq<usize>,
    k: int,
    slot: usize,
    value: T,
)
    requires
        nodes_wf(n0, o),
        0 <= k <= o.len(),
        slot < n1.len(),
        n1.len() >= n0.len(),
        !o.contains(slot),
        n1[slot as int].value == Some(value),
        n1[slot as int].links == expected_links(o.insert(k, slot), k),
        forall|i: int| 0 <= i < n0.len() && i != slot ==> #[trigger] n1[i].value == n0[i].value,
        forall|i: int|
            0 <= i < n0.len() && i != slot && !(k > 0 && i == o[k - 1]) && !(k < o.len() && i
                == o[k]) ==> #[trigger] n1[i].links == n0[i].links,
        k > 0 ==> n1[o[k - 1] as int].links == (Links {
            next: Some(slot),
            prev: n0[o[k - 1] as int].links.prev,
        }),
        k < o.len() ==> n1[o[k] as int].links == (Links {
            next: n0[o[k] as int].links.next,
            prev: Some(slot),
        }),
    ensures
        nodes_wf(n1, o.insert(k, slot)),
        view_of(n1, o.insert(k, slot)) == view_of(n0, o).insert(k, value),
{
    let o2 = o.insert(k, slot);
    assert forall|j: int| 0 <= j < o.len() implies o[j] != slot by {
        if o[j] == slot {
            assert(o.contains(slot));
        }
    }
    assert forall|a: int, b: int| 0 <= a < b < o2.len() implies o2[a] != o2[b] by {
        if a < k && b < k {
        } else if a < k && b == k {
        } else if a < k && b > k {
            assert(o2[b] == o[b - 1]);
        } else if a == k {
            assert(o2[b] == o[b - 1]);
        } else {
            assert(o2[a] == o[a - 1]);
            assert(o2[b] == o[b - 1]);
        }
    }
    assert forall|j: int|
        #![trigger o2[j]]
        0 <= j < o2.len() implies {
        &&& o2[j] < n1.len()
        &&& n1[o2[j] as int].value is Some
        &&& n1[o2[j] as int].links == expected_links(o2, j)
    } by {
        if j < k {
            assert(o2[j] == o[j]);
            if j < k - 1 {
                assert(o[j] != o[k - 1]);
            }
            if k < o.len() {
                assert(o[j] != o[k]);
            }
            assert(n0[o[j] as int].links == expected_links(o, j));
        } else if j == k {
        } else {
            assert(o2[j] == o[j - 1]);
            if j > k + 1 {
                assert(o[j - 1] != o[k]);
            }
            if k > 0 {
                assert(o[j - 1] != o[k - 1]);
            }
            assert(n0[o[j - 1] as int].links == expected_links(o, j - 1));
        }
    }
    assert(view_of(n1, o2) =~= view_of(n0, o).insert(k, value)) by {
        assert forall|j: int| 0 <= j < o2.len() implies view_of(n1, o2)[j] == view_of(
            n0,
            o,
        ).insert(k, value)[j] by {
            if j < k {
                assert(o2[j] == o[j]);
                assert(o[j] < n0.len());
            } else if j > k {
                assert(o2[j] == o[j - 1]);
                assert(o[j - 1] < n0.len());
            }
        }
    }
}

/// A sequence of distinct slots, all below `n`, has at most `n` entries.
proof fn lemma_distinct_below(o: Seq<usize>, n: nat)
    requires
        o.no_duplicates(),
        forall|k: int| 0 <= k < o.len() ==> #[trigger] o[k] < n,
    ensures
        o.len() <= n,
    decreases o.len(),
{
    if o.len() > 0 {
        let x = o.last();
        let rest = o.drop_last();
        let top = (n - 1) as usize;
        let moved = rest.map_values(|e: usize| if e == top { x } else { e });
        assert forall|k: int| 0 <= k < moved.len() implies #[trigger] moved[k] < (n - 1) as nat by {
            assert(rest[k] == o[k]);
            assert(o[k] != o[o.len() - 1]);
        }
        assert forall|a: int, b: int| 0 <= a < moved.len() && 0 <= b < moved.len() && a != b
            implies moved[a] != moved[b] by {
            assert(rest[a] == o[a] && rest[b] == o[b]);
            assert(o[a] != o[o.len() - 1] && o[b] != o[o.len() - 1]);
            assert(o[a] != o[b]);
        }
        lemma_distinct_below(moved, (n - 1) as nat);
    }
}

#[verifier::spinoff_prover]
proof fn lemma_remove<T>(n0: Seq<Node<T>>, n1: Seq<Node<T>>, o: Seq<usize>, k: int)
    requires
        nodes_wf(n0, o),
        0 <= k < o.len(),
        n1.len() == n0.len(),
        forall|i: int| 0 <= i < n0.len() && i != o[k] ==> #[trigger] n1[i].value == n0[i].value,
        forall|i: int|
            0 <= i < n0.len() && i != o[k] && !(k > 0 && i == o[k - 1]) && !(k + 1 < o.len()
                && i == o[k + 1]) ==> #[trigger] n1[i].links == n0[i].links,
        k > 0 ==> n1[o[k - 1] as int].links == (Links {
            next: n0[o[k] as int].links.next,
            prev: n0[o[k - 1] as int].links.prev,
        }),
        k + 1 < o.len() ==> n1[o[k + 1] as int].links == (Links {
            next: n0[o[k + 1] as int].links.next,
            prev: n0[o[k] as int].links.prev,
        }),
    ensures
        nodes_wf(n1, o.remove(k)),
        view_of(n1, o.remove(k)) == view_of(n0, o).remove(k),
{
    let o2 = o.remove(k);
    assert forall|a: int, b: int| 0 <= a < b < o2.len() implies o2[a] != o2[b] by {
        let a0 = if a < k {
            a
        } else {
            a + 1
        };
        let b0 = if b < k {
            b
        } else {
            b + 1
        };
        assert(o2[a] == o[a0]);
        assert(o2[b] == o[b0]);
    }
    assert(n0[o[k] as int].links == expected_links(o, k));
    assert forall|j: int|
        #![trigger o2[j]]
        0 <= j < o2.len() implies {
        &&& o2[j] < n1.len()
        &&& n1[o2[j] as int].value is Some
        &&& n1[o2[j] as int].links == expected_links(o2, j)
    } by {
        if j < k {
            assert(o2[j] == o[j]);
            assert(o[j] != o[k]);
            if k + 1 < o.len() {
                assert(o[j] != o[k + 1]);
            }
            if j < k - 1 {
                assert(o[j] != o[k - 1]);
            }
            assert(n0[o[j] as int].links == expected_links(o, j));
        } else {
            assert(o2[j] == o[j + 1]);
            assert(o[j + 1] != o[k]);
            if k > 0 {
                assert(o[j + 1] != o[k - 1]);
            }
            if j > k {
                assert(o[j + 1] != o[k + 1]);
            }
            assert(n0[o[j + 1] as int].links == expected_links(o, j + 1));
        }
    }
    assert(view_of(n1, o2) =~= view_of(n0, o).remove(k)) by {
        assert forall|j: int| 0 <= j < o2.len() implies view_of(n1, o2)[j] == view_of(
            n0,
            o,
        ).remove(k)[j] by {
            if j < k {
                assert(o2[j] == o[j]);
                assert(o[j] != o[k]);
                assert(o[j] < n0.len());
            } else {
                assert(o2[j] == o[j + 1]);
                assert(o[j + 1] != o[k]);
                assert(o[j + 1] < n0.len());
            }
        }
    }
}

impl<T> List<T> {
    /// The slots in the list, from head to tail.
    pub closed spec fn order(&self) -> Seq<usize> {
        self.order@
    }

    /// The number of slots in the node storage.
    pub closed spec fn capacity(&self) -> nat {
        self.nodes@.len()
    }

    /// The number of empty slots that the next insertions reuse.
    pub closed spec fn spare(&self) -> nat {
        self.free@.len()
    }

    /// The element held in slot `i`.
    pub closed spec fn value_at(&self, i: usize) -> T {
        self.nodes@[i as int].value->0
    }

    /// The links of slot `i`.
    pub closed spec fn links_at(&self, i: usize) -> Links {
        self.nodes@[i as int].links
    }

    /// The elements of the list, from head to tail.
    pub closed spec fn view(&self) -> Seq<T> {
        view_of(self.nodes@, self.order@)
    }

    /// The list is well formed: every node in it links to the nodes before
    /// and after it, the head and tail name the ends, and `len` counts the
    /// nodes.
    pub closed spec fn wf(&self) -> bool {
        let o = self.order@;
        &&& self.len == o.len()
        &&& nodes_wf(self.nodes@, o)
        &&& values_listed(self.nodes@, o)
        &&& free_ok(self.nodes@, o, self.free@)
        &&& self.head == first_of(o)
        &&& self.tail == last_of(o)
    }

    /// The slot holding the element at position `k`.
    pub open spec fn slot_at(&self, k: int) -> usize {
        self.order()[k]
    }

    /// Returns a new empty list.
    pub fn new() -> (r: Self)
        ensures
            r.wf(),
            r@ == Seq::<T>::empty(),
            r.capacity() == 0,
    {
        let r = List {
            nodes: Vec::new(),
            free: Vec::new(),
            head: None,
            tail: None,
            len: 0,
            order: Ghost(Seq::empty()),
        };
        assert(r@ =~= Seq::<T>::empty());
        r
    }

    /// Returns the number of elements in the list.
    pub fn len(&self) -> (r: usize)
        requires
            self.wf(),
        ensures
            r == self@.len(),
    {
        self.len
    }

    /// Returns `true` if this list is empty.
    pub fn is_empty(&self) -> (r: bool)
        requires
            self.wf(),
        ensures
            r == (self@.len() == 0),
    {
        self.head.is_none()
    }

    fn set_next(&mut self, i: usize, next: Option<usize>)
        requires
            i < old(self).nodes@.len(),
        ensures
            final(self).nodes@ == old(self).nodes@.update(
                i as int,
                (Node {
                    value: old(self).nodes@[i as int].value,
                    links: Links { next, prev: old(self).nodes@[i as int].links.prev },
                }),
            ),
            final(self).head == old(self).head,
            final(self).tail == old(self).tail,
            final(self).len == old(self).len,
            final(self).order == old(self).order,
            final(self).free == old(self).free,
    {
        self.nodes[i].links.next = next;
    }

    fn set_prev(&mut self, i: usize, prev: Option<usize>)
        requires
            i < old(self).nodes@.len(),
        ensures
            final(self).nodes@ == old(self).nodes@.update(
                i as int,
                (Node {
                    value: old(self).nodes@[i as int].value,
                    links: Links { next: old(self).nodes@[i as int].links.next, prev },
                }),
            ),
            final(self).head == old(self).head,
            final(self).tail == old(self).tail,
            final(self).len == old(self).len,
            final(self).order == old(self).order,
            final(self).free == old(self).free,
    {
        self.nodes[i].links.prev = prev;
    }

    /// Empties slot `i`, returning its element and unlinking it.
    fn take_slot(&mut self, i: usize) -> (r: Option<T>)
        requires
            i < old(self).nodes@.len(),
        ensures
            r == old(self).nodes@[i as int].value,
            final(self).nodes@ == old(self).nodes@.update(
                i as int,
                (Node { value: None, links: Links { next: None, prev: None } }),
            ),
            final(self).head == old(self).head,
            final(self).tail == old(self).tail,
            final(self).len == old(self).len,
            final(self).order == old(self).order,
            final(self).free == old(self).free,
    {
        let mut t = None;
        std::mem::swap(&mut self.nodes[i].value, &mut t);
        self.nodes[i].links = Links::new();
        t
    }

    /// Stores `node` in an empty slot, reusing the last free slot if there
    /// is one and growing storage otherwise, and returns the slot.
    fn new_slot(&mut self, node: Node<T>) -> (slot: usize)
        requires
            free_ok(old(self).nodes@, old(self).order@, old(self).free@),
            nodes_wf(old(self).nodes@, old(self).order@),
        ensures
            slot < final(self).nodes@.len(),
            final(self).nodes@[slot as int] == node,
            !old(self).order@.contains(slot),
            final(self).nodes@.len() >= old(self).nodes@.len(),
            final(self).nodes@.len() <= old(self).nodes@.len() + 1,
            final(self).nodes@.len() == old(self).nodes@.len() + 1 ==> slot == old(self).nodes@.len(),
            forall|i: int|
                0 <= i < old(self).nodes@.len() && i != slot ==> #[trigger] final(self).nodes@[i]
                    == old(self).nodes@[i],
            old(self).free@.len() == 0 ==> final(self).nodes@.len() == old(self).nodes@.len() + 1
                && final(self).free@.len() == 0,
            old(self).free@.len() > 0 ==> final(self).nodes@.len() == old(self).nodes@.len()
                && final(self).free@.len() == old(self).free@.len() - 1,
            final(self).free@.len() <= old(self).free@.len(),
            forall|i: int| 0 <= i < final(self).free@.len() ==> #[trigger] final(self).free@[i] == old(self).free@[i],
            forall|i: int| 0 <= i < final(self).free@.len() ==> #[trigger] final(self).free@[i] != slot,
            final(self).head == old(self).head,
            final(self).tail == old(self).tail,
            final(self).len == old(self).len,
            final(self).order == old(self).order,
    {
        let ghost o = self.order@;
        let ghost n0 = self.nodes@;
        let ghost f0 = self.free@;
        match self.free.pop() {
            Some(s) => {
                proof {
                    assert(f0[f0.len() - 1] == s);
                    assert(s < n0.len() && !o.contains(s));
                    assert forall|i: int| 0 <= i < self.free@.len() implies #[trigger] self.free@[i]
                        != s by {
                        assert(self.free@[i] == f0[i]);
                    }
                }
                self.nodes.set(s, node);
                s
            },
            None => {
                let s = self.nodes.len();
                self.nodes.push(node);
                proof {
                    if o.contains(s) {
                        let j = choose|j: int| 0 <= j < o.len() && o[j] == s;
                        assert(o[j] < n0.len());
                    }
                }
                s
            },
        }
    }

    /// Links a new node holding `value` between `prev` and `next`, which are
    /// the nodes at positions `k - 1` and `k`.
    #[verifier::spinoff_prover]
    #[verifier::rlimit(60)]
    fn insert_between(
        &mut self,
        Ghost(k): Ghost<int>,
        prev: Option<usize>,
        next: Option<usize>,
        value: T,
    ) -> (slot: usize)
        requires
            old(self).wf(),
            0 <= k <= old(self)@.len(),
            prev == (if k > 0 {
                Some(old(self).order()[k - 1])
            } else {
                None
            }),
            next == (if k < old(self)@.len() {
                Some(old(self).order()[k])
            } else {
                None
            }),
        ensures
            final(self).wf(),
            final(self)@ == old(self)@.insert(k, value),
            final(self).order() == old(self).order().insert(k, slot),
            old(self).spare() == 0 ==> final(self).capacity() == old(self).capacity() + 1
                && final(self).spare() == 0,
            old(self).spare() > 0 ==> final(self).capacity() == old(self).capacity()
                && final(self).spare() == old(self).spare() - 1,
    {
        let ghost o = self.order@;
        let ghost n0 = self.nodes@;
        let ghost f0 = self.free@;
        proof {
            assert(n0.len() == self.nodes.len());
        }
        let slot = self.new_slot(Node { value: Some(value), links: Links { next, prev } });
        let ghost f1 = self.free@;
        let ghost cap1 = self.nodes@.len();
        proof {
            assert(f0.len() == 0 ==> cap1 == n0.len() + 1 && f1.len() == 0);
            assert(f0.len() > 0 ==> cap1 == n0.len() && f1.len() == f0.len() - 1);
        }
        match prev {
            Some(p) => self.set_next(p, Some(slot)),
            None => {
                self.head = Some(slot);
            },
        }
        match next {
            Some(n) => self.set_prev(n, Some(slot)),
            None => {
                self.tail = Some(slot);
            },
        }
        proof {
            if k > 0 && k < o.len() {
                assert(o[k - 1] != o[k]);
            }
            lemma_insert(n0, self.nodes@, o, k, slot, value);
            lemma_values_listed_insert(n0, self.nodes@, o, k, slot);
            lemma_free_ok_insert(n0, self.nodes@, o, k, slot, f0, f1);
            lemma_distinct_below(o.insert(k, slot), self.nodes@.len());
            assert(self.nodes@.len() == self.nodes.len());
        }
        self.len = self.len + 1;
        self.order = Ghost(o.insert(k, slot));
        proof {
            assert(self.nodes@.len() == cap1);
            assert(self.free@ == f1);
        }
        slot
    }

    /// Unlinks the node at position `k`, which is held in `slot`, and returns
    /// its element.
    #[verifier::spinoff_prover]
    fn unlink_at(&mut self, Ghost(k): Ghost<int>, slot: usize) -> (r: T)
        requires
            old(self).wf(),
            0 <= k < old(self)@.len(),
            slot == old(self).order()[k],
        ensures
            final(self).wf(),
            final(self)@ == old(self)@.remove(k),
            final(self).order() == old(self).order().remove(k),
            r == old(self)@[k],
            final(self).nodes@.len() == old(self).nodes@.len(),
            final(self).spare() == old(self).spare() + 1,
    {
        let ghost o = self.order@;
        let ghost n0 = self.nodes@;
        proof {
            assert(n0.len() == self.nodes.len());
            assert(o[k] == slot);
            if k > 0 {
                assert(o[k - 1] != o[k]);
            }
            if k + 1 < o.len() {
                assert(o[k + 1] != o[k]);
                if k > 0 {
                    assert(o[k - 1] != o[k + 1]);
                }
            }
        }
        let prev = self.nodes[slot].links.prev;
        let next = self.nodes[slot].links.next;
        match prev {
            Some(p) => {
                self.set_next(p, next);
            },
            None => {
                self.head = next;
            },
        }
        match next {
            Some(n) => {
                self.set_prev(n, prev);
            },
            None => {
                self.tail = prev;
            },
        }
        let v = self.take_slot(slot);
        let ghost f0 = self.free@;
        self.free.push(slot);
        self.len = self.len - 1;
        self.order = Ghost(o.remove(k));
        proof {
            lemma_remove(n0, self.nodes@, o, k);
            lemma_values_listed_remove(n0, self.nodes@, o, k);
            let o2 = o.remove(k);
            let f1 = self.free@;
            assert forall|i: int| 0 <= i < f0.len() implies f0[i] != slot by {
                assert(o[k] == slot);
                assert(o.contains(slot));
            }
            assert forall|i: int| 0 <= i < f1.len() implies #[trigger] f1[i] < self.nodes@.len()
                && !o2.contains(f1[i]) by {
                if o2.contains(f1[i]) {
                    let j = choose|j: int| 0 <= j < o2.len() && o2[j] == f1[i];
                    if i < f0.len() {
                        assert(f1[i] == f0[i]);
                        if j < k {
                            assert(o[j] == f1[i]);
                        } else {
                            assert(o[j + 1] == f1[i]);
                        }
                    } else {
                        assert(f1[i] == slot);
                        if j < k {
                            assert(o[j] == slot);
                        } else {
                            assert(o[j + 1] == slot);
                        }
                    }
                }
            }
            assert(f1.no_duplicates()) by {
                assert forall|a: int, b: int| 0 <= a < b < f1.len() implies f1[a] != f1[b] by {
                    if b == f0.len() {
                        assert(f1[a] == f0[a]);
                    } else {
                        assert(f1[a] == f0[a] && f1[b] == f0[b]);
                    }
                }
            }
        }
        v.unwrap()
    }

    /// Appends an item to the tail of the list, and returns the slot that
    /// holds it.
    pub fn push_back(&mut self, item: T) -> (slot: usize)
        requires
            old(self).wf(),
        ensures
            final(self).wf(),
            final(self)@ == old(self)@.push(item),
            final(self).order() == old(self).order().push(slot),
            old(self).spare() == 0 ==> final(self).capacity() == old(self).capacity() + 1,
            old(self).spare() > 0 ==> final(self).capacity() == old(self).capacity(),
    {
        let ghost len = self@.len() as int;
        let tail = self.tail;
        let slot = self.insert_between(Ghost(len), tail, None, item);
        proof {
            assert(old(self)@.insert(len, item) =~= old(self)@.push(item));
            assert(old(self).order().insert(len, slot) =~= old(self).order().push(slot));
        }
        slot
    }

    /// Adds an item at the head of the list, and returns the slot that
    /// holds it.
    pub fn push_front(&mut self, item: T) -> (slot: usize)
        requires
            old(self).wf(),
        ensures
            final(self).wf(),
            final(self)@ == seq![item] + old(self)@,
            final(self).order() == seq![slot] + old(self).order(),
            old(self).spare() == 0 ==> final(self).capacity() == old(self).capacity() + 1,
            old(self).spare() > 0 ==> final(self).capacity() == old(self).capacity(),
    {
        let head = self.head;
        let slot = self.insert_between(Ghost(0), None, head, item);
        proof {
            assert(old(self)@.insert(0, item) =~= seq![item] + old(self)@);
            assert(old(self).order().insert(0, slot) =~= seq![slot] + old(self).order());
        }
        slot
    }

    /// Removes the node held in `slot` from the list and returns its
    /// element, or returns `None` if no node of the list is held there.
    pub fn remove(&mut self, slot: usize) -> (r: Option<T>)
        requires
            old(self).wf(),
        ensures
            final(self).wf(),
            !old(self).order().contains(slot) ==> r is None && final(self)@ == old(self)@
                && final(self).order() == old(self).order(),
            old(self).order().contains(slot) ==> {
                let k = old(self).order().index_of(slot);
                &&& r == Some(old(self)@[k])
                &&& final(self)@ == old(self)@.remove(k)
                &&& final(self).order() == old(self).order().remove(k)
            },
    {
        if slot >= self.nodes.len() {
            proof {
                if self.order@.contains(slot) {
                    let k = choose|k: int| 0 <= k < self.order@.len() && self.order@[k] == slot;
                    assert(self.order@[k] < self.nodes@.len());
                }
            }
            return None;
        }
        if self.nodes[slot].value.is_none() {
            proof {
                if self.order@.contains(slot) {
                    let k = choose|k: int| 0 <= k < self.order@.len() && self.order@[k] == slot;
                    assert(self.nodes@[self.order@[k] as int].value is Some);
                }
            }
            return None;
        }
        proof {
            assert(self.nodes@[slot as int].value is Some);
            assert(self.order@.contains(slot));
        }
        let ghost k = self.order@.index_of(slot);
        Some(self.unlink_at(Ghost(k), slot))
    }

    /// Removes the item at the tail of the list, if there is one.
    pub fn pop_back(&mut self) -> (r: Option<T>)
        requires
            old(self).wf(),
        ensures
            final(self).wf(),
            old(self)@.len() == 0 ==> r is None && final(self)@ == old(self)@,
            old(self)@.len() > 0 ==> r == Some(old(self)@.last()) && final(self)@
                == old(self)@.drop_last() && final(self).order() == old(self).order().drop_last(),
            final(self).capacity() == old(self).capacity(),
    {
        match self.tail {
            None => None,
            Some(tail) => {
                let ghost k = self@.len() - 1;
                let v = self.unlink_at(Ghost(k), tail);
                proof {
                    assert(old(self)@.remove(k) =~= old(self)@.drop_last());
                    assert(old(self).order().remove(k) =~= old(self).order().drop_last());
                }
                Some(v)
            },
        }
    }

    /// Removes the item at the head of the list, if there is one.
    pub fn pop_front(&mut self) -> (r: Option<T>)
        requires
            old(self).wf(),
        ensures
            final(self).wf(),
            old(self)@.len() == 0 ==> r is None && final(self)@ == old(self)@,
            old(self)@.len() > 0 ==> r == Some(old(self)@[0]) && final(self)@ == old(self)@.drop_first()
                && final(self).order() == old(self).order().drop_first(),
            final(self).capacity() == old(self).capacity(),
    {
        match self.head {
            None => None,
            Some(head) => {
                let v = self.unlink_at(Ghost(0), head);
                proof {
                    assert(old(self)@.remove(0) =~= old(self)@.drop_first());
                    assert(old(self).order().remove(0) =~= old(self).order().drop_first());
                }
                Some(v)
            },
        }
    }

    /// Removes and returns the element at position `k`, walking from the
    /// head to find it.
    pub(crate) fn remove_at(&mut self, k: usize) -> (r: T)
        requires
            old(self).wf(),
            k < old(self)@.len(),
        ensures
            final(self).wf(),
            final(self)@ == old(self)@.remove(k as int),
            r == old(self)@[k as int],
    {
        let mut slot = self.head.unwrap();
        let mut i: usize = 0;
        while i < k
            invariant
                self.wf(),
                self == old(self),
                i <= k,
                k < self@.len(),
                slot == self.order()[i as int],
            decreases k - i,
        {
            proof {
                assert(self.nodes@[slot as int].links == expected_links(self.order@, i as int));
            }
            slot = self.nodes[slot].links.next.unwrap();
            i = i + 1;
        }
        self.unlink_at(Ghost(k as int), slot)
    }

    /// Returns a reference to the element held in slot `i`, which is in the
    /// list.
    fn get(&self, i: usize) -> (r: &T)
        requires
            self.wf(),
            self.order().contains(i),
        ensures
            *r == self.value_at(i),
    {
        let ghost k = self.order().index_of(i);
        proof {
            assert(self.order()[k] == i);
        }
        self.nodes[i].value.as_ref().unwrap()
    }

    /// Returns a reference to the first element in the list.
    pub fn front(&self) -> (r: Option<&T>)
        requires
            self.wf(),
        ensures
            self@.len() == 0 ==> r is None,
            self@.len() > 0 ==> r == Some(&self@[0]),
    {
        match self.head {
            None => None,
            Some(h) => {
                proof {
                    assert(self.order()[0] == h);
                }
                Some(self.get(h))
            },
        }
    }

    /// Returns a mutable reference to the element held in slot `i`, which
    /// is in the list at position `k`.
    pub(crate) fn get_mut(&mut self, i: usize, Ghost(k): Ghost<int>) -> (r: &mut T)
        requires
            old(self).wf(),
            0 <= k < old(self)@.len(),
            old(self).order()[k] == i,
        ensures
            *r == old(self)@[k],
            final(self).wf(),
            final(self)@ == old(self)@.update(k, *final(r)),
            final(self).order() == old(self).order(),
    {
        proof {
            assert(self.nodes@[i as int].value is Some);
        }
        let node = &mut self.nodes[i];
        match &mut node.value {
            Some(v) => v,
            None => vstd::pervasive::unreached(),
        }
    }

    /// Returns a mutable reference to the first element in the list.
    pub fn front_mut(&mut self) -> (r: Option<&mut T>)
        requires
            old(self).wf(),
        ensures
            old(self)@.len() == 0 ==> r is None && *final(self) == *old(self),
            old(self)@.len() > 0 ==> {
                &&& r is Some
                &&& *r->0 == old(self)@[0]
                &&& final(self).wf()
                &&& final(self)@ == old(self)@.update(0, *final(r->0))
            },
    {
        match self.head {
            None => None,
            Some(h) => {
                proof {
                    assert(self.order()[0] == h);
                }
                Some(self.get_mut(h, Ghost(0)))
            },
        }
    }

    /// Returns a mutable reference to the last element in the list.
    pub fn back_mut(&mut self) -> (r: Option<&mut T>)
        requires
            old(self).wf(),
        ensures
            old(self)@.len() == 0 ==> r is None && *final(self) == *old(self),
            old(self)@.len() > 0 ==> {
                &&& r is Some
                &&& *r->0 == old(self)@.last()
                &&& final(self).wf()
                &&& final(self)@ == old(self)@.update(old(self)@.len() - 1, *final(r->0))
            },
    {
        match self.tail {
            None => None,
            Some(t) => {
                let ghost k = self@.len() - 1;
                proof {
                    assert(self.order()[k] == t);
                }
                Some(self.get_mut(t, Ghost(k)))
            },
        }
    }

    /// Returns a reference to the last element in the list.
    pub fn back(&self) -> (r: Option<&T>)
        requires
            self.wf(),
        ensures
            self@.len() == 0 ==> r is None,
            self@.len() > 0 ==> r == Some(&self@.last()),
    {
        match self.tail {
            None => None,
            Some(t) => {
                proof {
                    assert(self.order()[self@.len() - 1] == t);
                }
                Some(self.get(t))
            },
        }
    }
}


/// One step of moving the front element over: the remaining run starts one
/// later and the moved run ends one later.
proof fn lemma_take_front_step<A>(
    o0: Seq<usize>,
    s0: Seq<A>,
    i: int,
    ob: Seq<usize>,
    vb: Seq<A>,
    sb: Seq<A>,
    v: A,
)
    requires
        0 <= i < o0.len(),
        s0.len() == o0.len(),
        ob == o0.subrange(i, o0.len() as int),
        vb == s0.subrange(i, s0.len() as int),
        sb == s0.subrange(0, i),
        v == vb[0],
    ensures
        ob.drop_first() == o0.subrange(i + 1, o0.len() as int),
        vb.drop_first() == s0.subrange(i + 1, s0.len() as int),
        sb.push(v) == s0.subrange(0, i + 1),
{
    assert(ob.drop_first() =~= o0.subrange(i + 1, o0.len() as int));
    assert(vb.drop_first() =~= s0.subrange(i + 1, s0.len() as int));
    assert(sb.push(v) =~= s0.subrange(0, i + 1));
}

/// One step of splicing: inserting the element at `c` of `s0` at position `p`
/// extends the spliced run by one at its front.
proof fn lemma_splice_view<A>(l0: Seq<A>, s0: Seq<A>, p: int, c: int, cur: Seq<A>, v: A)
    requires
        0 <= p <= l0.len(),
        0 <= c < s0.len(),
        s0[c] == v,
        cur == l0.subrange(0, p) + s0.subrange(c + 1, s0.len() as int) + l0.subrange(
            p,
            l0.len() as int,
        ),
    ensures
        cur.insert(p, v) == l0.subrange(0, p) + s0.subrange(c, s0.len() as int) + l0.subrange(
            p,
            l0.len() as int,
        ),
{
    assert(cur.insert(p, v) =~= l0.subrange(0, p) + s0.subrange(c, s0.len() as int)
        + l0.subrange(p, l0.len() as int));
}

/// Inserting `slot` at position `p` keeps the slots before `p` and shifts
/// those after it by one more.
proof fn lemma_splice_order(o0: Seq<usize>, o1: Seq<usize>, p: int, m: int, slot: usize)
    requires
        0 <= p <= o0.len(),
        m >= 0,
        o1.len() == o0.len() + m,
        forall|j: int| 0 <= j < p ==> o1[j] == o0[j],
        forall|j: int| p <= j < o0.len() ==> o1[j + m] == o0[j],
    ensures
        o1.insert(p, slot).len() == o0.len() + m + 1,
        o1.insert(p, slot)[p] == slot,
        forall|j: int| 0 <= j < p ==> o1.insert(p, slot)[j] == o0[j],
        forall|j: int| p <= j < o0.len() ==> o1.insert(p, slot)[j + (m + 1)] == o0[j],
{
    let o2 = o1.insert(p, slot);
    assert forall|j: int| p <= j < o0.len() implies o2[j + (m + 1)] == o0[j] by {
        assert(o2[j + (m + 1)] == o1[j + m]);
    }
}

impl<T> List<T> {
    /// Moves the first `n` elements into a new list, which is returned; the
    /// remaining nodes stay in their slots.
    pub(crate) fn take_front(&mut self, n: usize) -> (r: List<T>)
        requires
            old(self).wf(),
            n < old(self)@.len(),
        ensures
            final(self).wf(),
            r.wf(),
            final(self).order() == old(self).order().subrange(n as int, old(self)@.len() as int),
            final(self)@ == old(self)@.subrange(n as int, old(self)@.len() as int),
            r@ == old(self)@.subrange(0, n as int),
    {
        let ghost o0 = self.order();
        let ghost s0 = self@;
        let mut split = List::new();
        let mut i: usize = 0;
        while i < n
            invariant
                self.wf(),
                split.wf(),
                i <= n,
                n < o0.len(),
                s0.len() == o0.len(),
                self.order() == o0.subrange(i as int, o0.len() as int),
                self@ == s0.subrange(i as int, s0.len() as int),
                split@ == s0.subrange(0, i as int),
            decreases n - i,
        {
            let ghost ob = self.order();
            let ghost vb = self@;
            let ghost sb = split@;
            let v = self.pop_front().unwrap();
            split.push_back(v);
            proof {
                lemma_take_front_step(o0, s0, i as int, ob, vb, sb, v);
            }
            i = i + 1;
        }
        split
    }

    /// Moves the elements of `other` into this list between the nodes at
    /// positions `p - 1` (held in `prev`) and `p`.
    #[verifier::rlimit(50)]
    pub(crate) fn insert_nodes_between(&mut self, Ghost(p): Ghost<int>, prev: Option<usize>, other: List<T>)
        requires
            old(self).wf(),
            other.wf(),
            0 <= p <= old(self)@.len(),
            prev == (if p > 0 {
                Some(old(self).order()[p - 1])
            } else {
                None
            }),
        ensures
            final(self).wf(),
            final(self)@ == old(self)@.subrange(0, p) + other@ + old(self)@.subrange(
                p,
                old(self)@.len() as int,
            ),
            forall|j: int| 0 <= j < p ==> final(self).order()[j] == old(self).order()[j],
            forall|j: int|
                p <= j < old(self)@.len() ==> final(self).order()[j + other@.len()] == old(
                    self,
                ).order()[j],
    {
        let mut other = other;
        let ghost o0 = self.order();
        let ghost l0 = self@;
        let ghost s0 = other@;
        let mut next = self.next_after(Ghost(p), prev);
        while !other.is_empty()
            invariant
                self.wf(),
                other.wf(),
                0 <= p <= l0.len(),
                l0.len() == o0.len(),
                s0.len() >= other@.len(),
                other@ == s0.subrange(0, other@.len() as int),
                self.order().len() == o0.len() + (s0.len() - other@.len()),
                forall|j: int| 0 <= j < p ==> self.order()[j] == o0[j],
                forall|j: int|
                    p <= j < o0.len() ==> self.order()[j + (s0.len() - other@.len())] == o0[j],
                prev == (if p > 0 {
                    Some(o0[p - 1])
                } else {
                    None
                }),
                next == (if p < self.order().len() {
                    Some(self.order()[p])
                } else {
                    None
                }),
                self@ == l0.subrange(0, p) + s0.subrange(other@.len() as int, s0.len() as int)
                    + l0.subrange(p, l0.len() as int),
            decreases other@.len(),
        {
            let ghost o1 = self.order();
            let ghost l1 = self@;
            let ghost m = s0.len() - other@.len();
            let ghost c = other@.len() - 1;
            let v = other.pop_back().unwrap();
            let slot = self.insert_between(Ghost(p), prev, next, v);
            next = Some(slot);
            proof {
                lemma_splice_view(l0, s0, p, c, l1, v);
                lemma_splice_order(o0, o1, p, m, slot);
                assert(other@ =~= s0.subrange(0, c));
            }
        }
        proof {
            assert(s0.subrange(0, s0.len() as int) =~= s0);
        }
    }

    /// The slot at position `p`, given the slot at position `p - 1`.
    pub(crate) fn next_after(&self, Ghost(p): Ghost<int>, prev: Option<usize>) -> (r: Option<usize>)
        requires
            self.wf(),
            0 <= p <= self@.len(),
            prev == (if p > 0 {
                Some(self.order()[p - 1])
            } else {
                None
            }),
        ensures
            r == (if p < self@.len() {
                Some(self.order()[p])
            } else {
                None::<usize>
            }),
    {
        match prev {
            Some(s) => {
                proof {
                    assert(self.nodes@[s as int].links == expected_links(self.order@, p - 1));
                }
                self.nodes[s].links.next
            },
            None => self.head,
        }
    }
}

impl<T> List<T> {
    /// Moves all elements from `other` to the end of the list, leaving
    /// `other` empty.
    pub fn append(&mut self, other: &mut Self)
        requires
            old(self).wf(),
            old(other).wf(),
        ensures
            final(self).wf(),
            final(other).wf(),
            final(self)@ == old(self)@ + old(other)@,
            final(other)@ == Seq::<T>::empty(),
    {
        let ghost s0 = self@;
        let ghost o0 = other@;
        while !other.is_empty()
            invariant
                self.wf(),
                other.wf(),
                s0 + o0 == self@ + other@,
                self@.len() + other@.len() == s0.len() + o0.len(),
            decreases other@.len(),
        {
            let ghost before = other@;
            let v = other.pop_front().unwrap();
            self.push_back(v);
            proof {
                assert(before =~= seq![v] + other@);
                assert(self@ + other@ =~= s0 + o0);
            }
        }
        proof {
            assert(other@ =~= Seq::<T>::empty());
            assert(self@ =~= s0 + o0);
        }
    }

    /// Splits the list in two at index `at`: everything from `at` on is
    /// moved into the returned list. Returns `None` if `at` is greater than
    /// the list's length.
    #[verifier::spinoff_prover]
    pub fn try_split_off(&mut self, at: usize) -> (r: Option<Self>)
        requires
            old(self).wf(),
        ensures
            final(self).wf(),
            at > old(self)@.len() ==> r is None && final(self)@ == old(self)@,
            at <= old(self)@.len() ==> final(self)@ == old(self)@.subrange(0, at as int)
                && final(self).order() == old(self).order().subrange(0, at as int),
            at <= old(self)@.len() ==> (r matches Some(split) && split.wf() && split@ == old(
                self)@.subrange(at as int, old(self)@.len() as int)),
    {
        let len = self.len;
        if at > len {
            return None;
        }
        let mut split = List::new();
        let ghost s0 = self@;
        let ghost o0 = self.order();
        while self.len > at
            invariant
                self.wf(),
                split.wf(),
                at <= self@.len(),
                self@ + split@ == s0,
                self.order() == o0.subrange(0, self@.len() as int),
                s0.len() == o0.len(),
            decreases self@.len(),
        {
            let ghost before = self@;
            let ghost obefore = self.order();
            let v = self.pop_back().unwrap();
            split.push_front(v);
            proof {
                assert(before =~= self@.push(v));
                assert(self@ + split@ =~= s0);
                assert(obefore.drop_last() =~= o0.subrange(0, self@.len() as int));
            }
        }
        proof {
            assert(self@ =~= s0.subrange(0, at as int));
            assert(split@ =~= s0.subrange(at as int, s0.len() as int));
        }
        Some(split)
    }

    /// Splits the list in two at index `at`, which must not be greater than
    /// the list's length: everything from `at` on is moved into the returned
    /// list.
    pub fn split_off(&mut self, at: usize) -> (r: Self)
        requires
            old(self).wf(),
            at <= old(self)@.len(),
        ensures
            final(self).wf(),
            r.wf(),
            r@ == old(self)@.subrange(at as int, old(self)@.len() as int),
            final(self)@ == old(self)@.subrange(0, at as int),
            final(self).order() == old(self).order().subrange(0, at as int),
    {
        self.try_split_off(at).unwrap()
    }

    /// Checks as many of the list's invariants as can be seen from its
    /// head, tail, length and links; every check is proved to pass.
    pub fn assert_valid(&self)
        requires
            self.wf(),
        ensures
            self.checked_valid(),
    {
        self.assert_valid_named("")
    }

    /// The slot at the head of the list, if any.
    pub closed spec fn head_spec(&self) -> Option<usize> {
        self.head
    }

    /// The slot at the tail of the list, if any.
    pub closed spec fn tail_spec(&self) -> Option<usize> {
        self.tail
    }

    /// What [`List::assert_valid`] checks: an empty list has no head, no
    /// tail and length zero; a list of one node has that node at both ends,
    /// unlinked; the walk from the head follows each node's next link to the
    /// next node, visiting exactly `len` nodes and ending at the tail; and no
    /// node links to itself.
    pub open spec fn checked_valid(&self) -> bool {
        let o = self.order();
        let n = self@.len();
        &&& o.len() == n
        &&& (n == 0 <==> self.head_spec() is None)
        &&& (n == 0 <==> self.tail_spec() is None)
        &&& n == 1 ==> {
            &&& self.head_spec() == self.tail_spec()
            &&& self.links_at(o[0]).next_spec() is None
            &&& self.links_at(o[0]).prev_spec() is None
        }
        &&& n > 0 ==> self.head_spec() == Some(o[0]) && self.tail_spec() == Some(o[n - 1])
        &&& forall|k: int|
            0 <= k < n ==> {
                &&& (#[trigger] self.links_at(o[k])).next_spec() == if k + 1 < n {
                    Some(o[k + 1])
                } else {
                    None
                }
                &&& self.links_at(o[k]).next_spec() != Some(o[k])
                &&& self.links_at(o[k]).prev_spec() != Some(o[k])
            }
    }

    /// Checks the list's invariants: an empty list has no tail and length
    /// zero; otherwise it has a tail, a single node is unlinked, and a walk
    /// from the head over valid links visits exactly `len` nodes. Every
    /// check is proved to pass; `name` only labels the list.
    pub(crate) fn assert_valid_named(&self, name: &str)
        requires
            self.wf(),
        ensures
            self.checked_valid(),
    {
        let _ = name;
        let ghost o = self.order@;
        proof {
            assert forall|k: int| 0 <= k < o.len() implies {
                &&& (#[trigger] self.links_at(o[k])).next_spec() == if k + 1 < o.len() {
                    Some(o[k + 1])
                } else {
                    None
                }
                &&& self.links_at(o[k]).next_spec() != Some(o[k])
                &&& self.links_at(o[k]).prev_spec() != Some(o[k])
            } by {
                assert(self.nodes@[o[k] as int].links == expected_links(o, k));
                if k + 1 < o.len() {
                    assert(o[k + 1] != o[k]);
                }
                if k > 0 {
                    assert(o[k - 1] != o[k]);
                }
            }
            if o.len() == 1 {
                assert(self.nodes@[o[0] as int].links == expected_links(o, 0));
            }
        }
        let head = match self.head {
            Some(head) => head,
            None => {
                proof {
                    assert(self.tail is None);
                    assert(self.len == 0);
                }
                return ;
            },
        };
        proof {
            assert(self.len != 0);
            assert(self.tail is Some);
        }
        let tail = self.tail.unwrap();
        let head_links = self.nodes[head].links;
        let tail_links = self.nodes[tail].links;
        proof {
            assert(head_links == expected_links(o, 0));
            assert(tail_links == expected_links(o, o.len() - 1));
        }
        if head == tail {
            proof {
                if o.len() > 1 {
                    assert(o[0] != o[o.len() - 1]);
                }
                assert(head_links == tail_links);
                assert(head_links.next is None);
                assert(head_links.prev is None);
            }
            return ;
        }
        let mut curr = Some(head);
        let mut actual_len: usize = 0;
        while curr.is_some()
            invariant
                self.wf(),
                o == self.order@,
                o.len() >= 2,
                head == o[0],
                tail == o[o.len() - 1],
                actual_len <= self.len,
                curr == (if actual_len < self.len {
                    Some(o[actual_len as int])
                } else {
                    None::<usize>
                }),
            decreases self.len - actual_len,
        {
            let node = curr.unwrap();
            let links = self.nodes[node].links;
            proof {
                assert(links == expected_links(o, actual_len as int));
            }
            links.assert_valid(node, head, tail, Ghost(o), Ghost(actual_len as int));
            curr = links.next;
            actual_len = actual_len + 1;
        }
        proof {
            assert(self.len == actual_len);
        }
    }

    /// Returns an iterator over the items in this list, by reference.
    pub fn iter(&self) -> (r: Iter<'_, T>)
        requires
            self.wf(),
        ensures
            r.wf(),
            r.remaining() == self@,
    {
        let r = Iter { list: self, curr: self.head, curr_back: self.tail, len: self.len, front: Ghost(0) };
        proof {
            assert(r.remaining() =~= self@);
        }
        r
    }
}

/// Iterates over the items in a [`List`] by reference, from either end.
pub struct Iter<'list, T> {
    list: &'list List<T>,
    curr: Option<usize>,
    curr_back: Option<usize>,
    len: usize,
    front: Ghost<int>,
}

impl<'list, T> Iter<'list, T> {
    /// The items not yet yielded from either end.
    pub closed spec fn remaining(&self) -> Seq<T> {
        self.list@.subrange(self.front@, self.front@ + self.len)
    }

    pub closed spec fn wf(&self) -> bool {
        &&& self.list.wf()
        &&& 0 <= self.front@
        &&& self.front@ + self.len <= self.list@.len()
        &&& self.len > 0 ==> self.curr == Some(self.list.order@[self.front@])
        &&& self.len > 0 ==> self.curr_back == Some(
            self.list.order@[self.front@ + self.len - 1],
        )
    }

    /// Yields the next item from the front.
    pub fn next(&mut self) -> (r: Option<&'list T>)
        requires
            old(self).wf(),
        ensures
            final(self).wf(),
            old(self).remaining().len() == 0 ==> r is None && final(self).remaining() == old(self).remaining(),
            old(self).remaining().len() > 0 ==> r == Some(&old(self).remaining()[0]) && final(self).remaining() == old(self).remaining().drop_first(),
    {
        if self.len == 0 {
            return None;
        }
        let curr = self.curr.unwrap();
        let ghost k = self.front@;
        proof {
            assert(self.list.order@[k] == curr);
        }
        self.len = self.len - 1;
        self.curr = self.list.nodes[curr].links.next;
        self.front = Ghost(k + 1);
        proof {
            assert(self.remaining() =~= old(self).remaining().drop_first());
        }
        Some(self.list.get(curr))
    }

    /// Yields the next item from the back.
    pub fn next_back(&mut self) -> (r: Option<&'list T>)
        requires
            old(self).wf(),
        ensures
            final(self).wf(),
            old(self).remaining().len() == 0 ==> r is None && final(self).remaining() == old(self).remaining(),
            old(self).remaining().len() > 0 ==> r == Some(&old(self).remaining().last()) && final(self).remaining() == old(self).remaining().drop_last(),
    {
        if self.len == 0 {
            return None;
        }
        let curr = self.curr_back.unwrap();
        let ghost k = self.front@ + self.len - 1;
        proof {
            assert(self.list.order@[k] == curr);
        }
        self.len = self.len - 1;
        self.curr_back = self.list.nodes[curr].links.prev;
        proof {
            assert(self.remaining() =~= old(self).remaining().drop_last());
        }
        Some(self.list.get(curr))
    }

    /// The number of items not yet yielded.
    pub fn len(&self) -> (r: usize)
        requires
            self.wf(),
        ensures
            r == self.remaining().len(),
    {
        self.len
    }
}

impl<T> List<T> {
    /// Turns this list into an iterator that yields its items by value, from
    /// either end.
    pub fn into_iter(self) -> (r: IntoIter<T>)
        requires
            self.wf(),
        ensures
            r.wf(),
            r.remaining() == self@,
    {
        IntoIter { list: self }
    }
}

/// Iterates over the items of a [`List`] by value, from either end,
/// taking them out of the list.
pub struct IntoIter<T> {
    list: List<T>,
}

impl<T> IntoIter<T> {
    /// The items not yet yielded from either end.
    pub closed spec fn remaining(&self) -> Seq<T> {
        self.list@
    }

    pub closed spec fn wf(&self) -> bool {
        self.list.wf()
    }

    /// Yields the next item from the front.
    pub fn next(&mut self) -> (r: Option<T>)
        requires
            old(self).wf(),
        ensures
            final(self).wf(),
            old(self).remaining().len() == 0 ==> r is None && final(self).remaining() == old(self).remaining(),
            old(self).remaining().len() > 0 ==> r == Some(old(self).remaining()[0]) && final(self).remaining() == old(self).remaining().drop_first(),
    {
        self.list.pop_front()
    }

    /// Yields the next item from the back.
    pub fn next_back(&mut self) -> (r: Option<T>)
        requires
            old(self).wf(),
        ensures
            final(self).wf(),
            old(self).remaining().len() == 0 ==> r is None && final(self).remaining() == old(self).remaining(),
            old(self).remaining().len() > 0 ==> r == Some(old(self).remaining().last()) && final(self).remaining() == old(self).remaining().drop_last(),
    {
        self.list.pop_back()
    }

    /// The number of items not yet yielded.
    pub fn len(&self) -> (r: usize)
        requires
            self.wf(),
        ensures
            r == self.remaining().len(),
    {
        self.list.len()
    }
}

/// Pushing an element onto the back of a list and then popping the back
/// gives that element back and leaves the list as it was.
pub proof fn law_push_back_pop_back<T>(before: Seq<T>, x: T)
    ensures
        before.push(x).len() > 0,
        before.push(x).last() == x,
        before.push(x).drop_last() == before,
{
    assert(before.push(x).drop_last() =~= before);
}

/// Pushing an element onto the front of a list and then popping the front
/// gives that element back and leaves the list as it was.
pub proof fn law_push_front_pop_front<T>(before: Seq<T>, x: T)
    ensures
        (seq![x] + before).len() > 0,
        (seq![x] + before)[0] == x,
        (seq![x] + before).drop_first() == before,
{
    assert((seq![x] + before).drop_first() =~= before);
}

/// Splitting a list at any index up to its length and appending the split
/// part back gives back the list as it was.
pub proof fn law_split_off_append<T>(list: Seq<T>, at: int)
    requires
        0 <= at <= list.len(),
    ensures
        list.subrange(0, at) + list.subrange(at, list.len() as int) == list,
{
    assert(list.subrange(0, at) + list.subrange(at, list.len() as int) =~= list);
}

} // verus!
