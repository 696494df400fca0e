use vstd::prelude::*;

verus! {

/// The order in which a [`SortedList`] keeps its elements.
#[derive(Copy, Clone, Debug, PartialEq, Eq, Structural)]
pub enum SortOrder {
    /// Smallest element first.
    Min,
    /// Largest element first.
    Max,
}

/// A value that a [`SortedList`] orders by an integer key, which stands
/// for the list's comparison: values with equal keys compare equal, and
/// such values keep the order in which they were inserted.
pub trait SortKey {
    /// The key by which the value is ordered.
    spec fn spec_key(&self) -> i64;

    /// Returns the key by which the value is ordered.
    fn sort_key(&self) -> (r: i64)
        ensures
            r == self.spec_key(),
    ;
}

impl SortKey for i64 {
    open spec fn spec_key(&self) -> i64 {
        *self
    }

    fn sort_key(&self) -> (r: i64) {
        *self
    }
}

/// `a` sorts strictly after `b` under `order`.
pub open spec fn sorts_after<T: SortKey>(order: SortOrder, a: T, b: T) -> bool {
    match order {
        SortOrder::Min => a.spec_key() > b.spec_key(),
        SortOrder::Max => a.spec_key() < b.spec_key(),
    }
}

/// `s` is sorted under `order`: no element sorts after a later one.
pub open spec fn is_sorted<T: SortKey>(order: SortOrder, s: Seq<T>) -> bool {
    forall|i: int, j: int| 0 <= i < j < s.len() ==> !sorts_after(order, #[trigger] s[i], #[trigger] s[j])
}

/// `after` is `before` with `e` inserted behind every element that does not
/// sort after it, and ahead of every element that does.
pub open spec fn inserted_in_order<T: SortKey>(order: SortOrder, before: Seq<T>, e: T, after: Seq<T>) -> bool {
    exists|p: int|
        0 <= p <= before.len() && after == before.insert(p, e) && (forall|i: int|
            0 <= i < p ==> !sorts_after(order, #[trigger] before[i], e)) && (forall|i: int|
            p <= i < before.len() ==> sorts_after(order, #[trigger] before[i], e))
}

struct SNode<T> {
    value: Option<T>,
    next: Option<usize>,
}

/// A singly-linked list that keeps its elements sorted.
///
/// Elements that compare equal keep the order in which they were inserted.
pub struct SortedList<T> {
    nodes: Vec<SNode<T>>,
    head: Option<usize>,
    order: SortOrder,
    slots: Ghost<Seq<usize>>,
}

/// Every slot of `o` is distinct, holds an element, and links to the slot
/// after it.
spec fn snodes_wf<T>(nodes: Seq<SNode<T>>, o: Seq<usize>) -> bool {
    &&& o.no_duplicates()
    &&& forall|k: int|
        #![trigger o[k]]
        0 <= k < o.len() ==> {
            &&& o[k] < nodes.len()
            &&& nodes[o[k] as int].value is Some
            &&& nodes[o[k] as int].next == if k + 1 < o.len() {
                Some(o[k + 1])
            } else {
                None
            }
        }
}

spec fn sview<T>(nodes: Seq<SNode<T>>, o: Seq<usize>) -> Seq<T> {
    Seq::new(o.len(), |k: int| nodes[o[k] as int].value->0)
}

proof fn lemma_sinsert<T>(n0: Seq<SNode<T>>, n1: Seq<SNode<T>>, o: Seq<usize>, k: int, slot: usize, value: T)
    requires
        snodes_wf(n0, o),
        0 <= k <= o.len(),
        slot == n0.len(),
        n1.len() == n0.len() + 1,
        n1[slot as int].value == Some(value),
        n1[slot as int].next == (if k < o.len() {
            Some(o[k])
        } else {
            None
        }),
        forall|i: int| 0 <= i < n0.len() ==> #[trigger] n1[i].value == n0[i].value,
        forall|i: int| 0 <= i < n0.len() && !(k > 0 && i == o[k - 1]) ==> #[trigger] n1[i].next == n0[i].next,
        k > 0 ==> n1[o[k - 1] as int].next == Some(slot),
    ensures
        snodes_wf(n1, o.insert(k, slot)),
        sview(n1, o.insert(k, slot)) == sview(n0, o).insert(k, value),
{
    let o2 = o.insert(k, slot);
    assert forall|j: int| 0 <= j < o.len() implies o[j] != slot by {
        assert(o[j] < n0.len());
    }
    assert forall|a: int, b: int| 0 <= a < b < o2.len() implies o2[a] != o2[b] by {
        if a < k && b < k {
        } else if a < k && b == k {
        } else if a < k && b > k {
            assert(o2[b] == o[b - 1]);
        } else if a == k {
            assert(o2[b] == o[b - 1]);
        } else {
            assert(o2[a] == o[a - 1]);
            assert(o2[b] == o[b - 1]);
        }
    }
    assert forall|j: int|
        #![trigger o2[j]]
        0 <= j < o2.len() implies {
        &&& o2[j] < n1.len()
        &&& n1[o2[j] as int].next == if j + 1 < o2.len() {
            Some(o2[j + 1])
        } else {
            None
        }
    } by {
        if j < k {
            assert(o2[j] == o[j]);
            if j < k - 1 {
                assert(o[j] != o[k - 1]);
            }
            assert(o[j] < n0.len());
        } else if j == k {
        } else {
            assert(o2[j] == o[j - 1]);
            if k > 0 {
                assert(o[j - 1] != o[k - 1]);
            }
            assert(o[j - 1] < n0.len());
        }
    }
    assert(sview(n1, o2) =~= sview(n0, o).insert(k, value)) by {
        assert forall|j: int| 0 <= j < o2.len() implies sview(n1, o2)[j] == sview(n0, o).insert(
            k,
            value,
        )[j] by {
            if j < k {
                assert(o2[j] == o[j]);
                assert(o[j] < n0.len());
            } else if j > k {
                assert(o2[j] == o[j - 1]);
                assert(o[j - 1] < n0.len());
            }
        }
    }
}

impl<T: SortKey> SortedList<T> {
    /// The elements, from the front.
    pub closed spec fn view(&self) -> Seq<T> {
        sview(self.nodes@, self.slots@)
    }

    /// The order the list keeps.
    pub closed spec fn order_spec(&self) -> SortOrder {
        self.order
    }

    /// The number of node slots in storage.
    pub closed spec fn capacity(&self) -> nat {
        self.nodes@.len()
    }

    /// The list's links match its slots, and its elements are sorted.
    pub closed spec fn wf(&self) -> bool {
        &&& snodes_wf(self.nodes@, self.slots@)
        &&& self.head == if self.slots@.len() > 0 {
            Some(self.slots@[0])
        } else {
            None
        }
        &&& is_sorted(self.order, self@)
    }

    /// Returns an empty list that keeps `order`.
    pub fn new_with_cmp(order: SortOrder) -> (r: Self)
        ensures
            r.wf(),
            r@ == Seq::<T>::empty(),
            r.order_spec() == order,
            r.capacity() == 0,
    {
        let r = SortedList { nodes: Vec::new(), head: None, order, slots: Ghost(Seq::empty()) };
        assert(r@ =~= Seq::<T>::empty());
        r
    }

    /// Returns an empty list that keeps its smallest element first.
    pub fn new_min() -> (r: Self)
        ensures
            r.wf(),
            r@ == Seq::<T>::empty(),
            r.order_spec() == SortOrder::Min,
            r.capacity() == 0,
    {
        Self::new_with_cmp(SortOrder::Min)
    }

    /// Returns an empty list that keeps its largest element first.
    pub fn new_max() -> (r: Self)
        ensures
            r.wf(),
            r@ == Seq::<T>::empty(),
            r.order_spec() == SortOrder::Max,
            r.capacity() == 0,
    {
        Self::new_with_cmp(SortOrder::Max)
    }

    /// Inserts the elements of `items` one by one, from the first.
    #[verifier::spinoff_prover]
    #[verifier::rlimit(80)]
    fn insert_all(&mut self, items: Vec<T>)
        requires
            old(self).wf(),
            old(self)@.len() == 0,
            old(self).capacity() == 0,
        ensures
            final(self).wf(),
            final(self).order_spec() == old(self).order_spec(),
            final(self)@.to_multiset() == items@.to_multiset(),
    {
        let ghost order = self.order;
        let ghost all = items@;
        assert(all.len() == items.len());
        let mut items = items;
        let mut i: usize = 0;
        proof {
            assert(all.subrange(0, 0) =~= Seq::<T>::empty());
            assert(self@ =~= Seq::<T>::empty());
            assert(items@ =~= all.subrange(0, all.len() as int));
        }
        while items.len() > 0
            invariant
                self.wf(),
                self.order_spec() == order,
                i <= all.len(),
                all.len() <= usize::MAX,
                items@ == all.subrange(i as int, all.len() as int),
                self.capacity() == i,
                self@.to_multiset() == all.subrange(0, i as int).to_multiset(),
            decreases items.len(),
        {
            let ghost before = self@;
            let e = items.remove(0);
            proof {
                assert(e == all[i as int]);
                assert(items@ =~= all.subrange(i + 1, all.len() as int));
            }
            self.insert(e);
            proof {
                law_insert_keeps_sorted(order, before, e, self@);
                assert(all.subrange(0, i + 1) =~= all.subrange(0, i as int).push(e));
                vstd::seq_lib::to_multiset_build(all.subrange(0, i as int), e);
            }
            i = i + 1;
        }
        proof {
            assert(i == all.len());
            assert(all.subrange(0, all.len() as int) =~= all);
        }
    }

    /// Returns a list that keeps `order`, holding the elements of `stack`
    /// inserted one by one from the first.
    pub fn from_stack_with_cmp(stack: Vec<T>, order: SortOrder) -> (r: Self)
        ensures
            r.wf(),
            r.order_spec() == order,
            r@.to_multiset() == stack@.to_multiset(),
    {
        let mut slist = Self::new_with_cmp(order);
        slist.insert_all(stack);
        slist
    }

    /// Returns a list that keeps its smallest element first, holding the
    /// elements of `stack`.
    pub fn from_stack_min(stack: Vec<T>) -> (r: Self)
        ensures
            r.wf(),
            r.order_spec() == SortOrder::Min,
            r@.to_multiset() == stack@.to_multiset(),
    {
        Self::from_stack_with_cmp(stack, SortOrder::Min)
    }

    /// Returns a list that keeps its largest element first, holding the
    /// elements of `stack`.
    pub fn from_stack_max(stack: Vec<T>) -> (r: Self)
        ensures
            r.wf(),
            r.order_spec() == SortOrder::Max,
            r@.to_multiset() == stack@.to_multiset(),
    {
        Self::from_stack_with_cmp(stack, SortOrder::Max)
    }

    /// Whether the element in slot `i`, which is in the list, sorts strictly
    /// after an element whose key is `key`.
    fn sorts_after_key(&self, i: usize, key: i64) -> (r: bool)
        requires
            i < self.nodes@.len(),
            self.nodes@[i as int].value is Some,
        ensures
            r == match self.order {
                SortOrder::Min => self.nodes@[i as int].value->0.spec_key() > key,
                SortOrder::Max => self.nodes@[i as int].value->0.spec_key() < key,
            },
    {
        let a = match &self.nodes[i].value {
            Some(v) => v.sort_key(),
            None => 0,
        };
        match self.order {
            SortOrder::Min => a > key,
            SortOrder::Max => a < key,
        }
    }

    /// Removes the first element, if there is one.
    pub fn pop_front(&mut self) -> (r: Option<T>)
        requires
            old(self).wf(),
        ensures
            final(self).wf(),
            final(self).order_spec() == old(self).order_spec(),
            final(self).capacity() == old(self).capacity(),
            old(self)@.len() == 0 ==> r is None && final(self)@ == old(self)@,
            old(self)@.len() > 0 ==> r == Some(old(self)@[0]) && final(self)@ == old(self)@.drop_first(),
    {
        match self.head {
            None => None,
            Some(h) => {
                let ghost o = self.slots@;
                proof {
                    assert(o[0] == h);
                }
                let next = self.nodes[h].next;
                let mut value: Option<T> = None;
                std::mem::swap(&mut self.nodes[h].value, &mut value);
                self.nodes[h].next = None;
                self.head = next;
                self.slots = Ghost(o.drop_first());
                proof {
                    let o2 = o.drop_first();
                    assert forall|a: int, b: int| 0 <= a < b < o2.len() implies o2[a] != o2[b] by {
                        assert(o2[a] == o[a + 1]);
                        assert(o2[b] == o[b + 1]);
                    }
                    assert forall|j: int|
                        #![trigger o2[j]]
                        0 <= j < o2.len() implies {
                        &&& o2[j] < self.nodes@.len()
                        &&& self.nodes@[o2[j] as int].next == if j + 1 < o2.len() {
                            Some(o2[j + 1])
                        } else {
                            None
                        }
                    } by {
                        assert(o2[j] == o[j + 1]);
                        assert(o[j + 1] != o[0]);
                    }
                    if o2.len() > 0 {
                        assert(o[1] == o2[0]);
                    }
                    assert(self@ =~= old(self)@.drop_first()) by {
                        assert forall|j: int| 0 <= j < o2.len() implies self@[j] == old(self)@.drop_first()[j] by {
                            assert(o2[j] == o[j + 1]);
                            assert(o[j + 1] != o[0]);
                        }
                    }
                }
                value
            },
        }
    }

    /// Inserts `element` behind every element that does not sort after it.
    pub fn insert(&mut self, element: T)
        requires
            old(self).wf(),
        ensures
            final(self).wf(),
            final(self).order_spec() == old(self).order_spec(),
            final(self).capacity() == old(self).capacity() + 1,
            inserted_in_order(old(self).order_spec(), old(self)@, element, final(self)@),
    {
        let ghost o = self.slots@;
        let ghost n0 = self.nodes@;
        let ghost v0 = self@;
        let ghost order = self.order;
        let slot = self.nodes.len();
        let key = element.sort_key();
        self.nodes.push(SNode { value: Some(element), next: None });
        let mut cursor = match self.head {
            None => {
                self.head = Some(slot);
                self.slots = Ghost(o.insert(0, slot));
                proof {
                    lemma_sinsert(n0, self.nodes@, o, 0, slot, element);
                    assert(inserted_in_order(order, v0, element, self@));
                }
                return ;
            },
            Some(c) => c,
        };
        proof {
            assert(o[0] == cursor);
        }
        if self.sorts_after_key(cursor, key) {
            self.nodes[slot].next = self.head;
            self.head = Some(slot);
            self.slots = Ghost(o.insert(0, slot));
            proof {
                lemma_sinsert(n0, self.nodes@, o, 0, slot, element);
                assert forall|i: int| 0 <= i < v0.len() implies sorts_after(order, #[trigger] v0[i], element) by {
                    if i > 0 {
                        assert(!sorts_after(order, v0[0], v0[i]));
                    }
                }
                self.lemma_sorted_after_insert(v0, 0, element);
                assert(inserted_in_order(order, v0, element, self@));
            }
            return ;
        }
        let ghost mut i: int = 0;
        loop
            invariant
                snodes_wf(n0, o),
                self.nodes@.len() == n0.len() + 1,
                slot == n0.len(),
                self.nodes@[slot as int] == (SNode { value: Some(element), next: None }),
                key == element.spec_key(),
                forall|j: int| 0 <= j < n0.len() ==> #[trigger] self.nodes@[j] == n0[j],
                self.head == Some(o[0]),
                self.order == order,
                self.slots@ == o,
                v0 == sview(n0, o),
                v0 == old(self)@,
                order == old(self).order_spec(),
                n0.len() == old(self).capacity(),
                is_sorted(order, v0),
                0 <= i < o.len(),
                cursor == o[i],
                forall|j: int| 0 <= j <= i ==> !sorts_after(order, #[trigger] v0[j], element),
            decreases o.len() - i,
        {
            let next = self.nodes[cursor].next;
            match next {
                Some(n) => {
                    proof {
                        assert(o[i + 1] == n);
                    }
                    if self.sorts_after_key(n, key) {
                        self.nodes[slot].next = Some(n);
                        self.nodes[cursor].next = Some(slot);
                        let ghost k = i + 1;
                        self.slots = Ghost(o.insert(k, slot));
                        proof {
                            lemma_sinsert(n0, self.nodes@, o, k, slot, element);
                            assert forall|j: int| k <= j < v0.len() implies sorts_after(
                                order,
                                #[trigger] v0[j],
                                element,
                            ) by {
                                if j > k {
                                    assert(!sorts_after(order, v0[k], v0[j]));
                                }
                            }
                            self.lemma_sorted_after_insert(v0, k, element);
                            assert(inserted_in_order(order, v0, element, self@));
                        }
                        return ;
                    } else {
                        cursor = n;
                        proof {
                            i = i + 1;
                        }
                    }
                },
                None => {
                    self.nodes[cursor].next = Some(slot);
                    let ghost k = i + 1;
                    proof {
                        assert(k == o.len());
                    }
                    self.slots = Ghost(o.insert(k, slot));
                    proof {
                        lemma_sinsert(n0, self.nodes@, o, k, slot, element);
                        self.lemma_sorted_after_insert(v0, k, element);
                        assert(inserted_in_order(order, v0, element, self@));
                    }
                    return ;
                },
            }
        }
    }

    proof fn lemma_sorted_after_insert(&self, v0: Seq<T>, k: int, e: T)
        requires
            is_sorted(self.order, v0),
            0 <= k <= v0.len(),
            forall|j: int| 0 <= j < k ==> !sorts_after(self.order, #[trigger] v0[j], e),
            forall|j: int| k <= j < v0.len() ==> sorts_after(self.order, #[trigger] v0[j], e),
        ensures
            is_sorted(self.order, v0.insert(k, e)),
    {
        let v1 = v0.insert(k, e);
        assert forall|a: int, b: int| 0 <= a < b < v1.len() implies !sorts_after(
            self.order,
            #[trigger] v1[a],
            #[trigger] v1[b],
        ) by {
            if a < k && b < k {
            } else if a < k && b == k {
            } else if a < k && b > k {
                assert(v1[b] == v0[b - 1]);
            } else if a == k {
                assert(v1[b] == v0[b - 1]);
            } else {
                assert(v1[a] == v0[a - 1]);
                assert(v1[b] == v0[b - 1]);
            }
        }
    }

    /// Returns an iterator over the elements, from the front.
    pub fn iter(&self) -> (r: SortedListIter<'_, T>)
        requires
            self.wf(),
        ensures
            r.wf(),
            r.remaining() == self@,
    {
        let r = SortedListIter { list: self, node: self.head, pos: Ghost(0) };
        proof {
            assert(r.remaining() =~= self@);
        }
        r
    }
}

/// Iterates over the elements of a [`SortedList`] from the front.
pub struct SortedListIter<'a, T> {
    list: &'a SortedList<T>,
    node: Option<usize>,
    pos: Ghost<int>,
}

impl<'a, T: SortKey> SortedListIter<'a, T> {
    /// The elements not yet yielded.
    pub closed spec fn remaining(&self) -> Seq<T> {
        self.list@.subrange(self.pos@, self.list@.len() as int)
    }

    pub closed spec fn wf(&self) -> bool {
        &&& self.list.wf()
        &&& 0 <= self.pos@ <= self.list@.len()
        &&& self.node == if self.pos@ < self.list@.len() {
            Some(self.list.slots@[self.pos@])
        } else {
            None
        }
    }

    /// Yields the next element.
    pub fn next(&mut self) -> (r: Option<&'a T>)
        requires
            old(self).wf(),
        ensures
            final(self).wf(),
            old(self).remaining().len() == 0 ==> r is None && final(self).remaining() == old(self).remaining(),
            old(self).remaining().len() > 0 ==> r == Some(&old(self).remaining()[0])
                && final(self).remaining() == old(self).remaining().drop_first(),
    {
        match self.node {
            None => None,
            Some(n) => {
                let ghost k = self.pos@;
                proof {
                    assert(self.list.slots@[k] == n);
                }
                self.node = self.list.nodes[n].next;
                self.pos = Ghost(k + 1);
                proof {
                    assert(self.remaining() =~= old(self).remaining().drop_first());
                }
                match &self.list.nodes[n].value {
                    Some(v) => Some(v),
                    None => None,
                }
            },
        }
    }
}

impl<T: SortKey> SortedList<T> {
    /// A well-formed sorted list is sorted under its order.
    pub proof fn law_sorted(&self)
        requires
            self.wf(),
        ensures
            is_sorted(self.order_spec(), self@),
    {
    }
}

/// Inserting into a sorted list keeps it sorted and adds exactly the
/// inserted element.
pub proof fn law_insert_keeps_sorted<T: SortKey>(order: SortOrder, before: Seq<T>, e: T, after: Seq<T>)
    requires
        is_sorted(order, before),
        inserted_in_order(order, before, e, after),
    ensures
        is_sorted(order, after),
        after.to_multiset() == before.to_multiset().insert(e),
{
    let p = choose|p: int|
        0 <= p <= before.len() && after == before.insert(p, e) && (forall|i: int|
            0 <= i < p ==> !sorts_after(order, #[trigger] before[i], e)) && (forall|i: int|
            p <= i < before.len() ==> sorts_after(order, #[trigger] before[i], e));
    assert forall|i: int, j: int| 0 <= i < j < after.len() implies !sorts_after(
        order,
        #[trigger] after[i],
        #[trigger] after[j],
    ) by {
        if i < p && j < p {
            assert(after[i] == before[i] && after[j] == before[j]);
        } else if i < p && j == p {
            assert(after[i] == before[i]);
        } else if i < p {
            assert(after[i] == before[i] && after[j] == before[j - 1]);
        } else if i == p {
            assert(after[j] == before[j - 1]);
            assert(sorts_after(order, before[j - 1], e));
        } else {
            assert(after[i] == before[i - 1] && after[j] == before[j - 1]);
        }
    }
    vstd::seq_lib::to_multiset_insert(before, p, e);
}

/// The front of a non-empty sorted list is its extreme: no element sorts
/// before it, so the first element popped from a `Min` list is its least and
/// from a `Max` list its greatest.
pub proof fn law_front_is_extreme<T: SortKey>(order: SortOrder, s: Seq<T>)
    requires
        is_sorted(order, s),
        s.len() > 0,
    ensures
        forall|i: int| 0 <= i < s.len() ==> !sorts_after(order, s[0], #[trigger] s[i]),
{
    assert forall|i: int| 0 <= i < s.len() implies !sorts_after(order, s[0], #[trigger] s[i]) by {
        if i > 0 {
            assert(!sorts_after(order, s[0], s[i]));
        } else {
            match order {
                SortOrder::Min => {},
                SortOrder::Max => {},
            }
        }
    }
}

} // verus!
