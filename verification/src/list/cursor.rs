use vstd::prelude::*;

use super::List;

verus! {

/// The position after moving forward from `pos` in a list of `len`
/// elements; `None` is the "ghost" position between the tail and the head.
pub open spec fn next_position(pos: Option<int>, len: int) -> Option<int> {
    match pos {
        Some(k) => if k + 1 < len {
            Some(k + 1)
        } else {
            None
        },
        None => if len > 0 {
            Some(0)
        } else {
            None
        },
    }
}

/// The position after moving backward from `pos` in a list of `len`
/// elements.
pub open spec fn prev_position(pos: Option<int>, len: int) -> Option<int> {
    match pos {
        Some(k) => if k > 0 {
            Some(k - 1)
        } else {
            None
        },
        None => if len > 0 {
            Some(len - 1)
        } else {
            None
        },
    }
}

/// `r` is the element of `s` at `pos`, or `None` if `pos` is the ghost
/// position.
pub open spec fn is_element_at<T>(r: Option<&T>, s: Seq<T>, pos: Option<int>) -> bool {
    match pos {
        Some(k) => r == Some(&s[k]),
        None => r is None,
    }
}

/// The index counter after moving forward from `pos`.
pub open spec fn next_index(pos: Option<int>, index: usize) -> int {
    match pos {
        Some(_) => index + 1,
        None => 0,
    }
}

/// The index counter after moving backward from `pos`: one less, or, from
/// the ghost position onto the last element, that element's index.
pub open spec fn prev_index(pos: Option<int>, index: usize, len: int) -> int {
    match pos {
        Some(_) => if index > 0 {
            index - 1
        } else {
            0
        },
        None => if len > 0 {
            len - 1
        } else {
            0
        },
    }
}

/// A cursor over a [`List`] that can move back and forth and read
/// elements.
pub struct Cursor<'list, T> {
    list: &'list List<T>,
    curr: Option<usize>,
    index: usize,
    pos: Ghost<Option<int>>,
}

/// A cursor over a [`List`] that can also change the list at its position.
pub struct CursorMut<'list, T> {
    list: &'list mut List<T>,
    curr: Option<usize>,
    index: usize,
    pos: Ghost<Option<int>>,
}

/// `curr` is the slot at position `pos` of `list`, or `None` at the ghost
/// position.
spec fn cursor_wf<T>(list: List<T>, curr: Option<usize>, pos: Option<int>) -> bool {
    &&& list.wf()
    &&& match pos {
        Some(k) => 0 <= k < list@.len() && curr == Some(list.order()[k]),
        None => curr is None,
    }
}

impl<T> List<T> {
    /// Returns a cursor starting at the first element.
    pub fn cursor_front(&self) -> (r: Cursor<'_, T>)
        requires
            self.wf(),
        ensures
            r.wf(),
            r.list_view() == self@,
            r.position() == (if self@.len() > 0 {
                Some(0int)
            } else {
                None
            }),
            r.index_spec() == 0,
    {
        Cursor {
            list: self,
            curr: self.head,
            index: 0,
            pos: Ghost(
                if self@.len() > 0 {
                    Some(0int)
                } else {
                    None
                },
            ),
        }
    }

    /// Returns a cursor starting at the last element.
    pub fn cursor_back(&self) -> (r: Cursor<'_, T>)
        requires
            self.wf(),
        ensures
            r.wf(),
            r.list_view() == self@,
            r.position() == (if self@.len() > 0 {
                Some(self@.len() - 1)
            } else {
                None
            }),
            r.index_spec() == (if self@.len() > 0 {
                self@.len() - 1
            } else {
                0
            }),
    {
        let index = self.len().saturating_sub(1);
        Cursor {
            list: self,
            curr: self.tail,
            index,
            pos: Ghost(
                if self@.len() > 0 {
                    Some(self@.len() - 1)
                } else {
                    None
                },
            ),
        }
    }

    /// Returns a mutable cursor starting at the first element.
    pub fn cursor_front_mut(&mut self) -> (r: CursorMut<'_, T>)
        requires
            old(self).wf(),
        ensures
            r.wf(),
            r.list_view() == old(self)@,
            r.list_capacity() == old(self).capacity(),
            r.position() == (if old(self)@.len() > 0 {
                Some(0int)
            } else {
                None
            }),
            r.index_spec() == 0,
    {
        let head = self.head;
        let ghost pos = if self@.len() > 0 {
            Some(0int)
        } else {
            None
        };
        CursorMut { list: self, curr: head, index: 0, pos: Ghost(pos) }
    }

    /// Returns a mutable cursor starting at the last element.
    pub fn cursor_back_mut(&mut self) -> (r: CursorMut<'_, T>)
        requires
            old(self).wf(),
        ensures
            r.wf(),
            r.list_view() == old(self)@,
            r.list_capacity() == old(self).capacity(),
            r.position() == (if old(self)@.len() > 0 {
                Some(old(self)@.len() - 1)
            } else {
                None
            }),
            r.index_spec() == (if old(self)@.len() > 0 {
                old(self)@.len() - 1
            } else {
                0
            }),
    {
        let index = self.len().saturating_sub(1);
        let tail = self.tail;
        let ghost pos = if self@.len() > 0 {
            Some(self@.len() - 1)
        } else {
            None
        };
        CursorMut { list: self, curr: tail, index, pos: Ghost(pos) }
    }

    /// The slot after `curr`, or the head at the ghost position.
    fn next_link(&self, curr: Option<usize>, Ghost(pos): Ghost<Option<int>>) -> (r: Option<
        usize,
    >)
        requires
            cursor_wf(*self, curr, pos),
        ensures
            match next_position(pos, self@.len() as int) {
                Some(k) => r == Some(self.order()[k]),
                None => r is None,
            },
    {
        match curr {
            Some(c) => {
                let ghost k = pos->0;
                proof {
                    assert(self.order()[k] == c);
                }
                self.nodes[c].links.next
            },
            None => self.head,
        }
    }

    /// The slot before `curr`, or the tail at the ghost position.
    fn prev_link(&self, curr: Option<usize>, Ghost(pos): Ghost<Option<int>>) -> (r: Option<
        usize,
    >)
        requires
            cursor_wf(*self, curr, pos),
        ensures
            match prev_position(pos, self@.len() as int) {
                Some(k) => r == Some(self.order()[k]),
                None => r is None,
            },
    {
        match curr {
            Some(c) => {
                let ghost k = pos->0;
                proof {
                    assert(self.order()[k] == c);
                }
                self.nodes[c].links.prev
            },
            None => self.tail,
        }
    }

    /// A mutable reference to the element held in `slot`, if there is one.
    fn element_mut(&mut self, slot: Option<usize>, Ghost(pos): Ghost<Option<int>>) -> (r: Option<&mut T>)
        requires
            cursor_wf(*old(self), slot, pos),
        ensures
            final(self).order() == old(self).order(),
            pos is None ==> r is None && *final(self) == *old(self),
            pos matches Some(k) ==> {
                &&& r is Some
                &&& *r->0 == old(self)@[k]
                &&& final(self).wf()
                &&& final(self)@ == old(self)@.update(k, *final(r->0))
            },
    {
        match slot {
            Some(s) => {
                let ghost k = pos->0;
                Some(self.get_mut(s, Ghost(k)))
            },
            None => None,
        }
    }

    /// The element held in `slot`, if there is one.
    fn element(&self, slot: Option<usize>, Ghost(pos): Ghost<Option<int>>) -> (r: Option<&T>)
        requires
            cursor_wf(*self, slot, pos),
        ensures
            is_element_at(r, self@, pos),
    {
        match slot {
            Some(s) => {
                let ghost k = pos->0;
                proof {
                    assert(self.order()[k] == s);
                    assert(self.order().contains(s));
                }
                Some(self.get(s))
            },
            None => None,
        }
    }
}

impl<'list, T> Cursor<'list, T> {
    /// The elements of the list the cursor is over.
    pub closed spec fn list_view(&self) -> Seq<T> {
        self.list@
    }

    /// The position of the cursor: `None` is the ghost position between the
    /// tail and the head.
    pub closed spec fn position(&self) -> Option<int> {
        self.pos@
    }

    /// The cursor's index counter.
    pub closed spec fn index_spec(&self) -> usize {
        self.index
    }

    pub closed spec fn wf(&self) -> bool {
        cursor_wf(*self.list, self.curr, self.pos@)
    }

    /// Returns the index of the current element, or `None` at the ghost
    /// position.
    pub fn index(&self) -> (r: Option<usize>)
        requires
            self.wf(),
        ensures
            r == (if self.position() is Some {
                Some(self.index_spec())
            } else {
                None
            }),
    {
        match self.curr {
            Some(_) => Some(self.index),
            None => None,
        }
    }

    /// Moves the cursor to the next element, or from the ghost position to
    /// the head.
    pub fn move_next(&mut self)
        requires
            old(self).wf(),
            old(self).position() is Some ==> old(self).index_spec() < usize::MAX,
        ensures
            final(self).wf(),
            final(self).list_view() == old(self).list_view(),
            final(self).position() == next_position(
                old(self).position(),
                old(self).list_view().len() as int,
            ),
            final(self).index_spec() == next_index(old(self).position(), old(self).index_spec()),
    {
        let next = self.list.next_link(self.curr, self.pos);
        self.index = match self.curr {
            Some(_) => self.index + 1,
            None => 0,
        };
        self.curr = next;
        self.pos = Ghost(next_position(self.pos@, self.list@.len() as int));
    }

    /// Moves the cursor to the previous element, or from the ghost position
    /// to the tail.
    pub fn move_prev(&mut self)
        requires
            old(self).wf(),
        ensures
            final(self).wf(),
            final(self).list_view() == old(self).list_view(),
            final(self).position() == prev_position(
                old(self).position(),
                old(self).list_view().len() as int,
            ),
            final(self).index_spec() == prev_index(
                old(self).position(),
                old(self).index_spec(),
                old(self).list_view().len() as int,
            ),
    {
        let prev = self.list.prev_link(self.curr, self.pos);
        self.index = match self.curr {
            Some(_) => self.index.saturating_sub(1),
            None => self.list.len().saturating_sub(1),
        };
        self.curr = prev;
        self.pos = Ghost(prev_position(self.pos@, self.list@.len() as int));
    }

    /// Returns the current element and moves to the next one; at the ghost
    /// position, returns `None` and stays there.
    pub fn next(&mut self) -> (r: Option<&'list T>)
        requires
            old(self).wf(),
            old(self).position() is Some ==> old(self).index_spec() < usize::MAX,
        ensures
            final(self).wf(),
            final(self).list_view() == old(self).list_view(),
            is_element_at(r, old(self).list_view(), old(self).position()),
            old(self).position() is Some ==> {
                &&& final(self).position() == next_position(
                    old(self).position(),
                    old(self).list_view().len() as int,
                )
                &&& final(self).index_spec() == old(self).index_spec() + 1
            },
            old(self).position() is None ==> final(self).position() is None
                && final(self).index_spec() == old(self).index_spec(),
    {
        if self.curr.is_none() {
            return None;
        }
        let r = self.current();
        self.move_next();
        r
    }

    /// Returns the current element, or `None` at the ghost position.
    pub fn current(&self) -> (r: Option<&'list T>)
        requires
            self.wf(),
        ensures
            is_element_at(r, self.list_view(), self.position()),
    {
        self.list.element(self.curr, self.pos)
    }

    /// Returns the element after the current one.
    pub fn peek_next(&self) -> (r: Option<&'list T>)
        requires
            self.wf(),
        ensures
            is_element_at(r, 
                self.list_view(),
                next_position(self.position(), self.list_view().len() as int),
            ),
    {
        let next = self.list.next_link(self.curr, self.pos);
        self.list.element(next, Ghost(next_position(self.pos@, self.list@.len() as int)))
    }

    /// Returns the element before the current one.
    pub fn peek_prev(&self) -> (r: Option<&'list T>)
        requires
            self.wf(),
        ensures
            is_element_at(r, 
                self.list_view(),
                prev_position(self.position(), self.list_view().len() as int),
            ),
    {
        let prev = self.list.prev_link(self.curr, self.pos);
        self.list.element(prev, Ghost(prev_position(self.pos@, self.list@.len() as int)))
    }

    /// Returns the length of the list.
    pub fn len(&self) -> (r: usize)
        requires
            self.wf(),
        ensures
            r == self.list_view().len(),
    {
        self.list.len()
    }

    /// Returns `true` if the list is empty.
    pub fn is_empty(&self) -> (r: bool)
        requires
            self.wf(),
        ensures
            r == (self.list_view().len() == 0),
    {
        self.list.is_empty()
    }
}

impl<'list, T> CursorMut<'list, T> {
    /// The elements of the list the cursor is over.
    pub closed spec fn list_view(&self) -> Seq<T> {
        self.list@
    }

    /// The number of node slots of the list the cursor is over.
    pub closed spec fn list_capacity(&self) -> nat {
        self.list.capacity()
    }

    /// The position of the cursor: `None` is the ghost position between the
    /// tail and the head.
    pub closed spec fn position(&self) -> Option<int> {
        self.pos@
    }

    /// The cursor's index counter.
    pub closed spec fn index_spec(&self) -> usize {
        self.index
    }

    pub closed spec fn wf(&self) -> bool {
        cursor_wf(*self.list, self.curr, self.pos@)
    }

    /// Returns the index of the current element, or `None` at the ghost
    /// position.
    pub fn index(&self) -> (r: Option<usize>)
        requires
            self.wf(),
        ensures
            r == (if self.position() is Some {
                Some(self.index_spec())
            } else {
                None
            }),
    {
        match self.curr {
            Some(_) => Some(self.index),
            None => None,
        }
    }

    /// Moves the cursor to the next element, or from the ghost position to
    /// the head.
    pub fn move_next(&mut self)
        requires
            old(self).wf(),
            old(self).position() is Some ==> old(self).index_spec() < usize::MAX,
        ensures
            final(self).wf(),
            final(self).list_view() == old(self).list_view(),
            final(self).list_capacity() == old(self).list_capacity(),
            final(self).position() == next_position(
                old(self).position(),
                old(self).list_view().len() as int,
            ),
            final(self).index_spec() == next_index(old(self).position(), old(self).index_spec()),
    {
        let next = self.list.next_link(self.curr, self.pos);
        self.index = match self.curr {
            Some(_) => self.index + 1,
            None => 0,
        };
        self.curr = next;
        self.pos = Ghost(next_position(self.pos@, self.list@.len() as int));
    }

    /// Moves the cursor to the previous element, or from the ghost position
    /// to the tail.
    pub fn move_prev(&mut self)
        requires
            old(self).wf(),
        ensures
            final(self).wf(),
            final(self).list_view() == old(self).list_view(),
            final(self).list_capacity() == old(self).list_capacity(),
            final(self).position() == prev_position(
                old(self).position(),
                old(self).list_view().len() as int,
            ),
            final(self).index_spec() == prev_index(
                old(self).position(),
                old(self).index_spec(),
                old(self).list_view().len() as int,
            ),
    {
        let prev = self.list.prev_link(self.curr, self.pos);
        self.index = match self.curr {
            Some(_) => self.index.saturating_sub(1),
            None => self.list.len().saturating_sub(1),
        };
        self.curr = prev;
        self.pos = Ghost(prev_position(self.pos@, self.list@.len() as int));
    }

    /// Returns the current element, or `None` at the ghost position.
    pub fn current(&self) -> (r: Option<&T>)
        requires
            self.wf(),
        ensures
            is_element_at(r, self.list_view(), self.position()),
    {
        self.list.element(self.curr, self.pos)
    }

    /// Returns the element after the current one.
    pub fn peek_next(&self) -> (r: Option<&T>)
        requires
            self.wf(),
        ensures
            is_element_at(r, 
                self.list_view(),
                next_position(self.position(), self.list_view().len() as int),
            ),
    {
        let next = self.list.next_link(self.curr, self.pos);
        self.list.element(next, Ghost(next_position(self.pos@, self.list@.len() as int)))
    }

    /// Returns the element before the current one.
    pub fn peek_prev(&self) -> (r: Option<&T>)
        requires
            self.wf(),
        ensures
            is_element_at(r, 
                self.list_view(),
                prev_position(self.position(), self.list_view().len() as int),
            ),
    {
        let prev = self.list.prev_link(self.curr, self.pos);
        self.list.element(prev, Ghost(prev_position(self.pos@, self.list@.len() as int)))
    }

    /// Returns the length of the list.
    pub fn len(&self) -> (r: usize)
        requires
            self.wf(),
        ensures
            r == self.list_view().len(),
    {
        self.list.len()
    }

    /// Returns `true` if the list is empty.
    pub fn is_empty(&self) -> (r: bool)
        requires
            self.wf(),
        ensures
            r == (self.list_view().len() == 0),
    {
        self.list.is_empty()
    }

    /// Returns a mutable reference to the current element, or `None` at
    /// the ghost position.
    pub fn current_mut(&mut self) -> (r: Option<&mut T>)
        requires
            old(self).wf(),
        ensures
            final(self).position() == old(self).position(),
            final(self).index_spec() == old(self).index_spec(),
            old(self).position() is None ==> r is None && final(self).list_view() == old(
                self,
            ).list_view() && final(self).wf(),
            old(self).position() matches Some(k) ==> {
                &&& r is Some
                &&& *r->0 == old(self).list_view()[k]
                &&& final(self).wf()
                &&& final(self).list_view() == old(self).list_view().update(k, *final(r->0))
            },
    {
        let pos = self.pos;
        self.list.element_mut(self.curr, pos)
    }

    /// Returns a mutable reference to the element after the current one.
    pub fn peek_next_mut(&mut self) -> (r: Option<&mut T>)
        requires
            old(self).wf(),
        ensures
            final(self).position() == old(self).position(),
            final(self).index_spec() == old(self).index_spec(),
            ({
                let next = next_position(old(self).position(), old(self).list_view().len() as int);
                &&& next is None ==> r is None && final(self).list_view() == old(
                    self,
                ).list_view() && final(self).wf()
                &&& next matches Some(k) ==> {
                    &&& r is Some
                    &&& *r->0 == old(self).list_view()[k]
                    &&& final(self).wf()
                    &&& final(self).list_view() == old(self).list_view().update(k, *final(r->0))
                }
            }),
    {
        let next = self.list.next_link(self.curr, self.pos);
        let ghost pos = next_position(self.pos@, self.list@.len() as int);
        self.list.element_mut(next, Ghost(pos))
    }

    /// Returns a mutable reference to the element before the current one.
    pub fn peek_prev_mut(&mut self) -> (r: Option<&mut T>)
        requires
            old(self).wf(),
        ensures
            final(self).position() == old(self).position(),
            final(self).index_spec() == old(self).index_spec(),
            ({
                let prev = prev_position(old(self).position(), old(self).list_view().len() as int);
                &&& prev is None ==> r is None && final(self).list_view() == old(
                    self,
                ).list_view() && final(self).wf()
                &&& prev matches Some(k) ==> {
                    &&& r is Some
                    &&& *r->0 == old(self).list_view()[k]
                    &&& final(self).wf()
                    &&& final(self).list_view() == old(self).list_view().update(k, *final(r->0))
                }
            }),
    {
        let prev = self.list.prev_link(self.curr, self.pos);
        let ghost pos = prev_position(self.pos@, self.list@.len() as int);
        self.list.element_mut(prev, Ghost(pos))
    }

    /// Returns a read-only cursor at the same position.
    pub fn as_cursor(&self) -> (r: Cursor<'_, T>)
        requires
            self.wf(),
        ensures
            r.wf(),
            r.list_view() == self.list_view(),
            r.position() == self.position(),
            r.index_spec() == self.index_spec(),
    {
        Cursor { list: &*self.list, curr: self.curr, index: self.index, pos: self.pos }
    }

    /// Removes the current element and returns it; the cursor moves to the
    /// element that followed it (or to the ghost position if it was the
    /// tail). Returns `None` at the ghost position.
    pub fn remove_current(&mut self) -> (r: Option<T>)
        requires
            old(self).wf(),
        ensures
            final(self).wf(),
            final(self).index_spec() == old(self).index_spec(),
            final(self).list_capacity() == old(self).list_capacity(),
            old(self).position() is None ==> r is None && final(self).list_view() == old(
                self).list_view() && final(self).position() is None,
            old(self).position() matches Some(k) ==> r == Some(old(self).list_view()[k])
                && final(self).list_view() == old(self).list_view().remove(k) && final(
                self).position() == (if k + 1 < old(self).list_view().len() {
                Some(k)
            } else {
                None
            }),
    {
        match self.curr {
            None => None,
            Some(node) => {
                let ghost k = self.pos@->0;
                let next = self.list.next_link(self.curr, self.pos);
                let v = self.list.unlink_at(Ghost(k), node);
                self.curr = next;
                proof {
                    if k + 1 < old(self).list_view().len() {
                        assert(old(self).list.order()[k + 1] == self.list.order()[k]);
                    }
                }
                self.pos = Ghost(
                    if k + 1 < old(self).list_view().len() {
                        Some(k)
                    } else {
                        None
                    },
                );
                Some(v)
            },
        }
    }

    /// Inserts `element` after the current element; at the ghost position,
    /// inserts it at the head and sets the index counter to the new length.
    pub fn insert_after(&mut self, element: T)
        requires
            old(self).wf(),
        ensures
            final(self).wf(),
            final(self).position() == old(self).position(),
            final(self).list_capacity() <= old(self).list_capacity() + 1,
            old(self).position() matches Some(k) ==> final(self).list_view() == old(
                self).list_view().insert(k + 1, element) && final(self).index_spec() == old(
                self).index_spec(),
            old(self).position() is None ==> final(self).list_view() == old(
                self).list_view().insert(0, element) && final(self).index_spec() == final(
                self).list_view().len(),
    {
        let next = self.list.next_link(self.curr, self.pos);
        let ghost k = match self.pos@ {
            Some(k) => k + 1,
            None => 0,
        };
        let ghost o = self.list.order();
        let curr = self.curr;
        self.list.insert_between(Ghost(k), curr, next, element);
        proof {
            if let Some(j) = self.pos@ {
                assert(self.list.order()[j] == o[j]);
            }
        }
        if self.curr.is_none() {
            self.index = self.list.len();
        }
    }

    /// Inserts `element` before the current element; at the ghost position,
    /// inserts it at the tail. The index counter is incremented.
    pub fn insert_before(&mut self, element: T)
        requires
            old(self).wf(),
            old(self).index_spec() < usize::MAX,
        ensures
            final(self).wf(),
            final(self).list_capacity() <= old(self).list_capacity() + 1,
            final(self).index_spec() == old(self).index_spec() + 1,
            old(self).position() matches Some(k) ==> final(self).list_view() == old(
                self).list_view().insert(k, element) && final(self).position() == Some(k + 1),
            old(self).position() is None ==> final(self).list_view() == old(
                self).list_view().push(element) && final(self).position() is None,
    {
        let prev = self.list.prev_link(self.curr, self.pos);
        let ghost len = self.list@.len();
        let ghost k = match self.pos@ {
            Some(k) => k,
            None => len as int,
        };
        let ghost o = self.list.order();
        let curr = self.curr;
        self.list.insert_between(Ghost(k), prev, curr, element);
        proof {
            if let Some(j) = self.pos@ {
                assert(self.list.order()[j + 1] == o[j]);
            }
            if self.pos@ is None {
                assert(old(self).list_view().insert(len as int, element) =~= old(
                    self).list_view().push(element));
            }
        }
        self.pos = Ghost(
            match self.pos@ {
                Some(j) => Some(j + 1),
                None => None,
            },
        );
        self.index = self.index + 1;
    }
}

impl<'list, T> CursorMut<'list, T> {
    /// Splits the list after the current element: the returned list holds
    /// everything after the cursor and the cursor's list keeps everything up
    /// to and including it. At the ghost position the whole list is moved
    /// out, and an index counter equal to the length is reset to zero.
    pub fn split_after(&mut self) -> (r: List<T>)
        requires
            old(self).wf(),
            old(self).position() matches Some(k) ==> old(self).index_spec() == k,
        ensures
            final(self).wf(),
            r.wf(),
            final(self).position() == old(self).position(),
            old(self).position() matches Some(k) ==> {
                &&& final(self).list_view() == old(self).list_view().subrange(0, k + 1)
                &&& r@ == old(self).list_view().subrange(k + 1, old(self).list_view().len() as int)
                &&& final(self).index_spec() == old(self).index_spec()
            },
            old(self).position() is None ==> {
                &&& final(self).list_view() == Seq::<T>::empty()
                &&& r@ == old(self).list_view()
                &&& final(self).index_spec() == (if old(self).index_spec() == old(
                    self,
                ).list_view().len() {
                    0
                } else {
                    old(self).index_spec()
                })
            },
    {
        match self.curr {
            None => {
                if self.index == self.list.len() {
                    self.index = 0;
                }
                let mut whole = List::new();
                std::mem::swap(&mut whole, &mut *self.list);
                whole
            },
            Some(_) => {
                let ghost k = self.pos@->0;
                let ghost o = self.list.order();
                let split = self.list.split_off(self.index + 1);
                proof {
                    assert(self.list.order()[k] == o[k]);
                }
                split
            },
        }
    }

    /// Splits the list before the current element: the returned list holds
    /// everything before the cursor and the cursor's list keeps the current
    /// element and everything after it, so the cursor ends up at its head
    /// with index zero. At the ghost position the whole list is moved out.
    pub fn split_before(&mut self) -> (r: List<T>)
        requires
            old(self).wf(),
            old(self).position() matches Some(k) ==> old(self).index_spec() == k,
        ensures
            final(self).wf(),
            r.wf(),
            final(self).index_spec() == 0,
            old(self).position() matches Some(k) ==> {
                &&& final(self).list_view() == old(self).list_view().subrange(
                    k,
                    old(self).list_view().len() as int,
                )
                &&& r@ == old(self).list_view().subrange(0, k)
                &&& final(self).position() == Some(0int)
            },
            old(self).position() is None ==> {
                &&& final(self).list_view() == Seq::<T>::empty()
                &&& r@ == old(self).list_view()
                &&& final(self).position() is None
            },
    {
        match self.curr {
            None => {
                self.index = 0;
                let mut whole = List::new();
                std::mem::swap(&mut whole, &mut *self.list);
                whole
            },
            Some(_) => {
                let ghost k = self.pos@->0;
                let ghost o = self.list.order();
                let split = self.list.take_front(self.index);
                proof {
                    assert(self.list.order()[0] == o[k]);
                }
                self.index = 0;
                self.pos = Ghost(Some(0int));
                split
            },
        }
    }

    /// Inserts all elements of `spliced` after the current element; at the
    /// ghost position they go to the head of the list and, if there were
    /// any, the index counter is set to the new length.
    pub fn splice_after(&mut self, spliced: List<T>)
        requires
            old(self).wf(),
            spliced.wf(),
        ensures
            final(self).wf(),
            final(self).position() == old(self).position(),
            old(self).position() matches Some(k) ==> {
                &&& final(self).list_view() == old(self).list_view().subrange(0, k + 1) + spliced@
                    + old(self).list_view().subrange(k + 1, old(self).list_view().len() as int)
                &&& final(self).index_spec() == old(self).index_spec()
            },
            old(self).position() is None ==> {
                &&& final(self).list_view() == spliced@ + old(self).list_view()
                &&& final(self).index_spec() == (if spliced@.len() == 0 {
                    old(self).index_spec()
                } else {
                    final(self).list_view().len() as usize
                })
            },
    {
        let ghost l0 = self.list@;
        let ghost o0 = self.list.order();
        let ghost p: int = match self.pos@ {
            Some(k) => k + 1,
            None => 0,
        };
        let n = spliced.len();
        let curr = self.curr;
        self.list.insert_nodes_between(Ghost(p), curr, spliced);
        proof {
            if let Some(k) = self.pos@ {
                assert(self.list.order()[k] == o0[k]);
            } else {
                assert(l0.subrange(0, 0) =~= Seq::<T>::empty());
                assert(l0.subrange(0, l0.len() as int) =~= l0);
                assert(Seq::<T>::empty() + spliced@ =~= spliced@);
            }
        }
        if self.curr.is_none() && n > 0 {
            self.index = self.list.len();
        }
    }

    /// Inserts all elements of `spliced` before the current element; at the
    /// ghost position they go to the tail of the list. The index counter
    /// grows by the number of elements inserted.
    pub fn splice_before(&mut self, spliced: List<T>)
        requires
            old(self).wf(),
            spliced.wf(),
            old(self).index_spec() + spliced@.len() <= usize::MAX,
        ensures
            final(self).wf(),
            final(self).index_spec() == old(self).index_spec() + spliced@.len(),
            old(self).position() matches Some(k) ==> {
                &&& final(self).list_view() == old(self).list_view().subrange(0, k) + spliced@
                    + old(self).list_view().subrange(k, old(self).list_view().len() as int)
                &&& final(self).position() == Some(k + spliced@.len())
            },
            old(self).position() is None ==> {
                &&& final(self).list_view() == old(self).list_view() + spliced@
                &&& final(self).position() is None
            },
    {
        let ghost l0 = self.list@;
        let ghost o0 = self.list.order();
        let ghost len = l0.len() as int;
        let ghost p: int = match self.pos@ {
            Some(k) => k,
            None => len,
        };
        let n = spliced.len();
        let prev = self.list.prev_link(self.curr, self.pos);
        proof {
            if self.pos@ is None && len > 0 {
                assert(prev == Some(o0[len - 1]));
            }
        }
        self.list.insert_nodes_between(Ghost(p), prev, spliced);
        proof {
            if let Some(k) = self.pos@ {
                assert(self.list.order()[k + n] == o0[k]);
            } else {
                assert(l0.subrange(len, len) =~= Seq::<T>::empty());
                assert(l0.subrange(0, len) =~= l0);
                assert(l0 + spliced@ + Seq::<T>::empty() =~= l0 + spliced@);
            }
        }
        self.pos = Ghost(
            match self.pos@ {
                Some(k) => Some(k + n),
                None => None,
            },
        );
        self.index = self.index + n;
    }
}

impl<'list, T> CursorMut<'list, T> {
    /// Walks from the current element toward the tail and removes the first
    /// element for which `predicate` returns `true`, leaving the cursor
    /// where that element was. If no element matches, the cursor ends at
    /// the ghost position and nothing is removed; at the ghost position
    /// nothing is looked at.
    pub fn remove_first<F: Fn(&T) -> bool>(&mut self, predicate: F) -> (r: Option<T>)
        requires
            old(self).wf(),
            forall|x: &T| #[trigger] predicate.requires((x,)),
            old(self).position() matches Some(k) ==> old(self).index_spec() + (old(
                self,
            ).list_view().len() - k) <= usize::MAX,
        ensures
            final(self).wf(),
            old(self).position() is None ==> {
                &&& r is None
                &&& final(self).list_view() == old(self).list_view()
                &&& final(self).position() is None
                &&& final(self).index_spec() == old(self).index_spec()
            },
            old(self).position() matches Some(k) ==> match r {
                Some(v) => exists|j: int|
                    removed_first_match(
                        predicate,
                        old(self).list_view(),
                        k,
                        j,
                        v,
                        final(self).list_view(),
                        final(self).position(),
                    ) && final(self).index_spec() == old(self).index_spec() + (j - k),
                None => {
                    &&& rejected_from(
                        predicate,
                        old(self).list_view(),
                        k,
                        old(self).list_view().len() as int,
                    )
                    &&& final(self).list_view() == old(self).list_view()
                    &&& final(self).position() is None
                    &&& final(self).index_spec() == old(self).index_spec() + (old(
                        self,
                    ).list_view().len() - k)
                },
            },
    {
        self.remove_first_from(&predicate)
    }

    /// Does the work of [`CursorMut::remove_first`], one element per call.
    fn remove_first_from<F: Fn(&T) -> bool>(&mut self, predicate: &F) -> (r: Option<T>)
        requires
            old(self).wf(),
            forall|x: &T| #[trigger] (*predicate).requires((x,)),
            old(self).position() matches Some(k) ==> old(self).index_spec() + (old(
                self,
            ).list_view().len() - k) <= usize::MAX,
        ensures
            final(self).wf(),
            old(self).position() is None ==> {
                &&& r is None
                &&& final(self).list_view() == old(self).list_view()
                &&& final(self).position() is None
                &&& final(self).index_spec() == old(self).index_spec()
            },
            old(self).position() matches Some(k) ==> match r {
                Some(v) => exists|j: int|
                    removed_first_match(
                        *predicate,
                        old(self).list_view(),
                        k,
                        j,
                        v,
                        final(self).list_view(),
                        final(self).position(),
                    ) && final(self).index_spec() == old(self).index_spec() + (j - k),
                None => {
                    &&& rejected_from(
                        *predicate,
                        old(self).list_view(),
                        k,
                        old(self).list_view().len() as int,
                    )
                    &&& final(self).list_view() == old(self).list_view()
                    &&& final(self).position() is None
                    &&& final(self).index_spec() == old(self).index_spec() + (old(
                        self,
                    ).list_view().len() - k)
                },
            },
        decreases
            match old(self).position() {
                Some(k) => old(self).list_view().len() - k + 1,
                None => 0,
            },
    {
        let ghost pos = self.pos@;
        let ghost i0 = self.index as int;
        let matched = match self.current() {
            None => {
                return None;
            },
            Some(e) => predicate(e),
        };
        if matched {
            let r = self.remove_current();
            proof {
                let k = pos->0;
                assert(removed_first_match(
                    *predicate,
                    old(self).list_view(),
                    k,
                    k,
                    r->0,
                    self.list_view(),
                    self.position(),
                ));
            }
            return r;
        }
        self.move_next();
        let r = self.remove_first_from(predicate);
        proof {
            let k = pos->0;
            let l0 = old(self).list_view();
            if r is Some {
                let v = r->0;
                let j = choose|j: int|
                    #[trigger] removed_first_match(
                        *predicate,
                        l0,
                        k + 1,
                        j,
                        v,
                        self.list_view(),
                        self.position(),
                    ) && self.index_spec() == i0 + 1 + (j - (k + 1));
                assert(removed_first_match(
                    *predicate,
                    l0,
                    k,
                    j,
                    v,
                    self.list_view(),
                    self.position(),
                ));
            } else {
                assert(rejected_from(*predicate, l0, k, l0.len() as int)) by {
                    assert forall|i: int| k <= i < l0.len() implies #[trigger] (
                    *predicate).ensures((&l0[i],), false) by {
                        if i > k {
                            assert(rejected_from(*predicate, l0, k + 1, l0.len() as int));
                        }
                    }
                }
            }
        }
        r
    }
}

/// `predicate` may have answered `false` for each element of `s` from `lo`
/// up to `hi`.
pub open spec fn rejected_from<T, F: Fn(&T) -> bool>(predicate: F, s: Seq<T>, lo: int, hi: int) -> bool {
    forall|i: int| lo <= i < hi ==> #[trigger] predicate.ensures((&s[i],), false)
}

/// `after` is `before` with its element at `j` (which is `v`) removed, where
/// `j` is the first position from `k` on for which `predicate` answered
/// `true`, and `pos` is the position of the element that followed it.
pub open spec fn removed_first_match<T, F: Fn(&T) -> bool>(
    predicate: F,
    before: Seq<T>,
    k: int,
    j: int,
    v: T,
    after: Seq<T>,
    pos: Option<int>,
) -> bool {
    &&& k <= j < before.len()
    &&& v == before[j]
    &&& predicate.ensures((&before[j],), true)
    &&& rejected_from(predicate, before, k, j)
    &&& after == before.remove(j)
    &&& pos == if j + 1 < before.len() {
        Some(j)
    } else {
        None
    }
}

/// An iterator that removes from a [`List`] and yields each element for
/// which a predicate returns `true`, keeping the others in the list.
pub struct DrainFilter<'list, T, F> {
    cursor: CursorMut<'list, T>,
    pred: F,
}

impl<T> List<T> {
    /// Returns an iterator that walks the list from the head, removing and
    /// yielding the elements for which `pred` returns `true`.
    pub fn drain_filter<F: Fn(&T) -> bool>(&mut self, pred: F) -> (r: DrainFilter<'_, T, F>)
        requires
            old(self).wf(),
            forall|x: &T| #[trigger] pred.requires((x,)),
        ensures
            r.wf(),
            r.list_view() == old(self)@,
            r.checked() == 0,
            r.predicate() == pred,
    {
        let cursor = self.cursor_front_mut();
        DrainFilter { cursor, pred }
    }
}

impl<'list, T, F: Fn(&T) -> bool> DrainFilter<'list, T, F> {
    /// The elements still in the list.
    pub closed spec fn list_view(&self) -> Seq<T> {
        self.cursor.list_view()
    }

    /// How many elements at the front of the list the predicate has already
    /// passed over and kept.
    pub closed spec fn checked(&self) -> int {
        match self.cursor.position() {
            Some(k) => k,
            None => self.cursor.list_view().len() as int,
        }
    }

    /// The predicate that picks the elements to remove.
    pub closed spec fn predicate(&self) -> F {
        self.pred
    }

    pub closed spec fn wf(&self) -> bool {
        &&& self.cursor.wf()
        &&& forall|x: &T| #[trigger] self.pred.requires((x,))
        &&& self.cursor.index_spec() == self.checked()
    }

    /// Removes and returns the next element, past those already kept, for
    /// which the predicate returns `true`; returns `None` once the predicate
    /// has turned down every remaining element.
    pub fn next(&mut self) -> (r: Option<T>)
        requires
            old(self).wf(),
        ensures
            final(self).wf(),
            final(self).predicate() == old(self).predicate(),
            match r {
                Some(v) => {
                    &&& old(self).checked() <= final(self).checked() < old(self).list_view().len()
                    &&& v == old(self).list_view()[final(self).checked()]
                    &&& old(self).predicate().ensures(
                        (&old(self).list_view()[final(self).checked()],),
                        true,
                    )
                    &&& rejected_from(
                        old(self).predicate(),
                        old(self).list_view(),
                        old(self).checked(),
                        final(self).checked(),
                    )
                    &&& final(self).list_view() == old(self).list_view().remove(
                        final(self).checked(),
                    )
                },
                None => {
                    &&& rejected_from(
                        old(self).predicate(),
                        old(self).list_view(),
                        old(self).checked(),
                        old(self).list_view().len() as int,
                    )
                    &&& final(self).list_view() == old(self).list_view()
                    &&& final(self).checked() == final(self).list_view().len()
                },
            },
    {
        proof {
            assert(self.cursor.list.wf());
        }
        let r = self.cursor.remove_first_from(&self.pred);
        proof {
            if let Some(k) = old(self).cursor.position() {
                if r is Some {
                    let v = r->0;
                    let j = choose|j: int|
                        #[trigger] removed_first_match(
                            self.pred,
                            old(self).list_view(),
                            k,
                            j,
                            v,
                            self.cursor.list_view(),
                            self.cursor.position(),
                        ) && self.cursor.index_spec() == old(self).cursor.index_spec() + (j - k);
                    assert(self.checked() == j);
                }
            }
        }
        r
    }
}

/// A cursor's moves undo each other: moving back and then forward, or
/// forward and then back, returns it to where it was, the ghost position
/// included, since the list is walked as a ring through the ghost position.
pub proof fn law_moves_undo(pos: Option<int>, len: int)
    requires
        0 <= len,
        pos matches Some(k) ==> 0 <= k < len,
    ensures
        next_position(prev_position(pos, len), len) == pos,
        prev_position(next_position(pos, len), len) == pos,
{
}

/// Moving forward from the ghost position `len + 1` times, in a list of
/// `len` elements, visits every element in order and comes back to the
/// ghost position.
pub proof fn law_walk_visits_all(len: int, steps: nat)
    requires
        0 <= len,
        steps <= len + 1,
    ensures
        walk_position(len, steps) == if steps == 0 || steps == len + 1 {
            None::<int>
        } else {
            Some(steps - 1)
        },
    decreases steps,
{
    if steps > 0 {
        law_walk_visits_all(len, (steps - 1) as nat);
    }
}

/// The position after moving forward `steps` times from the ghost position
/// of a list of `len` elements.
pub open spec fn walk_position(len: int, steps: nat) -> Option<int>
    decreases steps,
{
    if steps == 0 {
        None
    } else {
        next_position(walk_position(len, (steps - 1) as nat), len)
    }
}

} // verus!
