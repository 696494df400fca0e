use mycelium::list::{Iter, List};

fn list_from(vals: &[i32]) -> List<i32> {
    let mut list = List::new();
    for v in vals {
        list.push_back(*v);
    }
    list
}

fn collect(iter: &mut Iter<'_, i32>) -> Vec<i32> {
    let mut out = Vec::new();
    while let Some(v) = iter.next() {
        out.push(*v);
    }
    out
}

fn collect_back(iter: &mut Iter<'_, i32>) -> Vec<i32> {
    let mut out = Vec::new();
    while let Some(v) = iter.next_back() {
        out.push(*v);
    }
    out
}

fn drain_list(list: &mut List<i32>) -> Vec<i32> {
    let mut ret = Vec::new();
    while let Some(v) = list.pop_back() {
        ret.push(v);
    }
    ret
}

#[test]
fn const_new() {
    let list: List<i32> = List::new();
    assert!(list.is_empty());
}

#[test]
fn push_and_drain() {
    let mut list = List::new();
    assert!(list.is_empty());

    list.push_front(5);
    assert!(!list.is_empty());
    list.assert_valid();
    list.push_front(7);
    list.assert_valid();
    list.push_front(31);
    list.assert_valid();

    let items: Vec<i32> = drain_list(&mut list);
    assert_eq!([5, 7, 31].to_vec(), items);

    list.assert_valid();
    assert!(list.is_empty());
}

#[test]
fn tests_pop_front() {
    let mut list = List::new();
    list.push_front(5);
    list.assert_valid();
    list.push_front(7);
    list.assert_valid();
    list.push_front(9);
    list.assert_valid();

    assert_eq!(list.pop_front(), Some(9));
    assert_eq!(list.pop_front(), Some(7));
    assert_eq!(list.pop_front(), Some(5));

    assert!(list.is_empty());
    assert!(list.pop_front().is_none());
    list.assert_valid();
}

#[test]
fn push_back() {
    let mut list = List::new();
    list.push_back(5);
    list.assert_valid();
    list.push_back(7);
    list.assert_valid();
    list.push_back(9);
    list.assert_valid();

    assert_eq!(list.pop_back(), Some(9));
    assert_eq!(list.pop_back(), Some(7));
    assert_eq!(list.pop_back(), Some(5));

    assert!(list.is_empty());
    assert!(list.pop_back().is_none());
    list.assert_valid();
}

#[test]
fn push_pop_push_pop() {
    let mut list = List::new();

    list.push_front(5);
    list.assert_valid();

    assert_eq!(list.pop_back(), Some(5));
    assert!(list.is_empty());
    list.assert_valid();

    list.push_front(7);
    list.assert_valid();

    assert_eq!(list.pop_back(), Some(7));
    list.assert_valid();

    assert!(list.is_empty());
    assert!(list.pop_back().is_none());
    list.assert_valid();
}

#[test]
fn double_ended_iter() {
    let list = list_from(&[1, 2, 3]);

    let head_to_tail = collect(&mut list.iter());
    assert_eq!(&head_to_tail, &[1, 2, 3]);

    let tail_to_head = collect_back(&mut list.iter());
    assert_eq!(&tail_to_head, &[3, 2, 1]);
}

#[test]
fn double_ended_iter_empties() {
    let list = list_from(&[1, 2, 3, 4]);

    let mut iter = list.iter();

    assert_eq!(iter.next().copied(), Some(1));
    assert_eq!(iter.next().copied(), Some(2));

    assert_eq!(iter.next_back().copied(), Some(4));
    assert_eq!(iter.next_back().copied(), Some(3));

    assert_eq!(iter.next().copied(), None);
    assert_eq!(iter.next_back().copied(), None);
}

#[test]
fn empty_to_empty() {
    let mut a = List::<i32>::new();
    let mut b = List::new();
    a.append(&mut b);

    a.assert_valid();
    b.assert_valid();

    assert_eq!(a.len(), 0);
    assert_eq!(b.len(), 0);
}

#[test]
fn nonempty_to_empty() {
    let mut a = List::<i32>::new();
    let mut b = List::new();
    b.push_back(1);

    a.append(&mut b);

    a.assert_valid();
    b.assert_valid();

    assert_eq!(a.len(), 1);
    assert_eq!(b.len(), 0);

    assert_eq!(a.front().copied(), Some(1));
    assert_eq!(a.back().copied(), Some(1));
}

#[test]
fn empty_to_nonempty() {
    let mut a = List::<i32>::new();
    let mut b = List::new();
    a.push_back(1);

    a.append(&mut b);

    a.assert_valid();
    b.assert_valid();

    assert_eq!(a.len(), 1);
    assert_eq!(b.len(), 0);

    assert_eq!(a.front().copied(), Some(1));
    assert_eq!(a.back().copied(), Some(1));
}

#[test]
fn nonempty_to_nonempty() {
    let a_vals = [1, 2, 3, 4, 5];
    let b_vals = [9, 8, 1, 2, 3, 4, 5];

    let mut a = list_from(&a_vals);
    let mut b = list_from(&b_vals);

    a.append(&mut b);

    a.assert_valid();
    b.assert_valid();

    assert_eq!(a.len(), a_vals.len() + b_vals.len());
    assert_eq!(b.len(), 0);

    for item in a_vals.iter().chain(b_vals.iter()) {
        assert_eq!(a.pop_front(), Some(*item));
    }

    b.push_back(3);
    b.assert_valid();
    assert_eq!(b.len(), 1);
    assert_eq!(b.front().copied(), Some(3));
    assert_eq!(b.back().copied(), Some(3));
    b.assert_valid();
}

#[test]
fn single_node() {
    let mut list = List::<i32>::new();
    list.push_back(1);

    let split = list.split_off(0);
    assert_eq!(list.len(), 0);
    assert_eq!(split.len(), 1);
    list.assert_valid();
    split.assert_valid();

    assert_eq!(split.front().copied(), Some(1));
    assert_eq!(split.back().copied(), Some(1));
    assert_eq!(list.front().copied(), None);
    assert_eq!(list.back().copied(), None);
}

#[test]
fn tests_middle() {
    let mut list = list_from(&[1, 2, 3, 4, 5]);
    let mut split = list.split_off(2);

    assert_eq!(list.len(), 2);
    assert_eq!(split.len(), 3);
    list.assert_valid();
    split.assert_valid();

    for n in 1..3 {
        assert_eq!(list.pop_front(), Some(n));
    }
    for n in 3..6 {
        assert_eq!(split.pop_front(), Some(n));
    }
}

#[test]
fn one_node() {
    let mut list = list_from(&[1, 2, 3, 4, 5]);
    let mut split = list.split_off(4);

    assert_eq!(list.len(), 4);
    assert_eq!(split.len(), 1);
    list.assert_valid();
    split.assert_valid();

    for n in 1..5 {
        assert_eq!(list.pop_front(), Some(n));
    }
    for n in 5..6 {
        assert_eq!(split.pop_front(), Some(n));
    }
}

#[test]
fn last_index() {
    let mut list = List::<i32>::new();
    list.push_back(1);

    let split = list.split_off(1);
    assert_eq!(list.len(), 1);
    assert_eq!(split.len(), 0);

    list.assert_valid();
    split.assert_valid();

    assert_eq!(list.front().copied(), Some(1));
    assert_eq!(list.back().copied(), Some(1));
    assert_eq!(split.front().copied(), None);
    assert_eq!(split.back().copied(), None);
}

#[test]
fn all_splits() {
    let vals = [1, 2, 3, 4, 5];
    let mut list = list_from(&vals);

    for i in 0..1 + list.len() {
        let mut split = list.split_off(i);
        list.assert_valid();
        split.assert_valid();

        let split_entries = collect(&mut split.iter());
        assert_eq!(split_entries, vals[i..]);

        list.append(&mut split);
        let list_entries = collect(&mut list.iter());
        assert_eq!(list_entries, vals[..]);
    }
}

#[test]
fn try_split_off_past_end() {
    let mut list = list_from(&[1, 2]);
    assert!(list.try_split_off(3).is_none());
    assert_eq!(collect(&mut list.iter()), vec![1, 2]);
    let split = list.try_split_off(2).unwrap();
    assert_eq!(split.len(), 0);
}

#[test]
fn push_back_then_pop_back_returns_it() {
    let mut list = list_from(&[4, 5]);
    list.push_back(6);
    assert_eq!(list.pop_back(), Some(6));
    assert_eq!(collect(&mut list.iter()), vec![4, 5]);
}

#[test]
fn push_front_then_pop_front_returns_it() {
    let mut list = list_from(&[4, 5]);
    list.push_front(3);
    assert_eq!(list.pop_front(), Some(3));
    assert_eq!(collect(&mut list.iter()), vec![4, 5]);
}

#[test]
fn iter_len_counts_down() {
    let list = list_from(&[1, 2, 3]);
    let mut iter = list.iter();
    assert_eq!(iter.len(), 3);
    iter.next();
    assert_eq!(iter.len(), 2);
    iter.next_back();
    assert_eq!(iter.len(), 1);
}

#[test]
fn tests_drain_filter() {
    let mut list = list_from(&[1, 2, 3, 4]);

    {
        // Create a scope so that the mutable borrow on the list is released
        // when we're done with the `drain_filter` iterator.
        let mut df = list.drain_filter(|entry: &i32| *entry % 2 == 0);
        assert_eq!(df.next(), Some(2));
        assert_eq!(df.next(), Some(4));
        assert_eq!(df.next(), None);
    }

    let remaining = collect(&mut list.iter());
    assert_eq!(remaining, vec![1, 3]);
}

#[test]
fn drain_filter_keeps_everything_when_nothing_matches() {
    let mut list = list_from(&[1, 3, 5]);
    {
        let mut df = list.drain_filter(|entry: &i32| *entry > 10);
        assert_eq!(df.next(), None);
        assert_eq!(df.next(), None);
    }
    list.assert_valid();
    assert_eq!(collect(&mut list.iter()), vec![1, 3, 5]);
}

#[test]
fn drain_filter_removes_everything_when_all_match() {
    let mut list = list_from(&[2, 4, 6]);
    {
        let mut df = list.drain_filter(|_: &i32| true);
        assert_eq!(df.next(), Some(2));
        assert_eq!(df.next(), Some(4));
        assert_eq!(df.next(), Some(6));
        assert_eq!(df.next(), None);
    }
    list.assert_valid();
    assert!(list.is_empty());
}

#[test]
fn remove_first_from_cursor_position() {
    let mut list = list_from(&[2, 1, 4, 3, 6]);
    let mut cursor = list.cursor_front_mut();
    cursor.move_next();
    // the matching element before the cursor is not looked at
    assert_eq!(cursor.remove_first(|x: &i32| *x % 2 == 0), Some(4));
    assert_eq!(cursor.current().copied(), Some(3));
    assert_eq!(cursor.index(), Some(2));
    assert_eq!(cursor.remove_first(|x: &i32| *x > 100), None);
    assert_eq!(cursor.index(), None);
    assert_eq!(collect(&mut list.iter()), vec![2, 1, 3, 6]);
}

#[test]
fn front_and_back_mut_change_the_ends() {
    let mut list = list_from(&[1, 2, 3]);
    *list.front_mut().unwrap() = 10;
    *list.back_mut().unwrap() += 30;
    list.assert_valid();
    assert_eq!(collect(&mut list.iter()), vec![10, 2, 33]);
    let mut empty = List::<i32>::new();
    assert!(empty.front_mut().is_none());
    assert!(empty.back_mut().is_none());
}

#[test]
fn into_iter_yields_items_by_value_from_both_ends() {
    let mut iter = list_from(&[1, 2, 3, 4]).into_iter();
    assert_eq!(iter.len(), 4);
    assert_eq!(iter.next(), Some(1));
    assert_eq!(iter.next_back(), Some(4));
    assert_eq!(iter.len(), 2);
    assert_eq!(iter.next(), Some(2));
    assert_eq!(iter.next(), Some(3));
    assert_eq!(iter.next(), None);
    assert_eq!(iter.next_back(), None);
    assert_eq!(iter.len(), 0);
}

#[test]
fn freed_slots_are_reused() {
    let mut list = List::new();
    let a = list.push_back(1);
    let b = list.push_back(2);
    assert_eq!(list.pop_back(), Some(2));
    // the slot freed by the pop holds the next element
    let c = list.push_front(3);
    assert_eq!(c, b);
    assert_ne!(a, c);
    assert_eq!(list.remove(a), Some(1));
    let d = list.push_back(4);
    assert_eq!(d, a);
    assert_eq!(list.pop_front(), Some(3));
    assert_eq!(list.pop_front(), Some(4));
    assert!(list.is_empty());
}
