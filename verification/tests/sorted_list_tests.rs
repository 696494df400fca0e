use mycelium::sorted_list::{SortKey, SortOrder, SortedList};

fn insert_out_of_order(slist: &mut SortedList<i64>) {
    // Insert out of order
    slist.insert(20);
    slist.insert(10);
    slist.insert(30);
    slist.insert(25);
    slist.insert(35);
    slist.insert(1);
    slist.insert(2);
    slist.insert(3);
}

fn check_iter_and_drain(slist: &mut SortedList<i64>, expected: &[i64]) {
    // Does iteration work (twice)?
    for _ in 0..2 {
        let mut ct = 0;
        let mut siter = slist.iter();
        for l in expected.iter() {
            let r = siter.next().unwrap();
            ct += 1;
            assert_eq!(*l, *r);
        }
        assert_eq!(ct, expected.len());
        assert!(siter.next().is_none());
    }

    // Does draining work (once)?
    let mut ct = 0;
    for exp in expected.iter() {
        let act = slist.pop_front().unwrap();
        ct += 1;
        assert_eq!(*exp, act);
    }
    assert_eq!(ct, expected.len());
    assert!(slist.pop_front().is_none());
}

#[test]
fn builtin_sort_min() {
    let mut slist = SortedList::new_min();
    insert_out_of_order(&mut slist);
    // expected is in order
    let expected = [1, 2, 3, 10, 20, 25, 30, 35];
    check_iter_and_drain(&mut slist, &expected);
}

#[test]
fn builtin_sort_max() {
    let mut slist = SortedList::new_max();
    insert_out_of_order(&mut slist);
    // expected is in order (reverse!)
    let expected = [35, 30, 25, 20, 10, 3, 2, 1];
    check_iter_and_drain(&mut slist, &expected);
}

#[test]
fn slist_basic() {
    let mut slist = SortedList::new_with_cmp(SortOrder::Min);
    insert_out_of_order(&mut slist);
    // expected is in order
    let expected = [1, 2, 3, 10, 20, 25, 30, 35];
    check_iter_and_drain(&mut slist, &expected);

    // Do a little pop and remove dance to make sure popped items can be
    // inserted again
    slist.insert(20);
    slist.insert(10);
    slist.insert(30);
    let x = slist.pop_front().unwrap();
    slist.insert(x);
    let y = slist.pop_front().unwrap();
    let z = slist.pop_front().unwrap();
    slist.insert(y);
    slist.insert(z);
    assert_eq!(y, 10);
    assert_eq!(z, 20);
    let mut siter = slist.iter();
    assert_eq!(siter.next(), Some(&10));
    assert_eq!(siter.next(), Some(&20));
    assert_eq!(siter.next(), Some(&30));
    assert_eq!(siter.next(), None);
}

#[test]
fn from_stack_sorts_its_input() {
    let mut slist = SortedList::from_stack_max(vec![4, 9, 1, 9, 3]);
    check_iter_and_drain(&mut slist, &[9, 9, 4, 3, 1]);
    let mut slist = SortedList::from_stack_min(vec![4, 9, 1, 9, 3]);
    check_iter_and_drain(&mut slist, &[1, 3, 4, 9, 9]);
    let mut slist = SortedList::<i64>::from_stack_with_cmp(Vec::new(), SortOrder::Min);
    check_iter_and_drain(&mut slist, &[]);
}

/// An element ordered by its key, told apart by its id.
#[derive(Debug, Clone, Copy, PartialEq)]
struct Keyed {
    key: i32,
    id: i32,
}

impl SortKey for Keyed {
    // The key as the library's contracts speak of it.
    fn spec_key(&self) -> i64 {
        self.key as i64
    }

    fn sort_key(&self) -> i64 {
        self.key as i64
    }
}

#[test]
fn equal_keys_keep_insertion_order() {
    let mut l = SortedList::new_with_cmp(SortOrder::Min);
    l.insert(Keyed { key: 5, id: 1 });
    l.insert(Keyed { key: 5, id: 2 });
    l.insert(Keyed { key: 3, id: 3 });
    let mut ids = Vec::new();
    let mut it = l.iter();
    while let Some(e) = it.next() {
        ids.push(e.id);
    }
    assert_eq!(ids, vec![3, 1, 2]);
    assert_eq!(l.pop_front(), Some(Keyed { key: 3, id: 3 }));
    assert_eq!(l.pop_front(), Some(Keyed { key: 5, id: 1 }));
}
