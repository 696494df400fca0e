//! Lists that own their elements outright, each one boxed.
use mycelium::list::List;

fn owned_entry(val: i32) -> Box<i32> {
    Box::new(val)
}

fn vals(list: &List<Box<i32>>) -> Vec<i32> {
    let mut out = Vec::new();
    let mut iter = list.iter();
    while let Some(entry) = iter.next() {
        out.push(**entry);
    }
    out
}

#[test]
fn owned_entry_pop_front() {
    let a = owned_entry(5);
    let b = owned_entry(7);
    let c = owned_entry(9);
    let mut list = List::<Box<i32>>::new();

    list.push_front(a);
    list.assert_valid();

    list.push_front(b);
    list.assert_valid();

    list.push_front(c);
    list.assert_valid();

    let d = list.pop_front().unwrap();
    assert_eq!(9, *d);

    let e = list.pop_front().unwrap();
    assert_eq!(7, *e);

    let f = list.pop_front().unwrap();
    assert_eq!(5, *f);

    assert!(list.is_empty());
    assert!(list.pop_front().is_none());
    list.assert_valid();
}

#[test]
fn iterate_twice() {
    let mut list = List::<Box<i32>>::new();
    list.push_back(owned_entry(1));
    list.push_back(owned_entry(2));
    list.push_back(owned_entry(3));

    // iterate over the list...
    let mut i = 1;
    let mut iter = list.iter();
    while let Some(entry) = iter.next() {
        assert_eq!(**entry, i);
        i += 1;
    }

    // do it again; it should still work!
    let mut i = 1;
    let mut iter = list.iter();
    while let Some(entry) = iter.next() {
        assert_eq!(**entry, i);
        i += 1;
    }
}

#[test]
fn cursor_iterates_twice() {
    let mut list = List::<Box<i32>>::new();
    list.push_back(owned_entry(1));
    list.push_back(owned_entry(2));
    list.push_back(owned_entry(3));

    for _ in 0..2 {
        let mut i = 1;
        let mut cursor = list.cursor_front();
        while let Some(entry) = cursor.next() {
            assert_eq!(**entry, i);
            i += 1;
        }
        assert_eq!(i, 4);
    }
}

#[test]
fn owned_entry_drain_filter() {
    let mut list = List::new();
    list.push_back(owned_entry(1));
    list.push_back(owned_entry(2));
    list.push_back(owned_entry(3));
    list.push_back(owned_entry(4));

    {
        // Create a scope so that the mutable borrow on the list is released
        // when we're done with the `drain_filter` iterator.
        let mut df = list.drain_filter(|entry: &Box<i32>| **entry % 2 == 0);
        assert_eq!(df.next().map(|entry| *entry), Some(2));
        assert_eq!(df.next().map(|entry| *entry), Some(4));
        assert_eq!(df.next().map(|entry| *entry), None);
    }

    assert_eq!(vals(&list), vec![1, 3]);
}
