use mycelium::list::List;

fn drain_list(list: &mut List<i32>) -> Vec<i32> {
    let mut ret = Vec::new();
    while let Some(v) = list.pop_back() {
        ret.push(v);
    }
    ret
}

#[test]
fn first() {
    // Remove first
    let mut list = List::new();
    let a = list.push_back(5);
    let b = list.push_back(7);
    let c = list.push_back(31);

    assert!(list.remove(a).is_some());
    list.assert_valid();
    // `a` should be no longer there and can't be removed twice
    assert!(list.remove(a).is_none());
    assert!(!list.is_empty());
    list.assert_valid();

    assert!(list.remove(b).is_some());
    list.assert_valid();
    assert!(list.remove(b).is_none());
    assert!(!list.is_empty());
    list.assert_valid();

    assert!(list.remove(c).is_some());
    list.assert_valid();
    assert!(list.remove(c).is_none());
    assert!(list.is_empty());
    list.assert_valid();

    // Remove first of two
    let mut list = List::new();
    let a = list.push_back(5);
    list.push_back(7);
    assert!(list.remove(a).is_some());
    list.assert_valid();
    assert!(list.remove(a).is_none());
    list.assert_valid();
    assert_eq!(list.front(), Some(&7));
    assert_eq!(list.back(), Some(&7));
    assert_eq!(list.len(), 1);
    let items = drain_list(&mut list);
    assert_eq!([7].to_vec(), items);
}

#[test]
fn remove_by_addr_middle() {
    let mut list = List::new();
    let a = list.push_back(5);
    list.push_back(7);
    list.push_back(31);
    assert!(list.remove(a).is_some());
    list.assert_valid();
    assert_eq!(list.front(), Some(&7));
    let items = drain_list(&mut list);
    assert_eq!([31, 7].to_vec(), items);
    list.assert_valid();

    let mut list = List::new();
    list.push_back(5);
    let b = list.push_back(7);
    list.push_back(31);
    assert!(list.remove(b).is_some());
    list.assert_valid();
    let items = drain_list(&mut list);
    assert_eq!([31, 5].to_vec(), items);
}

#[test]
fn last_middle() {
    let mut list = List::new();
    list.push_back(5);
    list.push_back(7);
    let c = list.push_back(31);
    assert!(list.remove(c).is_some());
    list.assert_valid();
    assert_eq!(list.back(), Some(&7));
    let items = drain_list(&mut list);
    assert_eq!([7, 5].to_vec(), items);
}

#[test]
fn last() {
    // Remove last item
    let mut list = List::new();
    let a = list.push_back(5);
    assert!(list.remove(a).is_some());
    list.assert_valid();
    assert!(list.front().is_none());
    assert!(list.back().is_none());
    let items = drain_list(&mut list);
    assert!(items.is_empty());

    // Remove last of two
    let mut list = List::new();
    list.push_back(5);
    let b = list.push_back(7);
    assert!(list.remove(b).is_some());
    list.assert_valid();
    assert_eq!(list.front(), Some(&5));
    assert_eq!(list.back(), Some(&5));
    let items = drain_list(&mut list);
    assert_eq!([5].to_vec(), items);
}

#[test]
fn missing() {
    // Remove missing: a slot that holds no node of the list
    let mut list = List::new();
    list.push_front(7);
    list.push_front(5);
    let c = 2;
    assert!(list.remove(c).is_none());
    list.assert_valid();
    assert_eq!(drain_list(&mut list), [7, 5].to_vec());
}
