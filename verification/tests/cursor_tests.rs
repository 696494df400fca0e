use mycelium::list::List;

fn list_from(vals: &[i32]) -> List<i32> {
    let mut list = List::new();
    for v in vals {
        list.push_back(*v);
    }
    list
}

fn collect_vals(list: &List<i32>) -> Vec<i32> {
    let mut out = Vec::new();
    let mut iter = list.iter();
    while let Some(v) = iter.next() {
        out.push(*v);
    }
    out
}

#[test]
fn move_peek_front() {
    let mut list = list_from(&[1, 2, 3, 4, 5, 6]);

    let mut cursor = list.cursor_front_mut();
    assert_eq!(cursor.current().copied(), Some(1));
    assert_eq!(cursor.peek_next().copied(), Some(2));
    assert_eq!(cursor.peek_prev().copied(), None);
    assert_eq!(cursor.index(), Some(0));
    cursor.move_prev();
    assert_eq!(cursor.current().copied(), None);
    assert_eq!(cursor.peek_next().copied(), Some(1));
    assert_eq!(cursor.peek_prev().copied(), Some(6));
    assert_eq!(cursor.index(), None);
    cursor.move_next();
    cursor.move_next();
    assert_eq!(cursor.current().copied(), Some(2));
    assert_eq!(cursor.peek_next().copied(), Some(3));
    assert_eq!(cursor.peek_prev().copied(), Some(1));
    assert_eq!(cursor.index(), Some(1));
}

#[test]
fn move_peek_back() {
    let mut list = list_from(&[1, 2, 3, 4, 5, 6]);

    let mut cursor = list.cursor_back_mut();
    assert_eq!(cursor.current().copied(), Some(6));
    assert_eq!(cursor.peek_next().copied(), None);
    assert_eq!(cursor.peek_prev().copied(), Some(5));
    assert_eq!(cursor.index(), Some(5));
    cursor.move_next();
    assert_eq!(cursor.current().copied(), None);
    assert_eq!(cursor.peek_next().copied(), Some(1));
    assert_eq!(cursor.peek_prev().copied(), Some(6));
    assert_eq!(cursor.index(), None);
    cursor.move_prev();
    cursor.move_prev();
    assert_eq!(cursor.current().copied(), Some(5));
    assert_eq!(cursor.peek_next().copied(), Some(6));
    assert_eq!(cursor.peek_prev().copied(), Some(4));
    assert_eq!(cursor.index(), Some(4));
}

#[test]
fn as_cursor_move_peek_front() {
    let mut list = list_from(&[1, 2, 3, 4, 5, 6]);
    let mut cursor = list.cursor_front_mut();
    assert_eq!(cursor.current().copied(), Some(1));
    assert_eq!(cursor.peek_next().copied(), Some(2));
    assert_eq!(cursor.peek_prev().copied(), None);
    assert_eq!(cursor.index(), Some(0));
    cursor.move_prev();
    assert_eq!(cursor.current().copied(), None);
    assert_eq!(cursor.peek_next().copied(), Some(1));
    assert_eq!(cursor.peek_prev().copied(), Some(6));
    assert_eq!(cursor.index(), None);
    cursor.move_next();
    cursor.move_next();
    assert_eq!(cursor.current().copied(), Some(2));
    assert_eq!(cursor.peek_next().copied(), Some(3));
    assert_eq!(cursor.peek_prev().copied(), Some(1));
    assert_eq!(cursor.index(), Some(1));
    let mut cursor2 = cursor.as_cursor();
    assert_eq!(cursor2.current().copied(), Some(2));
    assert_eq!(cursor2.index(), Some(1));
    cursor2.move_next();
    assert_eq!(cursor2.current().copied(), Some(3));
    assert_eq!(cursor2.index(), Some(2));
    assert_eq!(cursor.current().copied(), Some(2));
    assert_eq!(cursor.index(), Some(1));
}

#[test]
fn as_cursor_move_peek_back() {
    let mut list = list_from(&[1, 2, 3, 4, 5, 6]);
    let mut cursor = list.cursor_back_mut();
    assert_eq!(cursor.current().copied(), Some(6));
    assert_eq!(cursor.peek_next().copied(), None);
    assert_eq!(cursor.peek_prev().copied(), Some(5));
    assert_eq!(cursor.index(), Some(5));
    cursor.move_next();
    assert_eq!(cursor.current().copied(), None);
    assert_eq!(cursor.peek_next().copied(), Some(1));
    assert_eq!(cursor.peek_prev().copied(), Some(6));
    assert_eq!(cursor.index(), None);
    cursor.move_prev();
    cursor.move_prev();
    assert_eq!(cursor.current().copied(), Some(5));
    assert_eq!(cursor.peek_next().copied(), Some(6));
    assert_eq!(cursor.peek_prev().copied(), Some(4));
    assert_eq!(cursor.index(), Some(4));
    let mut cursor2 = cursor.as_cursor();
    assert_eq!(cursor2.current().copied(), Some(5));
    assert_eq!(cursor2.index(), Some(4));
    cursor2.move_prev();
    assert_eq!(cursor2.current().copied(), Some(4));
    assert_eq!(cursor2.index(), Some(3));
    assert_eq!(cursor.current().copied(), Some(5));
    assert_eq!(cursor.index(), Some(4));
}

#[test]
fn cursor_mut_insert() {
    let mut list = list_from(&[1, 2, 3, 4, 5, 6]);

    let mut cursor = list.cursor_front_mut();
    cursor.insert_before(7);
    cursor.insert_after(8);
    assert_eq!(collect_vals(&list), &[7, 1, 8, 2, 3, 4, 5, 6]);

    let mut cursor = list.cursor_front_mut();
    cursor.move_prev();
    cursor.insert_before(9);
    cursor.insert_after(10);
    list.assert_valid();

    assert_eq!(collect_vals(&list), &[10, 7, 1, 8, 2, 3, 4, 5, 6, 9]);

    let mut cursor = list.cursor_front_mut();
    cursor.move_prev();
    assert_eq!(cursor.remove_current(), None);
    cursor.move_next();
    cursor.move_next();
    assert_eq!(cursor.remove_current(), Some(7));
    cursor.move_prev();
    cursor.move_prev();
    cursor.move_prev();
    assert_eq!(cursor.remove_current(), Some(9));
    cursor.move_next();
    assert_eq!(cursor.remove_current(), Some(10));
    list.assert_valid();
    assert_eq!(collect_vals(&list), &[1, 8, 2, 3, 4, 5, 6]);
}

#[test]
fn cursor_on_empty_list() {
    let mut list = List::<i32>::new();
    let mut cursor = list.cursor_front_mut();
    assert_eq!(cursor.current(), None);
    assert_eq!(cursor.index(), None);
    assert!(cursor.is_empty());
    assert_eq!(cursor.len(), 0);
    cursor.move_next();
    assert_eq!(cursor.current(), None);
}

#[test]
fn cursor_front_reads_without_moving() {
    let list = list_from(&[3, 4]);
    let cursor = list.cursor_front();
    assert_eq!(cursor.current().copied(), Some(3));
    assert_eq!(cursor.peek_next().copied(), Some(4));
    assert_eq!(cursor.len(), 2);
    let back = list.cursor_back();
    assert_eq!(back.current().copied(), Some(4));
    assert_eq!(back.index(), Some(1));
}

#[test]
fn cursor_mut_splice() {
    let mut a = list_from(&[1, 2, 3, 4, 5, 6]);
    let b = list_from(&[100, 101, 102, 103]);
    let c = list_from(&[200, 201, 202, 203]);

    let mut cursor = a.cursor_front_mut();
    cursor.splice_after(b);
    cursor.splice_before(c);

    a.assert_valid();
    assert_eq!(
        collect_vals(&a),
        &[200, 201, 202, 203, 1, 100, 101, 102, 103, 2, 3, 4, 5, 6]
    );
    let mut cursor = a.cursor_front_mut();
    cursor.move_prev();
    let tmp = cursor.split_before();
    assert_eq!(collect_vals(&a), &[] as &[i32]);
    a = tmp;
    let mut cursor = a.cursor_front_mut();
    cursor.move_next();
    cursor.move_next();
    cursor.move_next();
    cursor.move_next();
    cursor.move_next();
    cursor.move_next();

    let tmp = cursor.split_after();
    assert_eq!(collect_vals(&tmp), &[102, 103, 2, 3, 4, 5, 6]);
    assert_eq!(collect_vals(&a), &[200, 201, 202, 203, 1, 100, 101]);
    tmp.assert_valid();
    a.assert_valid();
}

#[test]
fn cursor_mut_split_after() {
    let vals = [1, 2, 3, 4, 5];

    // test all splits
    for i in 0..vals.len() + 1 {
        let mut list = list_from(&vals);
        let mut cursor = list.cursor_front_mut();

        for _ in 0..i {
            cursor.move_next();
        }

        // split off at this index
        let split = cursor.split_after();

        list.assert_valid();
        split.assert_valid();

        let split_entries = collect_vals(&split);
        let list_entries = collect_vals(&list);

        if i < vals.len() {
            assert_eq!(list_entries, vals[..i + 1], "list after split");
            assert_eq!(split_entries, vals[i + 1..], "split");
        } else {
            // if we were at the end of the list, the split should contain
            // everything.
            assert_eq!(list_entries, &[] as &[i32], "list after split");
            assert_eq!(split_entries, vals[..], "split");
        }
    }
}

#[test]
fn cursor_mut_split_before() {
    let vals = [1, 2, 3, 4, 5];

    // test all splits
    for i in 0..vals.len() + 1 {
        let mut list = list_from(&vals);
        let mut cursor = list.cursor_front_mut();
        for _ in 0..i {
            cursor.move_next();
        }

        // split off at this index
        let split = cursor.split_before();

        list.assert_valid();
        split.assert_valid();

        let split_entries = collect_vals(&split);
        let list_entries = collect_vals(&list);

        if i > 0 {
            assert_eq!(list_entries, vals[i..], "list after split");
            assert_eq!(split_entries, vals[..i], "split");
        } else {
            // if we were at the beginning of the list, the split should contain
            // everything.
            assert_eq!(list_entries, vals[..], "list after split");
            assert_eq!(split_entries, &[] as &[i32], "split");
        }
    }
}

#[test]
fn splice_into_ghost_position() {
    let mut list = list_from(&[1, 2, 3]);
    let mut cursor = list.cursor_back_mut();
    cursor.move_next();
    assert_eq!(cursor.index(), None);
    cursor.splice_after(list_from(&[10, 11]));
    cursor.splice_before(list_from(&[20, 21]));
    assert_eq!(cursor.index(), None);
    list.assert_valid();
    assert_eq!(collect_vals(&list), &[10, 11, 1, 2, 3, 20, 21]);
}

#[test]
fn splice_empty_list_changes_nothing() {
    let mut list = list_from(&[1, 2, 3]);
    let mut cursor = list.cursor_front_mut();
    cursor.move_next();
    cursor.splice_after(List::new());
    cursor.splice_before(List::new());
    assert_eq!(cursor.index(), Some(1));
    assert_eq!(cursor.current().copied(), Some(2));
    assert_eq!(collect_vals(&list), &[1, 2, 3]);
}

#[test]
fn cursor_mut_changes_elements_in_place() {
    let mut list = list_from(&[1, 2, 3]);
    let mut cursor = list.cursor_front_mut();
    cursor.move_next();
    *cursor.current_mut().unwrap() = 20;
    *cursor.peek_next_mut().unwrap() = 30;
    *cursor.peek_prev_mut().unwrap() = 10;
    assert_eq!(cursor.index(), Some(1));
    cursor.move_next();
    cursor.move_next();
    // at the ghost position there is no current element; the neighbours are
    // the head and the tail
    assert!(cursor.current_mut().is_none());
    *cursor.peek_next_mut().unwrap() += 1;
    *cursor.peek_prev_mut().unwrap() += 1;
    list.assert_valid();
    assert_eq!(collect_vals(&list), &[11, 20, 31]);
}

#[test]
fn move_prev_from_null_lands_on_tail_index() {
    let mut list = List::new();
    list.push_back(1);
    list.push_back(2);
    list.push_back(3);
    {
        let mut c = list.cursor_front_mut();
        c.move_prev();
        assert_eq!(c.index(), None);
        c.move_prev();
        assert_eq!(c.current(), Some(&3));
        assert_eq!(c.index(), Some(2));
    }
    let mut c = list.cursor_front();
    c.move_prev();
    c.move_prev();
    assert_eq!(c.current(), Some(&3));
    assert_eq!(c.index(), Some(2));
}
