use mycelium::transfer_stack::TransferStack;

fn drain_all(stack: &mut TransferStack<i32>) -> Vec<i32> {
    let mut out = Vec::new();
    let mut drain = stack.drain();
    while let Some(v) = drain.next() {
        out.push(v);
    }
    out
}

#[test]
fn drain_is_last_in_first_out() {
    let mut stack = TransferStack::new();
    stack.push(1);
    stack.push(2);
    stack.push(3);
    assert_eq!(drain_all(&mut stack), vec![3, 2, 1]);
    assert_eq!(drain_all(&mut stack), Vec::<i32>::new());
}

#[test]
fn pushes_from_two_producers_are_all_drained() {
    // the elements that two producers push, two each, all come out of the
    // drains in some order
    let mut stack = TransferStack::new();
    let mut seen = Vec::new();
    stack.push(10);
    stack.push(20);
    seen.extend(drain_all(&mut stack));
    stack.push(11);
    stack.push(21);
    seen.extend(drain_all(&mut stack));
    seen.extend(drain_all(&mut stack));
    seen.sort();
    assert_eq!(seen, vec![10, 11, 20, 21]);
}

#[test]
fn stack_is_empty_after_drain_even_if_drain_is_not_consumed() {
    let mut stack = TransferStack::new();
    stack.push(5);
    let _drain = stack.drain();
    assert_eq!(drain_all(&mut stack), Vec::<i32>::new());
}
