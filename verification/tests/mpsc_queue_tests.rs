use mycelium::mpsc_queue::{MpscQueue, TryDequeueError};

#[test]
fn dequeue_empty() {
    let stub = 666;
    let mut q = MpscQueue::<i32>::new_with_stub(stub);
    assert_eq!(q.dequeue(), None)
}

#[test]
fn try_dequeue_empty() {
    let stub = 666;
    let mut q = MpscQueue::<i32>::new_with_stub(stub);
    assert_eq!(q.try_dequeue(), Err(TryDequeueError::Empty))
}

#[test]
fn enqueue_dequeue() {
    let stub = 666;
    let e = 1;
    let mut q = MpscQueue::<i32>::new_with_stub(stub);
    q.enqueue(e);
    assert_eq!(q.dequeue(), Some(1));
    assert_eq!(q.dequeue(), None)
}

#[test]
fn consumer_sees_queued_elements_in_order() {
    let mut q = MpscQueue::<i32>::new_with_stub(666);
    {
        let mut consumer = q.try_consume().expect("must acquire consumer");
        assert_eq!(consumer.try_dequeue(), Err(TryDequeueError::Empty));
    }
    q.enqueue(1);
    q.enqueue(2);
    {
        let mut consumer = q.consume();
        assert_eq!(consumer.try_dequeue(), Ok(1));
        assert_eq!(consumer.dequeue(), Some(2));
        assert_eq!(consumer.try_dequeue(), Err(TryDequeueError::Empty));
    }
    assert_eq!(q.try_dequeue(), Err(TryDequeueError::Empty));
}

#[test]
fn fifo_across_interleaved_enqueues() {
    let mut q = MpscQueue::<i32>::new();
    for i in 0..10 {
        q.enqueue(i);
    }
    for i in 0..5 {
        assert_eq!(q.dequeue(), Some(i));
    }
    for i in 10..15 {
        q.enqueue(i);
    }
    for i in 5..15 {
        assert_eq!(q.try_dequeue(), Ok(i));
    }
    assert_eq!(q.dequeue(), None);
}

#[test]
fn unchecked_dequeue_on_queue_without_stub_element() {
    let mut q = MpscQueue::<i32>::new();
    assert_eq!(q.try_dequeue_unchecked(), Err(TryDequeueError::Empty));
    q.enqueue(7);
    assert_eq!(q.try_dequeue_unchecked(), Ok(7));
    assert_eq!(q.try_dequeue_unchecked(), Err(TryDequeueError::Empty));
}
