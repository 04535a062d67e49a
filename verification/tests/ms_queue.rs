use relaxed_queues::strict_queues::ms::{MSQueue, QueueHandle};

#[test]
fn simple_test() {
    let queue = MSQueue::new();
    let mut qh = QueueHandle::new(queue);
    qh.enqueue(5);
    assert_eq!(qh.dequeue(), Some(5));
    assert_eq!(qh.dequeue(), None);
}

#[test]
fn simple_box_test() {
    let queue = MSQueue::new();
    let mut qh = QueueHandle::new(queue);
    qh.enqueue(Box::new(5));
    assert_eq!(qh.dequeue(), Some(Box::new(5)));
    assert_eq!(qh.dequeue(), None);
}

#[test]
fn simple_enq_test() {
    let queue = MSQueue::new();
    let mut qh = QueueHandle::new(queue);
    qh.enqueue(5);
    qh.enqueue(5);
    qh.enqueue(5);
    assert_eq!(qh.dequeue(), Some(5));
}

#[test]
fn many_elem_test() {
    let queue = MSQueue::new();
    let mut qh = QueueHandle::new(queue);
    for i in 0..5 {
        qh.enqueue(i);
    }
    assert_eq!(qh.dequeue(), Some(0));
    assert_eq!(qh.dequeue(), Some(1));
    for i in 5..10 {
        qh.enqueue(i);
    }
    for i in 2..10 {
        assert_eq!(qh.dequeue(), Some(i));
    }
    assert_eq!(qh.dequeue(), None);
    assert_eq!(qh.dequeue(), None);
    assert_eq!(qh.dequeue(), None);
    assert_eq!(qh.dequeue(), None);
}

#[test]
fn ms_simple_test() {
    let queue = MSQueue::new();
    let mut qh = QueueHandle::new(queue);
    qh.enqueue(5);
    assert_eq!(qh.dequeue(), Some(5));
    assert_eq!(qh.dequeue(), None);
}

#[test]
fn ms_many_elem_test() {
    let queue = MSQueue::new();
    let mut qh = QueueHandle::new(queue);
    for i in 0..5 {
        qh.enqueue(i);
    }
    assert_eq!(qh.dequeue(), Some(0));
    assert_eq!(qh.dequeue(), Some(1));
    for i in 5..10 {
        qh.enqueue(i);
    }
    for i in 2..10 {
        assert_eq!(qh.dequeue(), Some(i));
    }
    assert_eq!(qh.dequeue(), None);
    assert_eq!(qh.dequeue(), None);
    assert_eq!(qh.dequeue(), None);
    assert_eq!(qh.dequeue(), None);
}
