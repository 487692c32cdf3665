use esp_inputs::{InterruptHandler, IRQ_CAPACITY};

#[test]
fn empty_queue_dequeues_none() {
    let mut q = InterruptHandler::new();
    assert_eq!(q.dequeue(), None);
}

#[test]
fn queue_is_fifo() {
    let mut q = InterruptHandler::new();
    for pin in [7, 3, 9, 3] {
        assert!(q.enqueue(pin));
    }
    assert_eq!(q.dequeue(), Some(7));
    assert_eq!(q.dequeue(), Some(3));
    assert_eq!(q.dequeue(), Some(9));
    assert_eq!(q.dequeue(), Some(3));
    assert_eq!(q.dequeue(), None);
}

#[test]
fn queue_drops_newest_when_full() {
    let mut q = InterruptHandler::new();
    assert_eq!(IRQ_CAPACITY, 8);
    for pin in 0..8 {
        assert!(q.enqueue(pin));
    }
    assert!(!q.enqueue(100));
    assert!(!q.enqueue(101));
    for pin in 0..8 {
        assert_eq!(q.dequeue(), Some(pin));
    }
    assert_eq!(q.dequeue(), None);
    assert!(q.enqueue(42));
    assert_eq!(q.dequeue(), Some(42));
}

#[test]
fn notifier_enqueues_its_pin() {
    let mut q = InterruptHandler::new();
    let n = q.register(12);
    assert!(n.notify(&mut q));
    assert!(n.notify(&mut q));
    assert_eq!(q.dequeue(), Some(12));
    assert_eq!(q.dequeue(), Some(12));
    assert_eq!(q.dequeue(), None);
}
