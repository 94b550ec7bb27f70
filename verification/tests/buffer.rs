use mtproxy::buffer::{ByteQueue, MAX_CAPACITY};

#[test]
fn new_queue_is_empty() {
    let queue = ByteQueue::new(10);
    assert!(queue.is_empty());
    assert_eq!(queue.len(), 0);
    assert_eq!(queue.limit(), 10);
    assert_eq!(queue.space(), 10);
    assert!(queue.as_slice().is_empty());
}

#[test]
fn queue_capacity_is_cut_down_to_the_maximum() {
    assert_eq!(ByteQueue::new(usize::MAX).limit(), MAX_CAPACITY);
    assert_eq!(ByteQueue::new(MAX_CAPACITY + 1).limit(), MAX_CAPACITY);
    assert_eq!(ByteQueue::new(MAX_CAPACITY).limit(), MAX_CAPACITY);
}

#[test]
fn push_appends_in_order() {
    let mut queue = ByteQueue::new(10);
    assert!(queue.push(&[1, 2, 3]));
    assert!(queue.push(&[4, 5]));
    assert_eq!(queue.as_slice(), &[1, 2, 3, 4, 5]);
    assert_eq!(queue.len(), 5);
    assert_eq!(queue.space(), 5);
}

#[test]
fn push_that_does_not_fit_changes_nothing() {
    let mut queue = ByteQueue::new(4);
    assert!(queue.push(&[1, 2, 3]));
    assert!(!queue.push(&[4, 5]));
    assert_eq!(queue.as_slice(), &[1, 2, 3]);
    assert!(queue.push(&[4]));
    assert!(!queue.push(&[5]));
    assert!(queue.push(&[]));
    assert_eq!(queue.as_slice(), &[1, 2, 3, 4]);
    assert_eq!(queue.space(), 0);
}

#[test]
fn queue_of_no_capacity_takes_nothing() {
    let mut queue = ByteQueue::new(0);
    assert!(!queue.push(&[1]));
    assert!(queue.push(&[]));
    assert!(queue.is_empty());
}

#[test]
fn consume_takes_from_the_front() {
    let mut queue = ByteQueue::new(10);
    queue.push(&[1, 2, 3, 4, 5]);
    queue.consume(2);
    assert_eq!(queue.as_slice(), &[3, 4, 5]);
    queue.consume(0);
    assert_eq!(queue.as_slice(), &[3, 4, 5]);
    queue.consume(3);
    assert!(queue.is_empty());
    assert_eq!(queue.limit(), 10);
}

#[test]
fn consume_of_more_than_there_is_empties_the_queue() {
    let mut queue = ByteQueue::new(10);
    queue.push(&[1, 2, 3]);
    queue.consume(100);
    assert!(queue.is_empty());
    assert_eq!(queue.space(), 10);
}

#[test]
fn space_comes_back_after_consume() {
    let mut queue = ByteQueue::new(4);
    assert!(queue.push(&[1, 2, 3, 4]));
    assert!(!queue.push(&[5]));
    queue.consume(1);
    assert!(queue.push(&[5]));
    assert_eq!(queue.as_slice(), &[2, 3, 4, 5]);
}

#[test]
fn clear_empties_and_keeps_the_capacity() {
    let mut queue = ByteQueue::new(8);
    queue.push(&[1, 2, 3]);
    queue.clear();
    assert!(queue.is_empty());
    assert_eq!(queue.limit(), 8);
    assert!(queue.push(&[0; 8]));
}
