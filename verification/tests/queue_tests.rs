use containers::Queue;

#[test]
fn queue_test_new() {
    let queue: Queue<u32, 4> = Queue::new();
    assert!(queue.is_empty());
}

#[test]
fn queue_test_push_pop() {
    let mut queue: Queue<u32, 4> = Queue::new();
    assert!(queue.is_empty());
    queue.push_back(1);
    queue.push_back(2);
    queue.push_back(3);
    queue.push_back(4);
    assert_eq!(queue.len(), 4);
    assert_eq!(queue.pop_front(), Some(1));
    assert_eq!(queue.pop_front(), Some(2));
    assert_eq!(queue.pop_front(), Some(3));
    assert_eq!(queue.pop_front(), Some(4));
    assert!(queue.is_empty());
}

#[test]
fn queue_test_clear() {
    let mut queue: Queue<u32, 4> = Queue::new();
    queue.push_back(1);
    queue.push_back(2);
    queue.clear();
    assert!(queue.is_empty());
}

#[test]
fn queue_test_not_empty() {
    let mut queue: Queue<u32, 4> = Queue::new();
    queue.push_back(1);
    assert!(!queue.is_empty());
    queue.push_back(2);
    assert!(!queue.is_empty());
    queue.push_back(3);
    assert!(!queue.is_empty());
    queue.push_back(4);
    assert!(!queue.is_empty());
}

#[test]
fn queue_push_empty() {
    let mut queue: Queue<u32, 4> = Queue::new();
    queue.push_back(1);
    assert_eq!(queue.pop_front(), Some(1));
    assert!(queue.is_empty());
}

#[test]
fn queue_wraps_around() {
    let mut queue: Queue<u32, 4> = Queue::new();
    for round in 0..10u32 {
        queue.push_back(round);
        queue.push_back(round + 100);
        assert_eq!(queue.pop_front(), Some(round));
        assert_eq!(queue.pop_front(), Some(round + 100));
    }
    assert!(queue.is_empty());
}

#[test]
fn queue_iter_in_order() {
    let mut queue: Queue<u32, 4> = Queue::new();
    queue.push_back(1);
    queue.push_back(2);
    queue.push_back(3);
    queue.pop_front();
    queue.push_back(4);
    queue.push_back(5);
    let mut iter = queue.iter();
    assert_eq!(iter.next(), Some(&2));
    assert_eq!(iter.next(), Some(&3));
    assert_eq!(iter.next(), Some(&4));
    assert_eq!(iter.next(), Some(&5));
    assert_eq!(iter.next(), None);
}
