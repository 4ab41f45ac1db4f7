use computer_science::data_structure::queue::Queue;

#[test]
fn queue_can_push() {
    let mut queue = Queue::<i32>::new();
    queue.enqueue(4);
    queue.enqueue(7);

    let should_be_array = [4, 7];
    let mut it = queue.into_iter();
    let mut i = 0;
    while let Some(item) = it.next() {
        assert_eq!(item, should_be_array[i]);
        i += 1;
    }
}

#[test]
fn queue_can_pop() {
    let mut queue = Queue::<i32>::new();
    queue.enqueue(3);
    queue.enqueue(4);

    assert_eq!(queue.len(), 2);
    assert_eq!(queue.dequeue().unwrap(), 3);
    assert_eq!(queue.dequeue().unwrap(), 4);
    assert_eq!(queue.len(), 0);
}

#[test]
fn empty_queue_returns_no_value() {
    let mut queue = Queue::<i32>::new();
    assert_eq!(queue.dequeue(), None);
    assert_eq!(queue.len(), 0);
}
