use computer_science::data_structure::linked_list::LinkedList;

#[test]
fn can_push_front() {
    let mut list = LinkedList::<i32>::new();
    list.push_front(4);
    list.push_front(2);

    let should_be_array = [2, 4];
    let mut it = list.into_iter();
    let mut i = 0;
    while let Some(item) = it.next() {
        assert_eq!(item, should_be_array[i]);
        i += 1;
    }
}

#[test]
fn can_push_back() {
    let mut list = LinkedList::<i32>::new();
    list.push_back(3);
    list.push_back(5);

    let should_be_array = [3, 5];
    let mut it = list.into_iter();
    let mut i = 0;
    while let Some(item) = it.next() {
        assert_eq!(item, should_be_array[i]);
        i += 1;
    }
}

#[test]
fn can_insert() {
    let mut list = LinkedList::<i32>::new();
    // Insert first/last
    list.insert(2, 0);
    // Insert last
    list.insert(4, 1);
    // Insert middle
    list.insert(3, 1);
    // Insert first
    list.insert(1, 0);

    let should_be_array = [1, 2, 3, 4];
    let mut it = list.into_iter();
    let mut i = 0;
    while let Some(item) = it.next() {
        assert_eq!(item, should_be_array[i]);
        i += 1;
    }
}

#[test]
fn can_read_value_at() {
    let mut list = LinkedList::<i32>::new();
    list.push_back(2);
    list.push_back(3);
    list.push_back(4);

    // Read first/middle/last
    assert_eq!(list.at(0), 2);
    assert_eq!(list.at(1), 3);
    assert_eq!(list.at(2), 4);
}

#[test]
fn can_remove() {
    let mut list = LinkedList::<i32>::new();
    list.push_back(1);
    list.push_back(2);
    list.push_back(3);
    list.push_back(4);

    assert_eq!(list.len(), 4);

    // Remove middle
    list.remove(1);

    // Remove first
    list.remove(0);

    // Remove last
    list.remove(1);

    // Check remaining value
    assert_eq!(list.at(0), 3);
    assert_eq!(list.len(), 1);

    // Remove first/last
    list.remove(0);

    // Check empty
    assert_eq!(list.len(), 0);
    assert!(list.pop_front().is_none());
    assert!(list.pop_back().is_none());
}

#[test]
fn can_pop_front() {
    let mut list = LinkedList::<i32>::new();
    list.push_back(1);
    list.push_back(2);

    // Pop last
    assert_eq!(list.pop_back(), Some(2));

    // Pop first/last
    assert_eq!(list.pop_back(), Some(1));

    // Pop empty
    assert_eq!(list.pop_back(), None);
}

#[test]
fn can_pop_back() {
    let mut list = LinkedList::<i32>::new();
    list.push_back(1);
    list.push_back(2);

    // Pop first
    assert_eq!(list.pop_front(), Some(1));

    // Pop first/last
    assert_eq!(list.pop_front(), Some(2));

    // Pop empty
    assert_eq!(list.pop_front(), None);
}

#[test]
fn pop_each_end_keeps_the_middle() {
    let mut list = LinkedList::<i32>::new();
    list.push_back(1);
    list.push_back(4);
    list.push_back(6);
    list.push_back(7);

    assert_eq!(list.pop_front(), Some(1));
    assert_eq!(list.pop_back(), Some(7));

    let should_be_array = [4, 6];
    let mut it = list.into_iter();
    let mut i = 0;
    while let Some(item) = it.next() {
        assert_eq!(item, should_be_array[i]);
        i += 1;
    }
    assert_eq!(i, 2);
}

#[test]
fn lookup_visits_nearer_end() {
    let mut list = LinkedList::<i32>::new();
    for value in 1..=5 {
        list.push_back(value);
    }

    // A lookup walks from the nearer end: at most min(i, len - 1 - i) + 1
    // node visits, met exactly.
    assert_eq!(list.lookup_visits(0), 1);
    assert_eq!(list.lookup_visits(1), 2);
    assert_eq!(list.lookup_visits(2), 3);
    assert_eq!(list.lookup_visits(3), 2);
    assert_eq!(list.lookup_visits(4), 1);
}

#[test]
fn insert_then_remove_round_trip_on_list() {
    let mut list = LinkedList::<i32>::new();
    list.push_back(10);
    list.push_back(20);
    list.push_back(30);

    list.insert(99, 2);
    assert_eq!(list.remove(2), 99);

    assert_eq!(list.len(), 3);
    assert_eq!(list.at(0), 10);
    assert_eq!(list.at(1), 20);
    assert_eq!(list.at(2), 30);
}
