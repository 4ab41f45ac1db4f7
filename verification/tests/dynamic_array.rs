use computer_science::data_structure::dynamic_array::DynamicArray;

#[test]
fn can_push_pop() {
    let mut array = DynamicArray::<i32>::new();
    array.push(12);
    array.push(4);
    array.push(5);
    array.push(33);
    let pop_result = array.pop();

    let should_be_array = [12, 4, 5];
    let mut it = array.into_iter();
    let mut i = 0;
    while let Some(item) = it.next() {
        assert_eq!(item, should_be_array[i]);
        i += 1;
    }

    assert_eq!(pop_result.unwrap(), 33);
}

#[test]
fn pop_empty_returns_none() {
    let mut array = DynamicArray::<i32>::new();

    let result = array.pop();
    assert_eq!(result, None);
}

#[test]
fn grows_correctly() {
    let mut array = DynamicArray::<i32>::new();

    assert_eq!(array.capacity(), 0);
    array.push(0);
    assert_eq!(array.capacity(), 1);
    array.push(0);
    assert_eq!(array.capacity(), 2);
    array.push(0);
    assert_eq!(array.capacity(), 4);
    for _ in 1..=2 {
        array.push(0);
    }
    assert_eq!(array.capacity(), 8);
}

#[test]
fn can_insert_remove() {
    let mut array = DynamicArray::<i32>::new();

    array.push(1);
    array.push(3);
    array.push(4);

    array.insert(5, 3);
    let remove_result = array.remove(2);
    array.insert(2, 1);

    let should_be_array = [1, 2, 3, 5];
    let mut it = array.into_iter();
    let mut i = 0;
    while let Some(item) = it.next() {
        assert_eq!(item, should_be_array[i]);
        i += 1;
    }

    assert_eq!(remove_result, 4);
}

#[test]
fn pops_return_pushes_in_reverse() {
    let mut array = DynamicArray::<i32>::new();
    array.push(1);
    array.push(2);
    array.push(3);

    assert_eq!(array.pop(), Some(3));
    assert_eq!(array.pop(), Some(2));
    assert_eq!(array.pop(), Some(1));
    assert_eq!(array.pop(), None);
}

#[test]
fn capacity_progression_with_pop() {
    let mut array = DynamicArray::<i32>::new();
    assert_eq!(array.capacity(), 0);
    array.push(12);
    assert_eq!(array.capacity(), 1);
    array.push(4);
    assert_eq!(array.capacity(), 2);
    array.push(5);
    assert_eq!(array.capacity(), 4);
    array.push(33);
    assert_eq!(array.capacity(), 4);

    assert_eq!(array.pop(), Some(33));
    assert_eq!(array.capacity(), 4);
}

#[test]
fn insert_then_remove_round_trip_on_buffer() {
    let mut array = DynamicArray::<i32>::new();
    array.push(10);
    array.push(20);
    array.push(30);

    array.insert(99, 1);
    let removed = array.remove(1);
    assert_eq!(removed, 99);

    let should_be_array = [10, 20, 30];
    let mut it = array.into_iter();
    let mut i = 0;
    while let Some(item) = it.next() {
        assert_eq!(item, should_be_array[i]);
        i += 1;
    }
    assert_eq!(i, 3);
}
