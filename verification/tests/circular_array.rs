use computer_science::data_structure::CircularArray;

#[test]
fn data_structure_can_push() -> Result<(), ()> {
    let mut array = CircularArray::<i32, 4>::new();
    array.push_back(5)?;
    array.push_back(8)?;
    array.push_front(4)?;
    array.push_front(2)?;

    let should_be_array = [2, 4, 5, 8];
    let mut it = array.into_iter();
    let mut i = 0;
    while let Some(item) = it.next() {
        assert_eq!(item, should_be_array[i]);
        i += 1;
    }

    Ok(())
}

#[test]
fn data_structure_can_pop() -> Result<(), ()> {
    let mut array = CircularArray::<i32, 4>::new();
    array.push_back(1)?;
    array.push_back(4)?;
    array.push_back(6)?;
    array.push_back(7)?;
    array.pop_front();
    array.pop_back();

    let should_be_array = [4, 6];
    let mut it = array.into_iter();
    let mut i = 0;
    while let Some(item) = it.next() {
        assert_eq!(item, should_be_array[i]);
        i += 1;
    }

    Ok(())
}

#[test]
fn handles_overflow() -> Result<(), ()> {
    let mut array = CircularArray::<i32, 1>::new();
    array.push_back(1)?;
    let result = array.push_back(2);
    assert_eq!(result, Err(()));

    let result = array.push_front(2);
    assert_eq!(result, Err(()));

    Ok(())
}

#[test]
fn gets_correct_size() -> Result<(), ()> {
    let mut array = CircularArray::<i32, 2>::new();
    assert_eq!(array.len(), 0);
    array.push_back(1)?;
    assert_eq!(array.len(), 1);
    array.push_front(2)?;
    assert_eq!(array.len(), 2);
    array.pop_back();
    assert_eq!(array.len(), 1);
    array.pop_front();
    assert_eq!(array.len(), 0);

    Ok(())
}

#[test]
fn empty_ring_returns_no_value() {
    let mut array = CircularArray::<i32, 3>::new();
    assert_eq!(array.pop_front(), None);
    assert_eq!(array.pop_back(), None);
    assert_eq!(array.len(), 0);
}

#[test]
fn wraps_around_the_slot_region() -> Result<(), ()> {
    let mut array = CircularArray::<i32, 3>::new();
    array.push_back(1)?;
    array.push_back(2)?;
    assert_eq!(array.pop_front(), Some(1));
    array.push_back(3)?;
    array.push_back(4)?;
    assert_eq!(array.len(), 3);

    let should_be_array = [2, 3, 4];
    let mut it = array.into_iter();
    let mut i = 0;
    while let Some(item) = it.next() {
        assert_eq!(item, should_be_array[i]);
        i += 1;
    }
    assert_eq!(i, 3);

    Ok(())
}
