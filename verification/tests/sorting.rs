use computer_science::algorithm::bubble_sort::bubble_sort;
use computer_science::algorithm::insertion_sort::insertion_sort;
use computer_science::algorithm::merge_sort::merge_sort;
use computer_science::algorithm::quick_sort::quick_sort;
use computer_science::algorithm::selection_sort::selection_sort;

#[test]
fn bubble_sort_sorts() {
    let mut list = vec![4, 6, 2, 9, 1, 0, 3, 3];
    bubble_sort(&mut list);

    let should_be_array = [0, 1, 2, 3, 3, 4, 6, 9];
    for (i, item) in list.into_iter().enumerate() {
        assert_eq!(item, should_be_array[i]);
    }
}

#[test]
fn bubble_sort_handles_empty() {
    let mut list: Vec<i64> = vec![];
    bubble_sort(&mut list);
    assert!(list.is_empty());
}

#[test]
fn bubble_sort_handles_single_value() {
    let mut list: Vec<i64> = vec![1];
    bubble_sort(&mut list);
    assert_eq!(list.len(), 1);
    assert_eq!(list[0], 1);
}

#[test]
fn insertion_sort_sorts() {
    let mut list = vec![4, 6, 2, 9, 1, 0, 3, 3];
    insertion_sort(&mut list);

    let should_be_array = [0, 1, 2, 3, 3, 4, 6, 9];
    for (i, item) in list.into_iter().enumerate() {
        assert_eq!(item, should_be_array[i]);
    }
}

#[test]
fn insertion_sort_handles_empty() {
    let mut list: Vec<i64> = vec![];
    insertion_sort(&mut list);
    assert!(list.is_empty());
}

#[test]
fn insertion_sort_handles_single_value() {
    let mut list: Vec<i64> = vec![1];
    insertion_sort(&mut list);
    assert_eq!(list.len(), 1);
    assert_eq!(list[0], 1);
}

#[test]
fn merge_sort_sorts() {
    let mut list = vec![4, 6, 2, 9, 1, 0, 3, 3];
    merge_sort(&mut list);

    let should_be_array = [0, 1, 2, 3, 3, 4, 6, 9];
    for (i, item) in list.into_iter().enumerate() {
        assert_eq!(item, should_be_array[i]);
    }
}

#[test]
fn merge_sort_handles_empty() {
    let mut list: Vec<i64> = vec![];
    merge_sort(&mut list);
    assert!(list.is_empty());
}

#[test]
fn merge_sort_handles_single_value() {
    let mut list: Vec<i64> = vec![1];
    merge_sort(&mut list);
    assert_eq!(list.len(), 1);
    assert_eq!(list[0], 1);
}

#[test]
fn quick_sort_sorts() {
    let mut list = vec![4, 6, 2, 9, 1, 0, 3, 3];
    quick_sort(&mut list);

    let should_be_array = [0, 1, 2, 3, 3, 4, 6, 9];
    for (i, item) in list.into_iter().enumerate() {
        assert_eq!(item, should_be_array[i]);
    }
}

#[test]
fn quick_sort_handles_empty() {
    let mut list: Vec<i64> = vec![];
    quick_sort(&mut list);
    assert!(list.is_empty());
}

#[test]
fn quick_sort_handles_single_value() {
    let mut list: Vec<i64> = vec![1];
    quick_sort(&mut list);
    assert_eq!(list.len(), 1);
    assert_eq!(list[0], 1);
}

#[test]
fn selection_sort_sorts() {
    let mut list = vec![4, 6, 2, 9, 1, 0, 3, 3];
    selection_sort(&mut list);

    let should_be_array = [0, 1, 2, 3, 3, 4, 6, 9];
    for (i, item) in list.into_iter().enumerate() {
        assert_eq!(item, should_be_array[i]);
    }
}

#[test]
fn selection_sort_handles_empty() {
    let mut list: Vec<i64> = vec![];
    selection_sort(&mut list);
    assert!(list.is_empty());
}
