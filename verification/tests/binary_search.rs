use computer_science::algorithm::binary_search::binary_search;

#[test]
fn returns_correct_index() {
    let list = vec![1, 3, 8, 10, 19, 27];

    let index = binary_search(&list, 3);
    assert_eq!(index, Some(1));
}

#[test]
fn returns_none() {
    let list = vec![3, 5, 9];

    let index = binary_search(&list, 4);
    assert_eq!(index, None);
}

#[test]
fn binary_search_handles_empty() {
    let list = vec![];

    let index = binary_search(&list, 2);
    assert_eq!(index, None);
}

#[test]
fn result_form_returns_correct_index() {
    let list = vec![1, 3, 5];

    let result = computer_science::algorithm::binary_search(list, 5);
    assert_eq!(result, Ok(2));
}

#[test]
fn result_form_returns_err_when_absent() {
    let list = vec![1, 3, 5];

    let result = computer_science::algorithm::binary_search(list, 4);
    assert_eq!(result, Err(()));
}
