use computer_science::data_structure::stack::Stack;

#[test]
fn stack_can_push() {
    let mut stack = Stack::<i32>::new();
    stack.push(4);
    stack.push(2);

    let should_be_array = [2, 4];
    let mut it = stack.into_iter();
    let mut i = 0;
    while let Some(item) = it.next() {
        assert_eq!(item, should_be_array[i]);
        i += 1;
    }
}

#[test]
fn stack_can_pop() {
    let mut stack = Stack::<i32>::new();
    stack.push(4);
    stack.push(2);

    assert_eq!(stack.len(), 2);
    assert_eq!(stack.pop().unwrap(), 2);
    assert_eq!(stack.pop().unwrap(), 4);
    assert_eq!(stack.len(), 0);
}

#[test]
fn empty_stack_returns_no_value() {
    let mut stack = Stack::<i32>::new();
    assert_eq!(stack.pop(), None);
    assert_eq!(stack.len(), 0);
}
