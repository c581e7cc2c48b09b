use nimix::atomic_stack::AtomicStack;

#[test]
fn test_push_pop() {
    let mut stack: AtomicStack<i32> = AtomicStack::new();
    stack.push(1);
    stack.push(2);
    stack.push(3);

    assert_eq!(stack.pop(), Some(3));
    assert_eq!(stack.pop(), Some(2));
    assert_eq!(stack.pop(), Some(1));
    assert_eq!(stack.pop(), None);
}

#[test]
fn test_is_empty() {
    let mut stack: AtomicStack<i32> = AtomicStack::new();
    assert!(stack.pop().is_none());

    stack.push(42);

    assert!(stack.pop().is_some());
    assert!(stack.pop().is_none());
}

#[test]
fn test_drain_to_vec() {
    let mut stack: AtomicStack<i32> = AtomicStack::new();
    stack.push(1);
    stack.push(2);
    stack.push(3);

    let vec = stack.drain_to_vec();
    assert_eq!(vec.len(), 3);
    assert!(stack.pop().is_none());
}
