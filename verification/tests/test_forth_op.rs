use forth_interpreter::forth_basic_operations::apply_forth_operation;
use forth_interpreter::stack::Stack;

#[test]
fn test_dup() {
    let mut stack = Stack::new(128 * 1024);

    stack.push(5).unwrap();

    let result = apply_forth_operation(&mut stack, "DUP");
    assert_eq!(result, Ok(()));
    assert_eq!(stack.pop(), Some(5));
    assert_eq!(stack.pop(), Some(5));
}

#[test]
fn test_drop() {
    let mut stack = Stack::new(128 * 1024);

    stack.push(10).unwrap();

    let result = apply_forth_operation(&mut stack, "DROP");
    assert_eq!(result, Ok(()));
    assert_eq!(stack.pop(), None);
}

#[test]
fn test_swap() {
    let mut stack = Stack::new(128 * 1024);

    stack.push(1).unwrap();
    stack.push(2).unwrap();

    let result = apply_forth_operation(&mut stack, "SWAP");
    assert_eq!(result, Ok(()));
    assert_eq!(stack.pop(), Some(1));
    assert_eq!(stack.pop(), Some(2));
}

#[test]
fn test_over() {
    let mut stack = Stack::new(128 * 1024);

    stack.push(3).unwrap();
    stack.push(4).unwrap();

    let result = apply_forth_operation(&mut stack, "OVER");
    assert_eq!(result, Ok(()));
    assert_eq!(stack.pop(), Some(3));
    assert_eq!(stack.pop(), Some(4));
    assert_eq!(stack.pop(), Some(3));
}

#[test]
fn test_rot() {
    let mut stack = Stack::new(128 * 1024);

    stack.push(1).unwrap();
    stack.push(2).unwrap();
    stack.push(3).unwrap();
    stack.push(4).unwrap();
    stack.push(5).unwrap();

    let result = apply_forth_operation(&mut stack, "ROT");

    assert_eq!(result, Ok(()));
    assert_eq!(stack.pop(), Some(1)); // the value that was at the bottom is now on top
    assert_eq!(stack.pop(), Some(5));
    assert_eq!(stack.pop(), Some(4));
    assert_eq!(stack.pop(), Some(3));
    assert_eq!(stack.pop(), Some(2));
}

#[test]
fn test_dup_not_enough_elements() {
    let mut stack = Stack::new(128 * 1024);

    let result = apply_forth_operation(&mut stack, "DUP");
    assert_eq!(result.map_err(|e| e.message()), Err("stack-underflow".to_string()));
}

#[test]
fn test_drop_not_enough_elements() {
    let mut stack = Stack::new(128 * 1024);

    let result = apply_forth_operation(&mut stack, "DROP");
    assert_eq!(result.map_err(|e| e.message()), Err("stack-underflow".to_string()));
}

#[test]
fn test_swap_not_enough_elements() {
    let mut stack = Stack::new(128 * 1024);

    stack.push(1).unwrap();

    let result = apply_forth_operation(&mut stack, "SWAP");
    assert_eq!(result.map_err(|e| e.message()), Err("stack-underflow".to_string()));
}

#[test]
fn test_over_not_enough_elements() {
    let mut stack = Stack::new(128 * 1024);

    let result = apply_forth_operation(&mut stack, "OVER");
    assert_eq!(result.map_err(|e| e.message()), Err("stack-underflow".to_string()));
}

#[test]
fn test_rot_not_enough_elements() {
    let mut stack = Stack::new(128 * 1024);

    let result = apply_forth_operation(&mut stack, "ROT");
    assert_eq!(result.map_err(|e| e.message()), Err("stack-underflow".to_string()));
}
