use forth_interpreter::arithmetic_operations::apply_arithmetic_operation;
use forth_interpreter::stack::Stack;

#[test]
fn test_addition() {
    let mut stack = Stack::new(128 * 1024);

    stack.push(2).unwrap();
    stack.push(3).unwrap();

    let result = apply_arithmetic_operation(&mut stack, "+");
    assert_eq!(result, Ok(()));
    assert_eq!(stack.pop(), Some(5));
}

#[test]
fn test_subtraction() {
    let mut stack = Stack::new(128 * 1024);

    stack.push(5).unwrap();
    stack.push(3).unwrap();

    let result = apply_arithmetic_operation(&mut stack, "-");
    assert_eq!(result, Ok(()));
    assert_eq!(stack.pop(), Some(2));
}

#[test]
fn test_multiplication() {
    let mut stack = Stack::new(128 * 1024);

    stack.push(3).unwrap();
    stack.push(4).unwrap();

    let result = apply_arithmetic_operation(&mut stack, "*");
    assert_eq!(result, Ok(()));
    assert_eq!(stack.pop(), Some(12));
}

#[test]
fn test_division() {
    let mut stack = Stack::new(128 * 1024);

    stack.push(12).unwrap();
    stack.push(4).unwrap();

    let result = apply_arithmetic_operation(&mut stack, "/");
    assert_eq!(result, Ok(()));
    assert_eq!(stack.pop(), Some(3));
}

#[test]
fn test_division_by_zero() {
    let mut stack = Stack::new(128 * 1024);

    stack.push(12).unwrap();
    stack.push(0).unwrap();

    let result = apply_arithmetic_operation(&mut stack, "/");
    assert_eq!(result.map_err(|e| e.message()), Err("division-by-zero".to_string()));
}

#[test]
fn test_not_enough_elements_for_addition() {
    let mut stack = Stack::new(128 * 1024);

    stack.push(2).unwrap();

    let result = apply_arithmetic_operation(&mut stack, "+");
    assert_eq!(result.map_err(|e| e.message()), Err("stack-underflow".to_string()));
}

#[test]
fn test_not_enough_elements_for_subtraction() {
    let mut stack = Stack::new(128 * 1024);

    stack.push(2).unwrap();

    let result = apply_arithmetic_operation(&mut stack, "-");
    assert_eq!(result.map_err(|e| e.message()), Err("stack-underflow".to_string()));
}

#[test]
fn test_not_enough_elements_for_multiplication() {
    let mut stack = Stack::new(128 * 1024);

    stack.push(2).unwrap();

    let result = apply_arithmetic_operation(&mut stack, "*");
    assert_eq!(result.map_err(|e| e.message()), Err("stack-underflow".to_string()));
}

#[test]
fn test_not_enough_elements_for_division() {
    let mut stack = Stack::new(128 * 1024);

    stack.push(2).unwrap();

    let result = apply_arithmetic_operation(&mut stack, "/");
    assert_eq!(result.map_err(|e| e.message()), Err("stack-underflow".to_string()));
}

#[test]
fn test_chained_arithmetic_operations() {
    let mut stack = Stack::new(128 * 1024);

    stack.push(3).unwrap();
    stack.push(4).unwrap();
    assert_eq!(apply_arithmetic_operation(&mut stack, "+"), Ok(()));

    stack.push(2).unwrap();
    assert_eq!(apply_arithmetic_operation(&mut stack, "*"), Ok(()));

    stack.push(5).unwrap();
    assert_eq!(apply_arithmetic_operation(&mut stack, "-"), Ok(()));

    assert_eq!(stack.pop(), Some(9));
}
