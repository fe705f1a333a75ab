use forth_interpreter::conditional_operations::apply_conditional_operation;
use forth_interpreter::program::RECURSION_LIMIT;
use forth_interpreter::stack::Stack;
use forth_interpreter::token::{tokenize, TokenCursor};
use forth_interpreter::word_definitions::WordMap;

#[test]
fn test_if_true_then_executes_branch() {
    let mut stack = Stack::new(128 * 1024);
    let input = "42 THEN";
    let source = tokenize(input);
    let mut tokens = TokenCursor::new(&source);
    let mut definitions = WordMap::new();
    let mut out = Vec::new();

    stack.push(-1).unwrap();
    let result = apply_conditional_operation(&mut stack, "IF", &mut tokens, &mut definitions, &mut out, RECURSION_LIMIT);
    assert!(result.is_ok());
    assert_eq!(stack.pop(), Some(42));
}

#[test]
fn test_if_false_then_skips_branch() {
    let mut stack = Stack::new(128 * 1024);
    let input = "42 THEN";
    let source = tokenize(input);
    let mut tokens = TokenCursor::new(&source);
    let mut definitions = WordMap::new();
    let mut out = Vec::new();

    stack.push(0).unwrap();
    let result = apply_conditional_operation(&mut stack, "IF", &mut tokens, &mut definitions, &mut out, RECURSION_LIMIT);
    assert!(result.is_ok());
    assert_eq!(stack.pop(), None);
}

#[test]
fn test_if_else_true_executes_if_branch() {
    let mut stack = Stack::new(128 * 1024);
    let input = "10 ELSE 20 THEN";
    let source = tokenize(input);
    let mut tokens = TokenCursor::new(&source);
    let mut definitions = WordMap::new();
    let mut out = Vec::new();

    stack.push(1).unwrap();
    let result = apply_conditional_operation(&mut stack, "IF", &mut tokens, &mut definitions, &mut out, RECURSION_LIMIT);
    assert!(result.is_ok());
    assert_eq!(stack.pop(), Some(10));
}

#[test]
fn test_if_else_false_executes_else_branch() {
    let mut stack = Stack::new(128 * 1024);
    let input = "10 ELSE 20 THEN";
    let source = tokenize(input);
    let mut tokens = TokenCursor::new(&source);
    let mut definitions = WordMap::new();
    let mut out = Vec::new();

    stack.push(0).unwrap();
    let result = apply_conditional_operation(&mut stack, "IF", &mut tokens, &mut definitions, &mut out, RECURSION_LIMIT);
    assert!(result.is_ok());
    assert_eq!(stack.pop(), Some(20));
}

#[test]
fn test_missing_then_should_fail() {
    let mut stack = Stack::new(128 * 1024);
    let input = "42";
    let source = tokenize(input);
    let mut tokens = TokenCursor::new(&source);
    let mut definitions = WordMap::new();
    let mut out = Vec::new();

    stack.push(1).unwrap();
    let result = apply_conditional_operation(&mut stack, "IF", &mut tokens, &mut definitions, &mut out, RECURSION_LIMIT);
    assert!(result.is_err());
}

#[test]
fn test_else_without_if_should_fail() {
    let mut stack = Stack::new(128 * 1024);
    let input = "ELSE 99 THEN";
    let source = tokenize(input);
    let mut tokens = TokenCursor::new(&source);
    let mut definitions = WordMap::new();
    let mut out = Vec::new();

    // Misuse: no condition was pushed before the conditional.
    let result = apply_conditional_operation(&mut stack, "IF", &mut tokens, &mut definitions, &mut out, RECURSION_LIMIT);
    assert!(result.is_err());
}
