use forth_interpreter::arithmetic_operations::apply_arithmetic_operation;
use forth_interpreter::boolean_operations::apply_boolean_operation;
use forth_interpreter::conditional_operations::{apply_conditional_operation, parse_conditional_branches};
use forth_interpreter::error::ForthError;
use forth_interpreter::forth_basic_operations::apply_forth_operation;
use forth_interpreter::output_operations::apply_output_operation;
use forth_interpreter::program::stack_snapshot;
use forth_interpreter::stack::Stack;
use forth_interpreter::token::{tokenize, Token, TokenCursor};
use forth_interpreter::word_definitions::WordMap;

fn raws(tokens: &[Token]) -> Vec<String> {
    tokens.iter().map(|t| t.raw.iter().collect()).collect()
}

#[test]
fn test_cr_prints_a_line_feed() {
    let mut stack = Stack::new(64);
    let source = tokenize("");
    let mut tokens = TokenCursor::new(&source);
    let mut out = Vec::new();
    assert_eq!(apply_output_operation(&mut stack, "CR", &mut tokens, &mut out), Ok(()));
    assert_eq!(out, vec!['\n']);
}

#[test]
fn test_point_pops_and_prints() {
    let mut stack = Stack::new(64);
    let source = tokenize("");
    let mut tokens = TokenCursor::new(&source);
    let mut out = vec!['>'];
    stack.push(7).unwrap();
    stack.push(-42).unwrap();
    assert_eq!(apply_output_operation(&mut stack, ".", &mut tokens, &mut out), Ok(()));
    assert_eq!(out, vec!['>', '-', '4', '2']);
    assert_eq!(stack.len(), 1);
    assert_eq!(apply_output_operation(&mut stack, ".", &mut tokens, &mut out), Ok(()));
    assert_eq!(
        apply_output_operation(&mut stack, ".", &mut tokens, &mut out),
        Err(ForthError::StackUnderflow)
    );
    assert_eq!(out, vec!['>', '-', '4', '2', '7']);
}

#[test]
fn test_emit_prints_low_byte_as_character() {
    let mut stack = Stack::new(64);
    let source = tokenize("");
    let mut tokens = TokenCursor::new(&source);
    let mut out = Vec::new();
    stack.push(-1).unwrap();
    stack.push(233).unwrap();
    stack.push(72).unwrap();
    assert_eq!(apply_output_operation(&mut stack, "EMIT", &mut tokens, &mut out), Ok(()));
    assert_eq!(apply_output_operation(&mut stack, "EMIT", &mut tokens, &mut out), Ok(()));
    assert_eq!(apply_output_operation(&mut stack, "EMIT", &mut tokens, &mut out), Ok(()));
    assert_eq!(out, vec!['H', 'é', 'ÿ']);
    assert_eq!(
        apply_output_operation(&mut stack, "EMIT", &mut tokens, &mut out),
        Err(ForthError::StackUnderflow)
    );
}

#[test]
fn test_string_literal_reads_from_the_cursor() {
    let mut stack = Stack::new(64);
    let source = tokenize("Hola  Mundo\" 5");
    let mut tokens = TokenCursor::new(&source);
    let mut out = Vec::new();
    assert_eq!(apply_output_operation(&mut stack, ".\"", &mut tokens, &mut out), Ok(()));
    assert_eq!(out.iter().collect::<String>(), "Hola Mundo");
    assert_eq!(tokens.remaining_len(), 1);
    assert_eq!(tokens.next().map(|t| t.raw.clone()), Some(vec!['5']));
}

#[test]
fn test_unterminated_string_prints_nothing() {
    let mut stack = Stack::new(64);
    let source = tokenize("Hola Mundo");
    let mut tokens = TokenCursor::new(&source);
    let mut out = Vec::new();
    assert_eq!(
        apply_output_operation(&mut stack, ".\"", &mut tokens, &mut out),
        Err(ForthError::UnterminatedString)
    );
    assert_eq!(out.len(), 0);
    assert_eq!(tokens.remaining_len(), 0);
}

#[test]
fn test_unknown_operators_are_refused() {
    let mut stack = Stack::new(64);
    let source = tokenize("1 THEN");
    let mut tokens = TokenCursor::new(&source);
    let mut words = WordMap::new();
    let mut out = Vec::new();
    stack.push(1).unwrap();
    stack.push(2).unwrap();
    assert_eq!(apply_arithmetic_operation(&mut stack, "%").map_err(|e| e.message()), Err("?".to_string()));
    assert_eq!(apply_boolean_operation(&mut stack, "and"), Err(ForthError::UnknownToken));
    assert_eq!(apply_forth_operation(&mut stack, "NIP"), Err(ForthError::UnknownToken));
    assert_eq!(apply_output_operation(&mut stack, "cr", &mut tokens, &mut out), Err(ForthError::UnknownToken));
    assert_eq!(
        apply_conditional_operation(&mut stack, "ELSE", &mut tokens, &mut words, &mut out, 8),
        Err(ForthError::UnknownToken)
    );
    assert_eq!(stack.len(), 2);
    assert_eq!(tokens.remaining_len(), 2);
    assert_eq!(out.len(), 0);
}

#[test]
fn test_branches_are_split_at_the_outer_else_and_then() {
    let source = tokenize("1 if 2 else 3 then ELSE 4 IF 5 THEN Then 6");
    let mut tokens = TokenCursor::new(&source);
    let (first, second, found) = parse_conditional_branches(&mut tokens);
    assert!(found);
    assert_eq!(raws(&first), vec!["1", "if", "2", "else", "3", "then"]);
    assert_eq!(raws(&second), vec!["4", "IF", "5", "THEN"]);
    assert_eq!(tokens.remaining_len(), 1);
}

#[test]
fn test_branches_without_then() {
    let source = tokenize("1 IF 2 THEN 3");
    let mut tokens = TokenCursor::new(&source);
    let (first, second, found) = parse_conditional_branches(&mut tokens);
    assert!(!found);
    assert_eq!(raws(&first), vec!["1", "IF", "2", "THEN", "3"]);
    assert_eq!(second.len(), 0);
    assert_eq!(tokens.remaining_len(), 0);
}

#[test]
fn test_second_else_is_dropped() {
    let source = tokenize("1 ELSE 2 ELSE 3 THEN");
    let mut tokens = TokenCursor::new(&source);
    let (first, second, found) = parse_conditional_branches(&mut tokens);
    assert!(found);
    assert_eq!(raws(&first), vec!["1"]);
    assert_eq!(raws(&second), vec!["2", "3"]);
}

#[test]
fn test_conditional_at_depth_zero() {
    let mut stack = Stack::new(64);
    let source = tokenize("1 THEN 2");
    let mut tokens = TokenCursor::new(&source);
    let mut words = WordMap::new();
    let mut out = Vec::new();
    stack.push(9).unwrap();
    stack.push(-1).unwrap();
    assert_eq!(
        apply_conditional_operation(&mut stack, "IF", &mut tokens, &mut words, &mut out, 0),
        Err(ForthError::RecursionLimitExceeded)
    );
    assert_eq!(stack.len(), 1);
    assert_eq!(tokens.remaining_len(), 1);
}

#[test]
fn test_snapshot_lists_values_bottom_first() {
    let mut stack = Stack::new(64);
    stack.push(1).unwrap();
    stack.push(-20).unwrap();
    stack.push(300).unwrap();
    assert_eq!(stack_snapshot(&mut stack).iter().collect::<String>(), "1 -20 300 ");
    assert_eq!(stack.len(), 0);
    assert_eq!(stack_snapshot(&mut stack).len(), 0);
}

#[test]
fn test_rot_moves_bottom_to_top() {
    let mut stack = Stack::new(4);
    stack.push(1).unwrap();
    stack.push(2).unwrap();
    assert_eq!(apply_forth_operation(&mut stack, "ROT"), Ok(()));
    assert_eq!(stack.pop(), Some(1));
    assert_eq!(stack.pop(), Some(2));
}

#[test]
fn test_dup_on_full_stack_leaves_it_unchanged() {
    let mut stack = Stack::new(4);
    stack.push(1).unwrap();
    stack.push(2).unwrap();
    assert_eq!(apply_forth_operation(&mut stack, "DUP"), Err(ForthError::StackOverflow));
    assert_eq!(stack.pop(), Some(2));
    assert_eq!(stack.pop(), Some(1));
    assert_eq!(stack.pop(), None);
}
