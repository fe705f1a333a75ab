use forth_interpreter::error::ForthError;
use forth_interpreter::stack::Stack;
use forth_interpreter::text::{chars_of, parse_i16, push_decimal, text_is};
use forth_interpreter::word_definitions::WordMap;

fn literal(text: &str) -> Option<i16> {
    let chars: Vec<char> = text.chars().collect();
    parse_i16(&chars)
}

fn decimal(v: i16) -> String {
    let mut out = Vec::new();
    push_decimal(&mut out, v);
    out.iter().collect()
}

#[test]
fn test_stack_capacity_is_half_the_bytes() {
    let mut stack = Stack::new(5);
    assert_eq!(stack.max_len(), 2);
    assert_eq!(stack.len(), 0);
    assert_eq!(stack.peek(), None);
    assert_eq!(stack.push(10), Ok(()));
    assert_eq!(stack.push(20), Ok(()));
    assert_eq!(stack.push(30), Err(ForthError::StackOverflow));
    assert_eq!(stack.len(), 2);
    assert_eq!(stack.peek(), Some(20));
    assert_eq!(stack.pop(), Some(20));
    assert_eq!(stack.pop(), Some(10));
    assert_eq!(stack.pop(), None);
    assert_eq!(stack.len(), 0);
}

#[test]
fn test_default_capacity() {
    assert_eq!(Stack::new(128 * 1024).max_len(), 65536);
}

#[test]
fn test_pop_pair_consumes_what_is_there() {
    let mut stack = Stack::new(64);
    stack.push(1).unwrap();
    stack.push(2).unwrap();
    stack.push(3).unwrap();
    assert_eq!(stack.pop_pair(), Ok((3, 2)));
    assert_eq!(stack.pop_pair(), Err(ForthError::StackUnderflow));
    assert_eq!(stack.len(), 0);
    assert_eq!(stack.pop_pair(), Err(ForthError::StackUnderflow));
}

#[test]
fn test_pop_value_fails_on_empty_stack() {
    let mut stack = Stack::new(64);
    assert_eq!(stack.pop_value(), Err(ForthError::StackUnderflow));
    stack.push(-9).unwrap();
    assert_eq!(stack.pop_value(), Ok(-9));
    assert_eq!(stack.pop_value(), Err(ForthError::StackUnderflow));
    assert_eq!(stack.len(), 0);
}

#[test]
fn test_integer_literals() {
    assert_eq!(literal("0"), Some(0));
    assert_eq!(literal("32767"), Some(32767));
    assert_eq!(literal("-32768"), Some(-32768));
    assert_eq!(literal("+5"), Some(5));
    assert_eq!(literal("-0"), Some(0));
    assert_eq!(literal("00012"), Some(12));
    assert_eq!(literal("000000000000000000000000000001"), Some(1));
    assert_eq!(literal("32768"), None);
    assert_eq!(literal("-32769"), None);
    assert_eq!(literal("99999999999999999999999999"), None);
    assert_eq!(literal(""), None);
    assert_eq!(literal("-"), None);
    assert_eq!(literal("+"), None);
    assert_eq!(literal("1a"), None);
    assert_eq!(literal("--1"), None);
    assert_eq!(literal("+-1"), None);
    assert_eq!(literal("1 "), None);
}

#[test]
fn test_literal_agrees_with_the_standard_parser() {
    for text in ["7", "-7", "+7", "007", "40000", "-40000", "x", "", "-", "3.5", "١٢"] {
        assert_eq!(literal(text), text.parse::<i16>().ok(), "{}", text);
    }
}

#[test]
fn test_decimal_notation() {
    assert_eq!(decimal(0), "0");
    assert_eq!(decimal(7), "7");
    assert_eq!(decimal(105), "105");
    assert_eq!(decimal(-1), "-1");
    assert_eq!(decimal(32767), "32767");
    assert_eq!(decimal(-32768), "-32768");
}

#[test]
fn test_decimal_notation_reads_back() {
    for v in [i16::MIN, -1000, -1, 0, 1, 9, 10, 99, 100, 12345, i16::MAX] {
        assert_eq!(literal(&decimal(v)), Some(v));
        assert_eq!(decimal(v), v.to_string());
    }
}

#[test]
fn test_text_comparison() {
    assert_eq!(chars_of("DÜP"), vec!['D', 'Ü', 'P']);
    assert!(text_is(&chars_of("DUP"), &['D', 'U', 'P']));
    assert!(!text_is(&chars_of("DUP"), &['D', 'U']));
    assert!(!text_is(&chars_of("DUP"), &['D', 'U', 'B']));
    assert!(text_is(&chars_of(""), &[]));
}

#[test]
fn test_error_messages() {
    assert_eq!(ForthError::StackUnderflow.message(), "stack-underflow");
    assert_eq!(ForthError::StackOverflow.message(), "stack-overflow");
    assert_eq!(ForthError::DivisionByZero.message(), "division-by-zero");
    assert_eq!(ForthError::UnknownToken.message(), "?");
    assert_eq!(ForthError::InvalidWordName.message(), "invalid-word");
    assert_eq!(ForthError::MissingWordName.message(), "Error: Se esperaba un nombre para la palabra");
    assert_eq!(ForthError::UnterminatedDefinition.message(), "Error: Se esperaba ';' al final de la definición");
    assert_eq!(ForthError::MissingThen.message(), "Error: Falta 'THEN' en la estructura de control");
    assert_eq!(ForthError::UnterminatedString.message(), "Error: cadena de texto sin comilla final");
    assert_eq!(ForthError::RecursionLimitExceeded.message(), "recursion-limit-exceeded");
}

#[test]
fn test_dictionary_lookup() {
    let mut words = WordMap::new();
    assert!(!words.contains("FOO"));
    assert_eq!(words.get("FOO"), None);
    words.insert(chars_of("FOO"), Vec::new());
    assert!(words.contains("FOO"));
    assert!(!words.contains("foo"));
    assert_eq!(words.get("FOO"), Some(Vec::new()));
    words.insert(chars_of("BAR"), forth_interpreter::token::tokenize("1 x"));
    words.insert(chars_of("FOO"), forth_interpreter::token::tokenize("2"));
    assert_eq!(words.get("FOO"), Some(vec![vec!['2']]));
    assert_eq!(words.get("BAR"), Some(vec![vec!['1'], vec!['x']]));
}
