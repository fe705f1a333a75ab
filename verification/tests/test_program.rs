use forth_interpreter::error::ForthError;
use forth_interpreter::program::{
    execute_operation, execute_program, execute_tokens, parse_stack_size, DEFAULT_STACK_SIZE, RECURSION_LIMIT,
};
use forth_interpreter::stack::Stack;
use forth_interpreter::token::{tokenize, Token};
use forth_interpreter::word_definitions::WordMap;

fn run_with_capacity(source: &str, bytes: usize) -> (Result<(), ForthError>, Vec<i16>, String) {
    let mut stack = Stack::new(bytes);
    let mut words = WordMap::new();
    let mut out = Vec::new();
    let result = execute_operation(&mut stack, source.to_string(), &mut words, &mut out);
    let mut values = Vec::new();
    while let Some(v) = stack.pop() {
        values.push(v);
    }
    values.reverse();
    (result, values, out.iter().collect())
}

fn run_program(source: &str) -> (Result<(), ForthError>, Vec<i16>, String) {
    run_with_capacity(source, 128 * 1024)
}

#[test]
fn test_sum_of_two_literals() {
    assert_eq!(run_program("7 5 +"), (Ok(()), vec![12], String::new()));
    assert_eq!(run_program("-300 45 +"), (Ok(()), vec![-255], String::new()));
}

#[test]
fn test_difference_product_quotient_of_two_literals() {
    assert_eq!(run_program("7 5 -"), (Ok(()), vec![2], String::new()));
    assert_eq!(run_program("5 7 -"), (Ok(()), vec![-2], String::new()));
    assert_eq!(run_program("-3 4 *"), (Ok(()), vec![-12], String::new()));
    assert_eq!(run_program("7 2 /"), (Ok(()), vec![3], String::new()));
}

#[test]
fn test_division_rounds_towards_zero() {
    assert_eq!(run_program("-7 2 /").1, vec![-3]);
    assert_eq!(run_program("7 -2 /").1, vec![-3]);
    assert_eq!(run_program("-7 -2 /").1, vec![3]);
}

#[test]
fn test_arithmetic_wraps_in_sixteen_bits() {
    assert_eq!(run_program("32767 1 +"), (Ok(()), vec![-32768], String::new()));
    assert_eq!(run_program("-32768 1 -"), (Ok(()), vec![32767], String::new()));
    assert_eq!(run_program("256 256 *"), (Ok(()), vec![0], String::new()));
    assert_eq!(run_program("-32768 -1 /"), (Ok(()), vec![-32768], String::new()));
}

#[test]
fn test_division_by_literal_zero_fails() {
    assert_eq!(run_program("5 0 /"), (Err(ForthError::DivisionByZero), vec![], String::new()));
    assert_eq!(run_program("-32768 0 /").0, Err(ForthError::DivisionByZero));
    assert_eq!(run_program("9 5 0 /"), (Err(ForthError::DivisionByZero), vec![9], String::new()));
}

#[test]
fn test_binary_operator_underflow_consumes_operand() {
    assert_eq!(run_program("+"), (Err(ForthError::StackUnderflow), vec![], String::new()));
    assert_eq!(run_program("1 +"), (Err(ForthError::StackUnderflow), vec![], String::new()));
    assert_eq!(run_program("1 AND").0, Err(ForthError::StackUnderflow));
    assert_eq!(run_program("1 SWAP"), (Err(ForthError::StackUnderflow), vec![], String::new()));
    assert_eq!(run_program("1 ROT"), (Err(ForthError::StackUnderflow), vec![1], String::new()));
}

#[test]
fn test_flattening_is_frozen_at_definition_time() {
    assert_eq!(run_program(": X 1 ; : Y X 2 ; : X 9 ; Y"), (Ok(()), vec![1, 2], String::new()));
}

#[test]
fn test_redefinition_overwrites() {
    assert_eq!(run_program(": X 1 ; : X 2 ; X").1, vec![2]);
}

#[test]
fn test_conditional_prints_selected_branch() {
    assert_eq!(run_program("1 IF 42 ELSE 99 THEN ."), (Ok(()), vec![], "42".to_string()));
    assert_eq!(run_program("0 IF 42 ELSE 99 THEN ."), (Ok(()), vec![], "99".to_string()));
}

#[test]
fn test_nested_conditionals() {
    assert_eq!(run_program("1 IF 1 IF 5 THEN THEN ."), (Ok(()), vec![], "5".to_string()));
    assert_eq!(run_program("0 IF 1 IF 5 THEN ELSE 7 THEN"), (Ok(()), vec![7], String::new()));
    assert_eq!(run_program("1 IF 0 IF 5 ELSE 6 THEN ELSE 7 THEN"), (Ok(()), vec![6], String::new()));
}

#[test]
fn test_conditional_without_then_fails() {
    assert_eq!(run_program("1 IF 5"), (Err(ForthError::MissingThen), vec![], String::new()));
    assert_eq!(run_program("1 IF 1 IF 5 THEN").0, Err(ForthError::MissingThen));
}

#[test]
fn test_conditional_consumes_only_its_own_tokens() {
    assert_eq!(run_program("1 IF 2 THEN 3"), (Ok(()), vec![2, 3], String::new()));
    assert_eq!(run_program("0 IF 2 THEN 3"), (Ok(()), vec![3], String::new()));
}

#[test]
fn test_end_to_end_arithmetic_and_output() {
    assert_eq!(run_program("25 10 + 3 * CR ."), (Ok(()), vec![], "\n105".to_string()));
}

#[test]
fn test_end_to_end_square() {
    assert_eq!(run_program(": SQUARE DUP * ; 4 SQUARE ."), (Ok(()), vec![], "16".to_string()));
}

#[test]
fn test_words_are_recognised_in_any_case() {
    assert_eq!(run_program("3 dup Swap over"), (Ok(()), vec![3, 3, 3], String::new()));
    assert_eq!(run_program(": foo 1 ; FOO Foo"), (Ok(()), vec![1, 1], String::new()));
    assert_eq!(run_program("1 if 2 else 3 then").1, vec![2]);
}

#[test]
fn test_tokens_are_split_at_any_whitespace() {
    assert_eq!(run_program("  1\n2\t3  \r\n 4 ").1, vec![1, 2, 3, 4]);
    assert_eq!(run_program(""), (Ok(()), vec![], String::new()));
    let tokens = tokenize(" ab  Cd\n");
    assert_eq!(tokens.len(), 2);
    assert_eq!(tokens[0].raw, vec!['a', 'b']);
    assert_eq!(tokens[0].upper, vec!['A', 'B']);
    assert_eq!(tokens[1].raw, vec!['C', 'd']);
    assert_eq!(tokens[1].upper, vec!['C', 'D']);
}

#[test]
fn test_string_literal_keeps_case_and_joins_with_spaces() {
    assert_eq!(run_program(".\" Hello  World\" CR").2, "Hello World\n");
    assert_eq!(run_program(".\" a\"\"\" 1"), (Ok(()), vec![1], "a".to_string()));
    assert_eq!(run_program(".\" \"").2, "");
}

#[test]
fn test_string_literal_without_closing_quote_fails() {
    assert_eq!(run_program("1 .\" abc def"), (Err(ForthError::UnterminatedString), vec![1], String::new()));
}

#[test]
fn test_emit_and_point() {
    assert_eq!(run_program("65 EMIT 10 EMIT").2, "A\n");
    assert_eq!(run_program("321 EMIT").2, "A");
    assert_eq!(run_program("-32768 . 0 . -7 . 32767 .").2, "-327680-732767");
    assert_eq!(run_program(".").0, Err(ForthError::StackUnderflow));
    assert_eq!(run_program("EMIT").0, Err(ForthError::StackUnderflow));
}

#[test]
fn test_unknown_token_fails() {
    assert_eq!(run_program("1 foo 2"), (Err(ForthError::UnknownToken), vec![1], String::new()));
    assert_eq!(run_program("32768").0, Err(ForthError::UnknownToken));
    assert_eq!(run_program("THEN").0, Err(ForthError::UnknownToken));
    assert_eq!(run_program(";").0, Err(ForthError::UnknownToken));
}

#[test]
fn test_definition_errors() {
    assert_eq!(run_program(": 12 1 ;").0, Err(ForthError::InvalidWordName));
    assert_eq!(run_program(": -5 1 ;").0, Err(ForthError::InvalidWordName));
    assert_eq!(run_program(":").0, Err(ForthError::MissingWordName));
    assert_eq!(run_program(": FOO 1 2").0, Err(ForthError::UnterminatedDefinition));
    assert_eq!(run_program("7 : FOO 1 2"), (Err(ForthError::UnterminatedDefinition), vec![7], String::new()));
}

#[test]
fn test_stack_overflow_fails() {
    assert_eq!(run_with_capacity("1 2 3", 4), (Err(ForthError::StackOverflow), vec![1, 2], String::new()));
    assert_eq!(run_with_capacity("1 2 DUP", 4), (Err(ForthError::StackOverflow), vec![1, 2], String::new()));
    assert_eq!(run_with_capacity("1 2 OVER", 4), (Err(ForthError::StackOverflow), vec![1, 2], String::new()));
    assert_eq!(run_with_capacity("1 2 +", 4), (Ok(()), vec![3], String::new()));
    assert_eq!(run_with_capacity("1", 1).0, Err(ForthError::StackOverflow));
}

#[test]
fn test_runaway_recursion_is_stopped() {
    assert_eq!(run_program(": A B ; : B A ; 5 A"), (Err(ForthError::RecursionLimitExceeded), vec![5], String::new()));
}

#[test]
fn test_depth_counts_words_and_conditionals() {
    let tokens: Vec<Token> = tokenize(": ONE 1 ; 1 IF ONE THEN");
    let mut stack = Stack::new(64);
    let mut words = WordMap::new();
    let mut out = Vec::new();
    assert_eq!(execute_tokens(&mut stack, &tokens, &mut words, &mut out, 2), Ok(()));
    assert_eq!(stack.pop(), Some(1));
    let mut words = WordMap::new();
    assert_eq!(
        execute_tokens(&mut stack, &tokens, &mut words, &mut out, 1),
        Err(ForthError::RecursionLimitExceeded)
    );
    assert_eq!(stack.len(), 0);
    let plain: Vec<Token> = tokenize("1 2 +");
    assert_eq!(execute_tokens(&mut stack, &plain, &mut words, &mut out, 0), Ok(()));
    assert_eq!(stack.pop(), Some(3));
    assert_eq!(RECURSION_LIMIT, 128);
}

#[test]
fn test_a_word_may_shadow_an_operator() {
    assert_eq!(run_program(": + - ; 5 3 +").1, vec![2]);
}

#[test]
fn test_boolean_words_through_the_engine() {
    assert_eq!(run_program("1 2 < 2 1 < 3 3 = 0 NOT 5 NOT 0 0 OR 0 7 AND").1, vec![-1, 0, -1, -1, 0, 0, 0]);
    assert_eq!(run_program("2 1 > -1 -1 AND 0 4 OR").1, vec![-1, -1, -1]);
}

#[test]
fn test_execute_program_reports_output_and_snapshot() {
    let report = execute_program(128 * 1024, "1 2 3 DUP . -4".to_string());
    assert_eq!(report.result, Ok(()));
    assert_eq!(report.output.iter().collect::<String>(), "3");
    assert_eq!(report.snapshot.iter().collect::<String>(), "1 2 3 -4 ");
    let failed = execute_program(128 * 1024, "1 2 bogus 3".to_string());
    assert_eq!(failed.result, Err(ForthError::UnknownToken));
    assert_eq!(failed.snapshot.iter().collect::<String>(), "1 2 ");
    let empty = execute_program(0, String::new());
    assert_eq!(empty.result, Ok(()));
    assert_eq!(empty.snapshot.len(), 0);
}

#[test]
fn test_parse_stack_size() {
    let args = |list: &[&str]| -> Vec<String> { list.iter().map(|s| s.to_string()).collect() };
    assert_eq!(parse_stack_size(&args(&["prog", "file.fth"])), DEFAULT_STACK_SIZE);
    assert_eq!(DEFAULT_STACK_SIZE, 128 * 1024);
    assert_eq!(parse_stack_size(&args(&["prog", "file.fth", "stack-size=10"])), 10);
    assert_eq!(parse_stack_size(&args(&["prog", "stack-size=abc", "stack-size=7"])), 7);
    assert_eq!(parse_stack_size(&args(&["prog", "stack-size=12=3"])), 12);
    assert_eq!(parse_stack_size(&args(&["prog", "stack-size=+7"])), 7);
    assert_eq!(parse_stack_size(&args(&["prog", "stack-size="])), DEFAULT_STACK_SIZE);
    assert_eq!(parse_stack_size(&args(&["prog", "stack-size=-1"])), DEFAULT_STACK_SIZE);
    assert_eq!(parse_stack_size(&args(&["prog", "xstack-size=5"])), DEFAULT_STACK_SIZE);
    assert_eq!(parse_stack_size(&args(&["stack-size=0"])), 0);
    assert_eq!(parse_stack_size(&args(&["stack-size=99999999999999999999999999"])), DEFAULT_STACK_SIZE);
    assert_eq!(parse_stack_size(&args(&["stack-size=00000000000000000000000042"])), 42);
    assert_eq!(parse_stack_size(&[]), DEFAULT_STACK_SIZE);
}

#[test]
fn test_tokenizer_agrees_with_the_standard_splitter() {
    let samples = [
        "",
        "   ",
        "a",
        " a ",
        "1 2 +",
        "\t: sq\u{b} dup\u{c}* ;\r\n4 sq .",
        "a\u{a0}b\u{2003}c\u{3000}d\u{85}e\u{1680}f",
        "non\u{200b}breaking zero\u{feff}width",
        "straße ǆ ﬁn",
    ];
    for text in samples {
        let tokens = tokenize(text);
        let raws: Vec<String> = tokens.iter().map(|t| t.raw.iter().collect()).collect();
        let uppers: Vec<String> = tokens.iter().map(|t| t.upper.iter().collect()).collect();
        let expected: Vec<String> = text.split_whitespace().map(|s| s.to_string()).collect();
        let expected_upper: Vec<String> = text.split_whitespace().map(|s| s.to_uppercase()).collect();
        assert_eq!(raws, expected, "{:?}", text);
        assert_eq!(uppers, expected_upper, "{:?}", text);
    }
}

#[test]
fn test_upper_case_follows_unicode() {
    let token = Token::new("straße");
    assert_eq!(token.raw.iter().collect::<String>(), "straße");
    assert_eq!(token.upper.iter().collect::<String>(), "STRASSE");
    assert_eq!(run_program(": straße 7 ; STRASSE").1, vec![7]);
}
