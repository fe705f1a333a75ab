//! The comparison operators `=`, `<`, `>` and the logic operators `AND`,
//! `OR`, `NOT`. Zero is false and any other value is true; the operators
//! themselves answer with 0 or -1.

use vstd::prelude::*;
use crate::arithmetic_operations::{binary_outcome, lower_operand, pop_operands, top_operand};
use crate::error::ForthError;
use crate::stack::{Stack, pushed, two_popped};
use crate::text::{chars_of, text_is};

verus! {

/// The value that stands for false.
pub const FALSE: i16 = 0;

/// The value with which the operators answer true.
pub const TRUE: i16 = -1;

/// The stack value of a truth value.
pub open spec fn truth(b: bool) -> i16 {
    if b {
        TRUE
    } else {
        FALSE
    }
}

/// The word `AND`.
pub open spec fn word_and() -> Seq<char> {
    seq!['A', 'N', 'D']
}

/// The word `OR`.
pub open spec fn word_or() -> Seq<char> {
    seq!['O', 'R']
}

/// The word `NOT`.
pub open spec fn word_not() -> Seq<char> {
    seq!['N', 'O', 'T']
}

/// Whether a word is one of the five operators that take two operands.
pub open spec fn is_binary_boolean(op: Seq<char>) -> bool {
    op == seq!['='] || op == seq!['<'] || op == seq!['>'] || op == word_and() || op == word_or()
}

/// Whether a word is one of the six comparison and logic operators.
pub open spec fn is_boolean(op: Seq<char>) -> bool {
    is_binary_boolean(op) || op == word_not()
}

/// The value of a two-operand operator on `b`, the lower operand, and `a`,
/// the top one.
pub open spec fn boolean_value(op: Seq<char>, b: i16, a: i16) -> i16 {
    if op == seq!['='] {
        truth(a == b)
    } else if op == seq!['<'] {
        truth(b < a)
    } else if op == seq!['>'] {
        truth(b > a)
    } else if op == word_and() {
        truth(a != FALSE && b != FALSE)
    } else {
        truth(a != FALSE || b != FALSE)
    }
}

/// What a comparison or logic operator does to a stack: the two-operand
/// operators consume both operands even when one is missing, `NOT` replaces
/// the top value, and any other word fails with `UnknownToken`.
pub open spec fn boolean_outcome(s: Seq<i16>, capacity: nat, op: Seq<char>) -> (Seq<i16>, Result<(), ForthError>) {
    if is_binary_boolean(op) {
        binary_outcome(s, capacity, Ok(boolean_value(op, lower_operand(s), top_operand(s))))
    } else if op == word_not() {
        if s.len() == 0 {
            (s, Err(ForthError::StackUnderflow))
        } else {
            pushed(s.drop_last(), capacity, truth(s.last() == FALSE))
        }
    } else {
        (s, Err(ForthError::UnknownToken))
    }
}

/// The five two-operand words differ from one another and from `NOT`.
pub proof fn lemma_boolean_words_distinct()
    ensures
        seq!['='] != seq!['<'],
        seq!['='] != seq!['>'],
        seq!['<'] != seq!['>'],
        seq!['='] != word_and(),
        seq!['<'] != word_and(),
        seq!['>'] != word_and(),
        seq!['='] != word_or(),
        seq!['<'] != word_or(),
        seq!['>'] != word_or(),
        word_and() != word_or(),
        seq!['='] != word_not(),
        seq!['<'] != word_not(),
        seq!['>'] != word_not(),
        word_and() != word_not(),
        word_or() != word_not(),
{
    assert(seq!['='][0] == '=');
    assert(seq!['<'][0] == '<');
}

/// Removes the two top values and returns them, the top one first.
pub fn pop_two_operands(stack: &mut Stack) -> (res: Result<(i16, i16), ForthError>)
    ensures
        final(stack).capacity() == old(stack).capacity(),
        final(stack)@ == two_popped(old(stack)@),
        res == (if old(stack)@.len() >= 2 {
            Ok::<(i16, i16), ForthError>((top_operand(old(stack)@), lower_operand(old(stack)@)))
        } else {
            Err::<(i16, i16), ForthError>(ForthError::StackUnderflow)
        }),
{
    pop_operands(stack)
}

/// Replaces the two top values by the answer to whether they are equal.
pub fn equal(stack: &mut Stack) -> (res: Result<(), ForthError>)
    ensures
        final(stack).capacity() == old(stack).capacity(),
        (final(stack)@, res) == boolean_outcome(old(stack)@, old(stack).capacity(), seq!['=']),
{
    match pop_two_operands(stack) {
        Ok((a, b)) => stack.push(if a == b { TRUE } else { FALSE }),
        Err(e) => Err(e),
    }
}

/// Replaces the two top values by the answer to whether the lower one is
/// less than the top one.
pub fn lower_than(stack: &mut Stack) -> (res: Result<(), ForthError>)
    ensures
        final(stack).capacity() == old(stack).capacity(),
        (final(stack)@, res) == boolean_outcome(old(stack)@, old(stack).capacity(), seq!['<']),
{
    proof {
        lemma_boolean_words_distinct();
    }
    match pop_two_operands(stack) {
        Ok((a, b)) => stack.push(if b < a { TRUE } else { FALSE }),
        Err(e) => Err(e),
    }
}

/// Replaces the two top values by the answer to whether the lower one is
/// greater than the top one.
pub fn greater_than(stack: &mut Stack) -> (res: Result<(), ForthError>)
    ensures
        final(stack).capacity() == old(stack).capacity(),
        (final(stack)@, res) == boolean_outcome(old(stack)@, old(stack).capacity(), seq!['>']),
{
    proof {
        lemma_boolean_words_distinct();
    }
    match pop_two_operands(stack) {
        Ok((a, b)) => stack.push(if b > a { TRUE } else { FALSE }),
        Err(e) => Err(e),
    }
}

/// Replaces the two top values by the answer to whether both are true.
pub fn and(stack: &mut Stack) -> (res: Result<(), ForthError>)
    ensures
        final(stack).capacity() == old(stack).capacity(),
        (final(stack)@, res) == boolean_outcome(old(stack)@, old(stack).capacity(), word_and()),
{
    proof {
        lemma_boolean_words_distinct();
    }
    match pop_two_operands(stack) {
        Ok((a, b)) => stack.push(if a != FALSE && b != FALSE { TRUE } else { FALSE }),
        Err(e) => Err(e),
    }
}

/// Replaces the two top values by the answer to whether either is true.
pub fn or(stack: &mut Stack) -> (res: Result<(), ForthError>)
    ensures
        final(stack).capacity() == old(stack).capacity(),
        (final(stack)@, res) == boolean_outcome(old(stack)@, old(stack).capacity(), word_or()),
{
    proof {
        lemma_boolean_words_distinct();
    }
    match pop_two_operands(stack) {
        Ok((a, b)) => stack.push(if a != FALSE || b != FALSE { TRUE } else { FALSE }),
        Err(e) => Err(e),
    }
}

/// Replaces the top value by the answer to whether it is false.
pub fn not(stack: &mut Stack) -> (res: Result<(), ForthError>)
    ensures
        final(stack).capacity() == old(stack).capacity(),
        (final(stack)@, res) == boolean_outcome(old(stack)@, old(stack).capacity(), word_not()),
{
    proof {
        lemma_boolean_words_distinct();
    }
    match stack.pop_value() {
        Ok(a) => stack.push(if a != FALSE { FALSE } else { TRUE }),
        Err(e) => Err(e),
    }
}

/// Whether a word is one of the six comparison and logic operators.
pub fn is_boolean_word(op: &[char]) -> (yes: bool)
    ensures
        yes == is_boolean(op@),
{
    proof {
        assert(['=']@ =~= seq!['=']);
        assert(['<']@ =~= seq!['<']);
        assert(['>']@ =~= seq!['>']);
    }
    text_is(op, &['=']) || text_is(op, &['<']) || text_is(op, &['>']) || text_is(op, &['A', 'N', 'D']) || text_is(
        op,
        &['O', 'R'],
    ) || text_is(op, &['N', 'O', 'T'])
}

/// Applies the comparison or logic operator named by `operator`.
pub fn apply_boolean_operation(stack: &mut Stack, operator: &str) -> (res: Result<(), ForthError>)
    ensures
        final(stack).capacity() == old(stack).capacity(),
        (final(stack)@, res) == boolean_outcome(old(stack)@, old(stack).capacity(), operator@),
{
    let op: Vec<char> = chars_of(operator);
    apply_boolean_word(stack, op.as_slice())
}

/// Applies the comparison or logic operator named by the word `op`.
pub fn apply_boolean_word(stack: &mut Stack, op: &[char]) -> (res: Result<(), ForthError>)
    ensures
        final(stack).capacity() == old(stack).capacity(),
        (final(stack)@, res) == boolean_outcome(old(stack)@, old(stack).capacity(), op@),
{
    proof {
        assert(['=']@ =~= seq!['=']);
        assert(['<']@ =~= seq!['<']);
        assert(['>']@ =~= seq!['>']);
    }
    if text_is(op, &['=']) {
        equal(stack)
    } else if text_is(op, &['<']) {
        lower_than(stack)
    } else if text_is(op, &['>']) {
        greater_than(stack)
    } else if text_is(op, &['A', 'N', 'D']) {
        and(stack)
    } else if text_is(op, &['O', 'R']) {
        or(stack)
    } else if text_is(op, &['N', 'O', 'T']) {
        not(stack)
    } else {
        Err(ForthError::UnknownToken)
    }
}

} // verus!
