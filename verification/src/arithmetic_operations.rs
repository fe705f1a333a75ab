//! The arithmetic operators `+`, `-`, `*` and `/` on 16-bit integers.

use vstd::prelude::*;
use crate::error::ForthError;
use crate::stack::{Stack, pushed, two_popped};
use crate::text::{chars_of, text_is};

verus! {

/// The 16-bit signed integer that is congruent to `v` modulo 65536.
pub open spec fn wrap16(v: int) -> i16 {
    ((v + 32768) % 65536 - 32768) as i16
}

/// The quotient of `b` by `a` rounded towards zero.
pub open spec fn truncated_quotient(b: int, a: int) -> int
    recommends
        a != 0,
{
    let q = (if b < 0 { 0 - b } else { b }) / (if a < 0 { 0 - a } else { a });
    if (b < 0) != (a < 0) {
        0 - q
    } else {
        q
    }
}

/// Whether a word is one of the four arithmetic operators.
pub open spec fn is_arithmetic(op: Seq<char>) -> bool {
    op == seq!['+'] || op == seq!['-'] || op == seq!['*'] || op == seq!['/']
}

/// The value of an arithmetic operator on `b`, the lower operand, and `a`,
/// the top one. Results wrap around in 16 bits; dividing by zero fails.
pub open spec fn arithmetic_value(op: Seq<char>, b: i16, a: i16) -> Result<i16, ForthError> {
    if op == seq!['+'] {
        Ok(wrap16(b + a))
    } else if op == seq!['-'] {
        Ok(wrap16(b - a))
    } else if op == seq!['*'] {
        Ok(wrap16(b * a))
    } else if a == 0 {
        Err(ForthError::DivisionByZero)
    } else {
        Ok(wrap16(truncated_quotient(b as int, a as int)))
    }
}

/// What a stack of the given capacity becomes when two operands are popped
/// and the value computed from them, if there is one, is pushed. The
/// operands are consumed even when the operation fails.
pub open spec fn binary_outcome(s: Seq<i16>, capacity: nat, value: Result<i16, ForthError>) -> (
    Seq<i16>,
    Result<(), ForthError>,
) {
    if s.len() < 2 {
        (Seq::empty(), Err(ForthError::StackUnderflow))
    } else {
        match value {
            Ok(v) => pushed(two_popped(s), capacity, v),
            Err(e) => (two_popped(s), Err(e)),
        }
    }
}

/// The lower of the two top values of a stack that has two.
pub open spec fn lower_operand(s: Seq<i16>) -> i16 {
    s[s.len() - 2]
}

/// The top value of a non-empty stack.
pub open spec fn top_operand(s: Seq<i16>) -> i16 {
    s[s.len() - 1]
}

/// What an arithmetic operator does to a stack: any other word fails with
/// `UnknownToken` and leaves the stack alone.
pub open spec fn arithmetic_outcome(s: Seq<i16>, capacity: nat, op: Seq<char>) -> (
    Seq<i16>,
    Result<(), ForthError>,
) {
    if is_arithmetic(op) {
        binary_outcome(s, capacity, arithmetic_value(op, lower_operand(s), top_operand(s)))
    } else {
        (s, Err(ForthError::UnknownToken))
    }
}

/// Brings a 32-bit intermediate result back into 16 bits.
fn wrap_to_i16(v: i32) -> (r: i16)
    requires
        -1073741824 <= v <= 1073741824,
    ensures
        r == wrap16(v as int),
{
    let shifted: u64 = (v as i64 + 1073774592) as u64;
    let m: u64 = shifted % 65536;
    (m as i32 - 32768) as i16
}

/// Removes the two top values and returns them, the top one first.
pub fn pop_operands(stack: &mut Stack) -> (res: Result<(i16, i16), ForthError>)
    ensures
        final(stack).capacity() == old(stack).capacity(),
        final(stack)@ == two_popped(old(stack)@),
        res == (if old(stack)@.len() >= 2 {
            Ok::<(i16, i16), ForthError>((top_operand(old(stack)@), lower_operand(old(stack)@)))
        } else {
            Err::<(i16, i16), ForthError>(ForthError::StackUnderflow)
        }),
{
    stack.pop_pair()
}

/// Replaces the two top values by their sum.
pub fn sum(stack: &mut Stack) -> (res: Result<(), ForthError>)
    ensures
        final(stack).capacity() == old(stack).capacity(),
        (final(stack)@, res) == arithmetic_outcome(old(stack)@, old(stack).capacity(), seq!['+']),
{
    match pop_operands(stack) {
        Ok((a, b)) => stack.push(wrap_to_i16(b as i32 + a as i32)),
        Err(e) => Err(e),
    }
}

/// Replaces the two top values by the lower one minus the top one.
pub fn subtraction(stack: &mut Stack) -> (res: Result<(), ForthError>)
    ensures
        final(stack).capacity() == old(stack).capacity(),
        (final(stack)@, res) == arithmetic_outcome(old(stack)@, old(stack).capacity(), seq!['-']),
{
    assert(seq!['-'] != seq!['+']) by {
        assert(seq!['-'][0] != seq!['+'][0]);
    }
    match pop_operands(stack) {
        Ok((a, b)) => stack.push(wrap_to_i16(b as i32 - a as i32)),
        Err(e) => Err(e),
    }
}

/// Replaces the two top values by their product.
pub fn multiplication(stack: &mut Stack) -> (res: Result<(), ForthError>)
    ensures
        final(stack).capacity() == old(stack).capacity(),
        (final(stack)@, res) == arithmetic_outcome(old(stack)@, old(stack).capacity(), seq!['*']),
{
    assert(seq!['*'] != seq!['+'] && seq!['*'] != seq!['-']) by {
        assert(seq!['*'][0] != seq!['+'][0]);
    }
    match pop_operands(stack) {
        Ok((a, b)) => {
            assert(-1073741824 <= (b as int) * (a as int) <= 1073741824) by (nonlinear_arith)
                requires
                    -32768 <= a <= 32767,
                    -32768 <= b <= 32767,
            ;
            stack.push(wrap_to_i16(b as i32 * a as i32))
        },
        Err(e) => Err(e),
    }
}

/// Replaces the two top values by the lower one divided by the top one,
/// rounded towards zero; fails with `DivisionByZero` when the top one is 0.
pub fn division(stack: &mut Stack) -> (res: Result<(), ForthError>)
    ensures
        final(stack).capacity() == old(stack).capacity(),
        (final(stack)@, res) == arithmetic_outcome(old(stack)@, old(stack).capacity(), seq!['/']),
{
    assert(seq!['/'] != seq!['+'] && seq!['/'] != seq!['-'] && seq!['/'] != seq!['*']) by {
        assert(seq!['/'][0] != seq!['+'][0]);
    }
    match pop_operands(stack) {
        Ok((a, b)) => {
            if a == 0 {
                return Err(ForthError::DivisionByZero);
            }
            let nb: u32 = if b < 0 { (0 - b as i32) as u32 } else { b as u32 };
            let na: u32 = if a < 0 { (0 - a as i32) as u32 } else { a as u32 };
            let q: u32 = nb / na;
            assert(q <= nb) by (nonlinear_arith)
                requires
                    q == nb / na,
                    na > 0,
            ;
            let signed: i32 = if (b < 0) != (a < 0) { 0 - (q as i32) } else { q as i32 };
            stack.push(wrap_to_i16(signed))
        },
        Err(e) => Err(e),
    }
}

/// Whether a word is one of the four arithmetic operators.
pub fn is_arithmetic_word(op: &[char]) -> (yes: bool)
    ensures
        yes == is_arithmetic(op@),
{
    proof {
        assert(['+']@ =~= seq!['+']);
        assert(['-']@ =~= seq!['-']);
        assert(['*']@ =~= seq!['*']);
        assert(['/']@ =~= seq!['/']);
    }
    text_is(op, &['+']) || text_is(op, &['-']) || text_is(op, &['*']) || text_is(op, &['/'])
}

/// Applies the arithmetic operator named by `operator` to the two top values
/// of the stack.
pub fn apply_arithmetic_operation(stack: &mut Stack, operator: &str) -> (res: Result<(), ForthError>)
    ensures
        final(stack).capacity() == old(stack).capacity(),
        (final(stack)@, res) == arithmetic_outcome(old(stack)@, old(stack).capacity(), operator@),
{
    let op: Vec<char> = chars_of(operator);
    apply_arithmetic_word(stack, op.as_slice())
}

/// Applies the arithmetic operator named by the word `op`.
pub fn apply_arithmetic_word(stack: &mut Stack, op: &[char]) -> (res: Result<(), ForthError>)
    ensures
        final(stack).capacity() == old(stack).capacity(),
        (final(stack)@, res) == arithmetic_outcome(old(stack)@, old(stack).capacity(), op@),
{
    proof {
        assert(['+']@ =~= seq!['+']);
        assert(['-']@ =~= seq!['-']);
        assert(['*']@ =~= seq!['*']);
        assert(['/']@ =~= seq!['/']);
    }
    if text_is(op, &['+']) {
        sum(stack)
    } else if text_is(op, &['-']) {
        subtraction(stack)
    } else if text_is(op, &['*']) {
        multiplication(stack)
    } else if text_is(op, &['/']) {
        division(stack)
    } else {
        Err(ForthError::UnknownToken)
    }
}

} // verus!
