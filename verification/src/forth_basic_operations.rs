//! The stack-manipulation words `DUP`, `DROP`, `SWAP`, `OVER` and `ROT`.

use vstd::prelude::*;
use crate::arithmetic_operations::{lower_operand, top_operand};
use crate::error::ForthError;
use crate::stack::{Stack, pushed, pushed_all, then_pushed, two_popped};
use crate::text::{chars_of, text_is};

verus! {

/// The word `DUP`.
pub open spec fn word_dup() -> Seq<char> {
    seq!['D', 'U', 'P']
}

/// The word `DROP`.
pub open spec fn word_drop() -> Seq<char> {
    seq!['D', 'R', 'O', 'P']
}

/// The word `SWAP`.
pub open spec fn word_swap() -> Seq<char> {
    seq!['S', 'W', 'A', 'P']
}

/// The word `OVER`.
pub open spec fn word_over() -> Seq<char> {
    seq!['O', 'V', 'E', 'R']
}

/// The word `ROT`.
pub open spec fn word_rot() -> Seq<char> {
    seq!['R', 'O', 'T']
}

/// Whether a word is one of the five stack-manipulation words.
pub open spec fn is_stack_word(op: Seq<char>) -> bool {
    op == word_dup() || op == word_drop() || op == word_swap() || op == word_over() || op == word_rot()
}

/// `DUP`: the top value is popped and pushed twice.
pub open spec fn dup_outcome(s: Seq<i16>, capacity: nat) -> (Seq<i16>, Result<(), ForthError>) {
    if s.len() == 0 {
        (s, Err(ForthError::StackUnderflow))
    } else {
        then_pushed(pushed(s.drop_last(), capacity, s.last()), capacity, s.last())
    }
}

/// `DROP`: the top value is removed.
pub open spec fn drop_outcome(s: Seq<i16>) -> (Seq<i16>, Result<(), ForthError>) {
    if s.len() == 0 {
        (s, Err(ForthError::StackUnderflow))
    } else {
        (s.drop_last(), Ok(()))
    }
}

/// `SWAP`: the two top values change places. With fewer than two values
/// the stack is emptied and the word fails.
pub open spec fn swap_outcome(s: Seq<i16>, capacity: nat) -> (Seq<i16>, Result<(), ForthError>) {
    if s.len() < 2 {
        (Seq::empty(), Err(ForthError::StackUnderflow))
    } else {
        then_pushed(pushed(two_popped(s), capacity, top_operand(s)), capacity, lower_operand(s))
    }
}

/// `OVER`: a copy of the value below the top is pushed. With fewer than two
/// values the stack is emptied and the word fails.
pub open spec fn over_outcome(s: Seq<i16>, capacity: nat) -> (Seq<i16>, Result<(), ForthError>) {
    if s.len() < 2 {
        (Seq::empty(), Err(ForthError::StackUnderflow))
    } else {
        then_pushed(
            then_pushed(pushed(two_popped(s), capacity, lower_operand(s)), capacity, top_operand(s)),
            capacity,
            lower_operand(s),
        )
    }
}

/// The values of a stack with the bottom one moved to the top.
pub open spec fn rotated(s: Seq<i16>) -> Seq<i16>
    recommends
        s.len() > 0,
{
    s.skip(1).push(s[0])
}

/// `ROT`: the bottom value moves to the top. The stack is taken apart and
/// rebuilt by pushes; with fewer than two values it is left alone and the
/// word fails.
pub open spec fn rot_outcome(s: Seq<i16>, capacity: nat) -> (Seq<i16>, Result<(), ForthError>) {
    if s.len() < 2 {
        (s, Err(ForthError::StackUnderflow))
    } else {
        pushed_all(Seq::empty(), capacity, rotated(s))
    }
}

/// What a stack-manipulation word does to a stack; any other word fails with
/// `UnknownToken` and leaves the stack alone.
pub open spec fn forth_outcome(s: Seq<i16>, capacity: nat, op: Seq<char>) -> (Seq<i16>, Result<(), ForthError>) {
    if op == word_dup() {
        dup_outcome(s, capacity)
    } else if op == word_drop() {
        drop_outcome(s)
    } else if op == word_swap() {
        swap_outcome(s, capacity)
    } else if op == word_over() {
        over_outcome(s, capacity)
    } else if op == word_rot() {
        rot_outcome(s, capacity)
    } else {
        (s, Err(ForthError::UnknownToken))
    }
}

/// Duplicates the top value.
pub fn dup(stack: &mut Stack) -> (res: Result<(), ForthError>)
    ensures
        final(stack).capacity() == old(stack).capacity(),
        (final(stack)@, res) == dup_outcome(old(stack)@, old(stack).capacity()),
{
    match stack.pop_value() {
        Ok(value) => {
            match stack.push(value) {
                Ok(()) => stack.push(value),
                Err(e) => Err(e),
            }
        },
        Err(e) => Err(e),
    }
}

/// Removes the top value.
pub fn drop(stack: &mut Stack) -> (res: Result<(), ForthError>)
    ensures
        final(stack).capacity() == old(stack).capacity(),
        (final(stack)@, res) == drop_outcome(old(stack)@),
{
    match stack.pop_value() {
        Ok(_) => Ok(()),
        Err(e) => Err(e),
    }
}

/// Exchanges the two top values.
pub fn swap(stack: &mut Stack) -> (res: Result<(), ForthError>)
    ensures
        final(stack).capacity() == old(stack).capacity(),
        (final(stack)@, res) == swap_outcome(old(stack)@, old(stack).capacity()),
{
    match stack.pop_pair() {
        Ok((a, b)) => {
            match stack.push(a) {
                Ok(()) => stack.push(b),
                Err(e) => Err(e),
            }
        },
        Err(e) => Err(e),
    }
}

/// Pushes a copy of the value below the top.
pub fn over(stack: &mut Stack) -> (res: Result<(), ForthError>)
    ensures
        final(stack).capacity() == old(stack).capacity(),
        (final(stack)@, res) == over_outcome(old(stack)@, old(stack).capacity()),
{
    match stack.pop_pair() {
        Ok((a, b)) => {
            match stack.push(b) {
                Ok(()) => {
                    match stack.push(a) {
                        Ok(()) => stack.push(b),
                        Err(e) => Err(e),
                    }
                },
                Err(e) => Err(e),
            }
        },
        Err(e) => Err(e),
    }
}

/// Moves the bottom value to the top.
pub fn rot(stack: &mut Stack) -> (res: Result<(), ForthError>)
    ensures
        final(stack).capacity() == old(stack).capacity(),
        (final(stack)@, res) == rot_outcome(old(stack)@, old(stack).capacity()),
{
    if stack.len() < 2 {
        return Err(ForthError::StackUnderflow);
    }
    let ghost before = stack@;
    let ghost capacity = stack.capacity();
    let mut taken: Vec<i16> = Vec::new();
    while stack.len() > 0
        invariant
            stack.capacity() == capacity,
            stack@.len() + taken@.len() == before.len(),
            stack@ == before.take(stack@.len() as int),
            forall|j: int| 0 <= j < taken@.len() ==> taken@[j] == before[before.len() - 1 - j],
        decreases stack@.len(),
    {
        match stack.pop() {
            Some(value) => {
                taken.push(value);
            },
            None => {},
        }
    }
    match taken.pop() {
        Some(bottom) => {
            let ghost target = rotated(before);
            while taken.len() > 0
                invariant
                    before == old(stack)@,
                    capacity == old(stack).capacity(),
                    stack.capacity() == capacity,
                    before.len() >= 2,
                    target == before.skip(1).push(before[0]),
                    stack@.len() + taken@.len() == before.len() - 1,
                    forall|j: int| 0 <= j < taken@.len() ==> taken@[j] == before[before.len() - 1 - j],
                    (stack@, Ok::<(), ForthError>(())) == pushed_all(
                        Seq::empty(),
                        capacity,
                        target.take(stack@.len() as int),
                    ),
                decreases taken@.len(),
            {
                let ghost k = stack@.len() as int;
                match taken.pop() {
                    Some(value) => {
                        proof {
                            assert(target.take(k + 1).drop_last() =~= target.take(k));
                        }
                        match stack.push(value) {
                            Ok(()) => {},
                            Err(e) => {
                                proof {
                                    lemma_refused_stays(capacity, target, k + 1);
                                }
                                return Err(e);
                            },
                        }
                    },
                    None => {},
                }
            }
            stack.push(bottom)
        },
        None => Ok(()),
    }
}

/// Once a push has been refused, the rest of the run is refused too and the
/// stack stays as it was.
pub proof fn lemma_refused_stays(capacity: nat, values: Seq<i16>, k: int)
    requires
        0 <= k <= values.len(),
        pushed_all(Seq::empty(), capacity, values.take(k)).1.is_err(),
    ensures
        pushed_all(Seq::empty(), capacity, values) == pushed_all(Seq::empty(), capacity, values.take(k)),
    decreases values.len() - k,
{
    if k == values.len() {
        assert(values.take(k) =~= values);
    } else {
        assert(values.take(k + 1).drop_last() =~= values.take(k));
        lemma_refused_stays(capacity, values, k + 1);
    }
}

/// Whether a word is one of the five stack-manipulation words.
pub fn is_stack_manipulation_word(op: &[char]) -> (yes: bool)
    ensures
        yes == is_stack_word(op@),
{
    text_is(op, &['D', 'U', 'P']) || text_is(op, &['D', 'R', 'O', 'P']) || text_is(op, &['S', 'W', 'A', 'P'])
        || text_is(op, &['O', 'V', 'E', 'R']) || text_is(op, &['R', 'O', 'T'])
}

/// Applies the stack-manipulation word named by `operator`.
pub fn apply_forth_operation(stack: &mut Stack, operator: &str) -> (res: Result<(), ForthError>)
    ensures
        final(stack).capacity() == old(stack).capacity(),
        (final(stack)@, res) == forth_outcome(old(stack)@, old(stack).capacity(), operator@),
{
    let op: Vec<char> = chars_of(operator);
    apply_forth_word(stack, op.as_slice())
}

/// Applies the stack-manipulation word `op`.
pub fn apply_forth_word(stack: &mut Stack, op: &[char]) -> (res: Result<(), ForthError>)
    ensures
        final(stack).capacity() == old(stack).capacity(),
        (final(stack)@, res) == forth_outcome(old(stack)@, old(stack).capacity(), op@),
{
    if text_is(op, &['D', 'U', 'P']) {
        dup(stack)
    } else if text_is(op, &['D', 'R', 'O', 'P']) {
        drop(stack)
    } else if text_is(op, &['S', 'W', 'A', 'P']) {
        swap(stack)
    } else if text_is(op, &['O', 'V', 'E', 'R']) {
        over(stack)
    } else if text_is(op, &['R', 'O', 'T']) {
        rot(stack)
    } else {
        Err(ForthError::UnknownToken)
    }
}

} // verus!
