//! The bounded operand stack.

use vstd::prelude::*;
use crate::error::ForthError;

verus! {

/// A last-in-first-out sequence of 16-bit signed integers that never grows
/// beyond the capacity it was created with.
pub struct Stack {
    elements: Vec<i16>,
    max_size: usize,
}

/// What a push does to a stack of the given capacity: the value is appended
/// while there is room, and refused otherwise.
pub open spec fn pushed(s: Seq<i16>, capacity: nat, value: i16) -> (Seq<i16>, Result<(), ForthError>) {
    if s.len() < capacity {
        (s.push(value), Ok(()))
    } else {
        (s, Err(ForthError::StackOverflow))
    }
}

/// A push that takes place only if everything before it succeeded.
pub open spec fn then_pushed(before: (Seq<i16>, Result<(), ForthError>), capacity: nat, value: i16) -> (
    Seq<i16>,
    Result<(), ForthError>,
) {
    if before.1.is_err() {
        before
    } else {
        pushed(before.0, capacity, value)
    }
}

/// Pushing a run of values in order, stopping at the first that is refused.
pub open spec fn pushed_all(s: Seq<i16>, capacity: nat, values: Seq<i16>) -> (Seq<i16>, Result<(), ForthError>)
    decreases values.len(),
{
    if values.len() == 0 {
        (s, Ok(()))
    } else {
        then_pushed(pushed_all(s, capacity, values.drop_last()), capacity, values.last())
    }
}

/// What is left of a stack once two values have been popped, or as many as
/// there were.
pub open spec fn two_popped(s: Seq<i16>) -> Seq<i16> {
    if s.len() >= 2 {
        s.take(s.len() - 2)
    } else {
        Seq::empty()
    }
}

/// Values that fit within the capacity are all pushed onto an empty stack.
pub proof fn lemma_pushed_all_fits(capacity: nat, values: Seq<i16>)
    requires
        values.len() <= capacity,
    ensures
        pushed_all(Seq::empty(), capacity, values) == (values, Ok::<(), ForthError>(())),
    decreases values.len(),
{
    if values.len() > 0 {
        lemma_pushed_all_fits(capacity, values.drop_last());
    }
}

impl View for Stack {
    type V = Seq<i16>;

    /// The values on the stack, bottom first.
    closed spec fn view(&self) -> Seq<i16> {
        self.elements@
    }
}

impl Stack {
    /// The largest number of values the stack may hold.
    pub closed spec fn capacity(&self) -> nat {
        self.max_size as nat
    }

    /// The stack holds no more values than its capacity allows.
    pub open spec fn wf(&self) -> bool {
        self@.len() <= self.capacity()
    }

    /// An empty stack for a memory budget given in bytes; each value takes
    /// two bytes.
    pub fn new(max_size_in_bytes: usize) -> (stack: Stack)
        ensures
            stack@ == Seq::<i16>::empty(),
            stack.capacity() == max_size_in_bytes / 2,
            stack.wf(),
    {
        Stack { elements: Vec::new(), max_size: max_size_in_bytes / 2 }
    }

    /// Appends `value` if the stack is not full, and fails with
    /// `StackOverflow`, leaving the stack as it was, if it is.
    pub fn push(&mut self, value: i16) -> (res: Result<(), ForthError>)
        ensures
            final(self).capacity() == old(self).capacity(),
            (final(self)@, res) == pushed(old(self)@, old(self).capacity(), value),
            old(self).wf() ==> final(self).wf(),
    {
        if self.elements.len() < self.max_size {
            self.elements.push(value);
            Ok(())
        } else {
            Err(ForthError::StackOverflow)
        }
    }

    /// Removes and returns the top value, or returns `None` on an empty stack.
    pub fn pop(&mut self) -> (top: Option<i16>)
        ensures
            final(self).capacity() == old(self).capacity(),
            old(self)@.len() == 0 ==> top.is_none() && final(self)@ == old(self)@,
            old(self)@.len() > 0 ==> top == Some(old(self)@.last()) && final(self)@ == old(self)@.drop_last(),
            old(self).wf() ==> final(self).wf(),
    {
        self.elements.pop()
    }

    /// Removes and returns the top value; fails with `StackUnderflow` on an
    /// empty stack.
    pub fn pop_value(&mut self) -> (res: Result<i16, ForthError>)
        ensures
            final(self).capacity() == old(self).capacity(),
            old(self)@.len() == 0 ==> res == Err::<i16, ForthError>(ForthError::StackUnderflow) && final(self)@
                == old(self)@,
            old(self)@.len() > 0 ==> res == Ok::<i16, ForthError>(old(self)@.last()) && final(self)@ == old(
                self,
            )@.drop_last(),
            old(self).wf() ==> final(self).wf(),
    {
        match self.elements.pop() {
            Some(value) => Ok(value),
            None => Err(ForthError::StackUnderflow),
        }
    }

    /// Removes the two top values and returns them, the top one first. With
    /// fewer than two values the stack is emptied and the call fails with
    /// `StackUnderflow`.
    pub fn pop_pair(&mut self) -> (res: Result<(i16, i16), ForthError>)
        ensures
            final(self).capacity() == old(self).capacity(),
            final(self)@ == two_popped(old(self)@),
            res == (if old(self)@.len() >= 2 {
                Ok::<(i16, i16), ForthError>((old(self)@[old(self)@.len() - 1], old(self)@[old(self)@.len() - 2]))
            } else {
                Err::<(i16, i16), ForthError>(ForthError::StackUnderflow)
            }),
            old(self).wf() ==> final(self).wf(),
    {
        let first: Option<i16> = self.elements.pop();
        let second: Option<i16> = self.elements.pop();
        match (first, second) {
            (Some(a), Some(b)) => {
                Ok((a, b))
            },
            _ => {
                Err(ForthError::StackUnderflow)
            },
        }
    }

    /// The number of values on the stack.
    pub fn len(&self) -> (n: usize)
        ensures
            n == self@.len(),
    {
        self.elements.len()
    }

    /// The capacity the stack was created with.
    pub fn max_len(&self) -> (n: usize)
        ensures
            n == self.capacity(),
    {
        self.max_size
    }

    /// The top value, if there is one; the stack is unchanged.
    pub fn peek(&self) -> (top: Option<i16>)
        ensures
            top == (if self@.len() == 0 { None } else { Some(self@.last()) }),
    {
        let n: usize = self.elements.len();
        if n == 0 {
            None
        } else {
            Some(self.elements[n - 1])
        }
    }
}

} // verus!
