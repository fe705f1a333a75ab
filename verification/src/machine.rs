//! The mathematical model of the interpreter: what running a sequence of
//! tokens does to the stack, the dictionary and the output.

use vstd::prelude::*;
use crate::arithmetic_operations::{arithmetic_outcome, is_arithmetic};
use crate::boolean_operations::{boolean_outcome, is_boolean};
use crate::error::ForthError;
use crate::forth_basic_operations::{forth_outcome, is_stack_word};
use crate::output_operations::{is_output, output_outcome};
use crate::stack::{Stack, pushed};
use crate::text::literal_value;
use crate::token::{TokenView, drop_tokens};
use crate::word_definitions::{WordMap, definition_outcome};

verus! {

/// Everything a program can change: the stack within its capacity, the
/// dictionary, and the output printed so far.
pub struct Machine {
    pub stack: Seq<i16>,
    pub capacity: nat,
    pub words: Map<Seq<char>, Seq<TokenView>>,
    pub out: Seq<char>,
}

/// The state in which a run ended and whether it ran to the end.
pub struct Outcome {
    pub machine: Machine,
    pub result: Result<(), ForthError>,
}

/// The effect of one token: the state afterwards, the number of further
/// tokens that it read for itself, and whether it succeeded.
pub struct Step {
    pub machine: Machine,
    pub consumed: nat,
    pub result: Result<(), ForthError>,
}

/// The tokens of the two arms of a conditional, whether its closing `THEN`
/// was found, and the number of tokens read.
pub struct Branches {
    pub true_branch: Seq<TokenView>,
    pub false_branch: Seq<TokenView>,
    pub found: bool,
    pub consumed: nat,
}

/// The word `:`, which opens a definition.
pub open spec fn word_colon() -> Seq<char> {
    seq![':']
}

/// The word `IF`.
pub open spec fn word_if() -> Seq<char> {
    seq!['I', 'F']
}

/// The word `ELSE`.
pub open spec fn word_else() -> Seq<char> {
    seq!['E', 'L', 'S', 'E']
}

/// The word `THEN`.
pub open spec fn word_then() -> Seq<char> {
    seq!['T', 'H', 'E', 'N']
}

/// The state that a stack, a dictionary and an output buffer make up.
pub open spec fn machine_of(stack: Stack, words: WordMap, out: Vec<char>) -> Machine {
    Machine { stack: stack@, capacity: stack.capacity(), words: words@, out: out@ }
}

/// Reads the arms of a conditional from the tokens that follow its `IF`.
/// `nesting` counts the conditionals opened and not yet closed inside the
/// arm being read, whose tokens pass through untouched; `in_else` tells
/// whether the arm being read is the second. An `ELSE` of the conditional
/// itself switches to the second arm, and its `THEN` ends the scan; neither
/// belongs to an arm.
pub open spec fn scan_branches(rest: Seq<TokenView>, nesting: nat, in_else: bool) -> Branches
    decreases rest.len(),
{
    if rest.len() == 0 {
        Branches { true_branch: Seq::empty(), false_branch: Seq::empty(), found: false, consumed: 0 }
    } else if rest[0].upper == word_then() && nesting == 0 {
        Branches { true_branch: Seq::empty(), false_branch: Seq::empty(), found: true, consumed: 1 }
    } else if rest[0].upper == word_else() && nesting == 0 {
        let tail = scan_branches(rest.drop_first(), nesting, true);
        Branches { consumed: tail.consumed + 1, ..tail }
    } else {
        let inner: nat = if rest[0].upper == word_if() {
            nesting + 1
        } else if rest[0].upper == word_then() {
            (nesting - 1) as nat
        } else {
            nesting
        };
        let tail = scan_branches(rest.drop_first(), inner, in_else);
        Branches {
            true_branch: if in_else {
                tail.true_branch
            } else {
                seq![rest[0]] + tail.true_branch
            },
            false_branch: if in_else {
                seq![rest[0]] + tail.false_branch
            } else {
                tail.false_branch
            },
            found: tail.found,
            consumed: tail.consumed + 1,
        }
    }
}

/// Runs a sequence of tokens from left to right and stops at the first
/// failure; what had happened by then stays. `depth` is the number of
/// further levels of words and conditionals that may be entered.
pub open spec fn run(m: Machine, tokens: Seq<TokenView>, depth: nat) -> Outcome
    decreases depth, tokens.len(), 0nat,
{
    if tokens.len() == 0 {
        Outcome { machine: m, result: Ok(()) }
    } else {
        let s = step(m, tokens[0], tokens.drop_first(), depth);
        if s.result.is_err() {
            Outcome { machine: s.machine, result: s.result }
        } else {
            run(s.machine, drop_tokens(tokens.drop_first(), s.consumed), depth)
        }
    }
}

/// Runs the body of a word or the chosen arm of a conditional one level
/// further down, if a level is left.
pub open spec fn enter(m: Machine, tokens: Seq<TokenView>, depth: nat) -> Outcome
    decreases depth, 0nat, 0nat,
{
    if depth == 0 {
        Outcome { machine: m, result: Err(ForthError::RecursionLimitExceeded) }
    } else {
        run(m, tokens, (depth - 1) as nat)
    }
}

/// The effect of the token `t`, which is followed by the tokens `rest`. In
/// this order: `:` opens a definition; a defined word runs its body; an
/// operator is applied; `IF` opens a conditional; anything else must be a
/// 16-bit integer literal, which is pushed.
pub open spec fn step(m: Machine, t: TokenView, rest: Seq<TokenView>, depth: nat) -> Step
    decreases depth, rest.len(), 2nat,
{
    if t.upper == word_colon() {
        let d = definition_outcome(m.words, rest);
        Step { machine: Machine { words: d.words, ..m }, consumed: d.consumed, result: d.result }
    } else if m.words.contains_key(t.upper) {
        let o = enter(m, m.words[t.upper], depth);
        Step { machine: o.machine, consumed: 0, result: o.result }
    } else if is_arithmetic(t.upper) {
        let (stack, result) = arithmetic_outcome(m.stack, m.capacity, t.upper);
        Step { machine: Machine { stack, ..m }, consumed: 0, result }
    } else if is_boolean(t.upper) {
        let (stack, result) = boolean_outcome(m.stack, m.capacity, t.upper);
        Step { machine: Machine { stack, ..m }, consumed: 0, result }
    } else if is_stack_word(t.upper) {
        let (stack, result) = forth_outcome(m.stack, m.capacity, t.upper);
        Step { machine: Machine { stack, ..m }, consumed: 0, result }
    } else if is_output(t.upper) {
        let o = output_outcome(m.stack, m.out, rest, t.upper);
        Step { machine: Machine { stack: o.stack, out: o.out, ..m }, consumed: o.consumed, result: o.result }
    } else if t.upper == word_if() {
        conditional_step(m, rest, depth)
    } else {
        let (stack, result) = literal_outcome(m.stack, m.capacity, t.upper);
        Step { machine: Machine { stack, ..m }, consumed: 0, result }
    }
}

/// What a token that is no word and no operator does to a stack: its value
/// is pushed if it reads as a 16-bit integer, and it is unknown otherwise.
pub open spec fn literal_outcome(s: Seq<i16>, capacity: nat, word: Seq<char>) -> (Seq<i16>, Result<(), ForthError>) {
    match literal_value(word) {
        Some(v) => pushed(s, capacity, v),
        None => (s, Err(ForthError::UnknownToken)),
    }
}

/// The effect of a conditional, given the tokens that follow its `IF`. The
/// condition is popped; the arms are read up to the closing `THEN`; the
/// first arm runs if the condition is not zero, the second if it is.
pub open spec fn conditional_step(m: Machine, rest: Seq<TokenView>, depth: nat) -> Step
    decreases depth, rest.len(), 1nat,
{
    if m.stack.len() == 0 {
        Step { machine: m, consumed: 0, result: Err(ForthError::StackUnderflow) }
    } else {
        let popped = Machine { stack: m.stack.drop_last(), ..m };
        let arms = scan_branches(rest, 0, false);
        if !arms.found {
            Step { machine: popped, consumed: arms.consumed, result: Err(ForthError::MissingThen) }
        } else {
            let o = enter(
                popped,
                if m.stack.last() != 0 {
                    arms.true_branch
                } else {
                    arms.false_branch
                },
                depth,
            );
            Step { machine: o.machine, consumed: arms.consumed, result: o.result }
        }
    }
}

} // verus!
