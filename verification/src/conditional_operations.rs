//! The conditional `IF ... ELSE ... THEN`.

use vstd::prelude::*;
use crate::error::ForthError;
use crate::laws::{law_conditional_keeps_bound, law_enter_keeps_bound};
use crate::machine::{
    Branches,
    Machine,
    Outcome,
    Step,
    conditional_step,
    enter,
    machine_of,
    scan_branches,
    word_else,
    word_if,
    word_then,
};
use crate::program::execute_tokens;
use crate::stack::Stack;
use crate::text::{chars_of, text_is};
use crate::token::{Token, TokenCursor, TokenView, drop_tokens, lemma_views_push, views};
use crate::word_definitions::WordMap;

verus! {

/// Reads the two arms of a conditional from the cursor, which stands after
/// the `IF`, up to and including the closing `THEN`. Returns the tokens of
/// the first arm, those of the second, and whether the `THEN` was found.
pub fn parse_conditional_branches(tokens: &mut TokenCursor) -> (arms: (Vec<Token>, Vec<Token>, bool))
    ensures
        scan_branches(old(tokens).remaining(), 0, false) == (Branches {
            true_branch: views(arms.0@),
            false_branch: views(arms.1@),
            found: arms.2,
            consumed: scan_branches(old(tokens).remaining(), 0, false).consumed,
        }),
        final(tokens).remaining() == drop_tokens(
            old(tokens).remaining(),
            scan_branches(old(tokens).remaining(), 0, false).consumed,
        ),
{
    let ghost start = tokens.remaining();
    let ghost whole = scan_branches(start, 0, false);
    let ghost mut read: nat = 0;
    let total: usize = tokens.remaining_len();
    let mut true_branch: Vec<Token> = Vec::new();
    let mut false_branch: Vec<Token> = Vec::new();
    let mut in_else: bool = false;
    let mut nesting: usize = 0;
    loop
        invariant
            start == old(tokens).remaining(),
            whole == scan_branches(start, 0, false),
            total == start.len(),
            read <= start.len(),
            nesting <= read,
            tokens.remaining() == start.skip(read as int),
            whole.true_branch == views(true_branch@) + scan_branches(
                tokens.remaining(),
                nesting as nat,
                in_else,
            ).true_branch,
            whole.false_branch == views(false_branch@) + scan_branches(
                tokens.remaining(),
                nesting as nat,
                in_else,
            ).false_branch,
            whole.found == scan_branches(tokens.remaining(), nesting as nat, in_else).found,
            whole.consumed == read + scan_branches(tokens.remaining(), nesting as nat, in_else).consumed,
            ['I', 'F']@ == word_if(),
            ['E', 'L', 'S', 'E']@ == word_else(),
            ['T', 'H', 'E', 'N']@ == word_then(),
        decreases tokens.remaining().len(),
    {
        match tokens.next() {
            Some(t) => {
                proof {
                    read = read + 1;
                }
                let is_then: bool = text_is(t.upper.as_slice(), &['T', 'H', 'E', 'N']);
                if is_then && nesting == 0 {
                    return (true_branch, false_branch, true);
                }
                if nesting == 0 && text_is(t.upper.as_slice(), &['E', 'L', 'S', 'E']) {
                    in_else = true;
                } else {
                    if text_is(t.upper.as_slice(), &['I', 'F']) {
                        nesting = nesting + 1;
                    } else if is_then {
                        nesting = nesting - 1;
                    }
                    let copy: Token = t.duplicate();
                    if in_else {
                        proof {
                            lemma_views_push(false_branch@, copy);
                        }
                        false_branch.push(copy);
                    } else {
                        proof {
                            lemma_views_push(true_branch@, copy);
                        }
                        true_branch.push(copy);
                    }
                }
            },
            None => {
                return (true_branch, false_branch, false);
            },
        }
    }
}

/// Runs the tokens of a word's body or of a conditional's arm one level
/// further down; fails with `RecursionLimitExceeded` when no level is left.
pub fn execute_branch(
    stack: &mut Stack,
    branch: &Vec<Token>,
    word_map: &mut WordMap,
    out: &mut Vec<char>,
    depth: usize,
) -> (res: Result<(), ForthError>)
    ensures
        enter(machine_of(*old(stack), *old(word_map), *old(out)), views(branch@), depth as nat) == (Outcome {
            machine: machine_of(*final(stack), *final(word_map), *final(out)),
            result: res,
        }),
        final(stack).capacity() == old(stack).capacity(),
        old(stack).wf() ==> final(stack).wf(),
        old(word_map).wf() ==> final(word_map).wf(),
    decreases depth, 1nat,
{
    proof {
        law_enter_keeps_bound(machine_of(*stack, *word_map, *out), views(branch@), depth as nat);
    }
    if depth == 0 {
        Err(ForthError::RecursionLimitExceeded)
    } else {
        execute_tokens(stack, branch, word_map, out, depth - 1)
    }
}

/// Handles a conditional once the `IF` has been read: pops the condition,
/// reads the arms from the cursor and runs the one that the condition
/// selects.
pub fn handle_if(
    stack: &mut Stack,
    tokens: &mut TokenCursor,
    word_map: &mut WordMap,
    out: &mut Vec<char>,
    depth: usize,
) -> (res: Result<(), ForthError>)
    ensures
        conditional_step(
            machine_of(*old(stack), *old(word_map), *old(out)),
            old(tokens).remaining(),
            depth as nat,
        ) == (Step {
            machine: machine_of(*final(stack), *final(word_map), *final(out)),
            consumed: conditional_step(
                machine_of(*old(stack), *old(word_map), *old(out)),
                old(tokens).remaining(),
                depth as nat,
            ).consumed,
            result: res,
        }),
        final(tokens).remaining() == drop_tokens(
            old(tokens).remaining(),
            conditional_step(
                machine_of(*old(stack), *old(word_map), *old(out)),
                old(tokens).remaining(),
                depth as nat,
            ).consumed,
        ),
        final(stack).capacity() == old(stack).capacity(),
        old(stack).wf() ==> final(stack).wf(),
        old(word_map).wf() ==> final(word_map).wf(),
    decreases depth, 2nat,
{
    proof {
        law_conditional_keeps_bound(machine_of(*stack, *word_map, *out), tokens.remaining(), depth as nat);
    }
    let condition: i16 = match stack.pop_value() {
        Ok(value) => value,
        Err(e) => {
            return Err(e);
        },
    };
    let (true_branch, false_branch, then_found) = parse_conditional_branches(tokens);
    if !then_found {
        return Err(ForthError::MissingThen);
    }
    if condition != 0 {
        execute_branch(stack, &true_branch, word_map, out, depth)
    } else {
        execute_branch(stack, &false_branch, word_map, out, depth)
    }
}

/// What a conditional word does: `IF` opens a conditional, and any other
/// word fails with `UnknownToken` and changes nothing.
pub open spec fn conditional_outcome(m: Machine, rest: Seq<TokenView>, op: Seq<char>, depth: nat) -> Step {
    if op == word_if() {
        conditional_step(m, rest, depth)
    } else {
        Step { machine: m, consumed: 0, result: Err(ForthError::UnknownToken) }
    }
}

/// Applies the conditional word `op`.
pub fn apply_conditional_word(
    stack: &mut Stack,
    op: &[char],
    tokens: &mut TokenCursor,
    word_map: &mut WordMap,
    out: &mut Vec<char>,
    depth: usize,
) -> (res: Result<(), ForthError>)
    ensures
        conditional_outcome(
            machine_of(*old(stack), *old(word_map), *old(out)),
            old(tokens).remaining(),
            op@,
            depth as nat,
        ) == (Step {
            machine: machine_of(*final(stack), *final(word_map), *final(out)),
            consumed: conditional_outcome(
                machine_of(*old(stack), *old(word_map), *old(out)),
                old(tokens).remaining(),
                op@,
                depth as nat,
            ).consumed,
            result: res,
        }),
        final(tokens).remaining() == drop_tokens(
            old(tokens).remaining(),
            conditional_outcome(
                machine_of(*old(stack), *old(word_map), *old(out)),
                old(tokens).remaining(),
                op@,
                depth as nat,
            ).consumed,
        ),
        final(stack).capacity() == old(stack).capacity(),
        old(stack).wf() ==> final(stack).wf(),
        old(word_map).wf() ==> final(word_map).wf(),
    decreases depth, 3nat,
{
    if text_is(op, &['I', 'F']) {
        handle_if(stack, tokens, word_map, out, depth)
    } else {
        Err(ForthError::UnknownToken)
    }
}

/// Applies the conditional word named by `operator` to the stack, reading
/// the arms of the conditional from the cursor. `depth` is the number of
/// further levels of words and conditionals that may be entered.
pub fn apply_conditional_operation(
    stack: &mut Stack,
    operator: &str,
    tokens: &mut TokenCursor,
    word_map: &mut WordMap,
    out: &mut Vec<char>,
    depth: usize,
) -> (res: Result<(), ForthError>)
    ensures
        conditional_outcome(
            machine_of(*old(stack), *old(word_map), *old(out)),
            old(tokens).remaining(),
            operator@,
            depth as nat,
        ) == (Step {
            machine: machine_of(*final(stack), *final(word_map), *final(out)),
            consumed: conditional_outcome(
                machine_of(*old(stack), *old(word_map), *old(out)),
                old(tokens).remaining(),
                operator@,
                depth as nat,
            ).consumed,
            result: res,
        }),
        final(tokens).remaining() == drop_tokens(
            old(tokens).remaining(),
            conditional_outcome(
                machine_of(*old(stack), *old(word_map), *old(out)),
                old(tokens).remaining(),
                operator@,
                depth as nat,
            ).consumed,
        ),
        final(stack).capacity() == old(stack).capacity(),
        old(stack).wf() ==> final(stack).wf(),
        old(word_map).wf() ==> final(word_map).wf(),
{
    let op: Vec<char> = chars_of(operator);
    apply_conditional_word(stack, op.as_slice(), tokens, word_map, out, depth)
}

} // verus!
