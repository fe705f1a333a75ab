//! The execution engine: runs the tokens of a program against a stack, a
//! dictionary and an output buffer.

use vstd::prelude::*;
use crate::arithmetic_operations::{apply_arithmetic_word, is_arithmetic_word};
use crate::boolean_operations::{apply_boolean_word, is_boolean_word};
use crate::conditional_operations::{apply_conditional_word, execute_branch};
use crate::error::ForthError;
use crate::forth_basic_operations::{apply_forth_word, is_stack_manipulation_word};
use crate::laws::{bounded, law_run_keeps_bound};
use crate::machine::{Machine, Outcome, literal_outcome, machine_of, run, step, word_colon, word_if};
use crate::output_operations::{apply_output_word, is_output_word};
use crate::stack::Stack;
use crate::text::{chars_of, decimal_text, parse_i16, parse_unsigned, push_decimal, text_is, unsigned_value};
use crate::token::{Token, TokenCursor, copy_tokens, tokenize, tokens_of, views};
use crate::word_definitions::{WordMap, handle_word_definition};

verus! {

/// The number of levels of words and conditionals that a program may nest.
pub const RECURSION_LIMIT: usize = 128;

/// The memory budget of the stack, in bytes, when none is asked for.
pub const DEFAULT_STACK_SIZE: usize = 131072;

/// Pushes the value of a token that is no word and no operator; fails with
/// `UnknownToken` if the token does not read as a 16-bit integer.
pub fn default_operation(stack: &mut Stack, token: &[char]) -> (res: Result<(), ForthError>)
    ensures
        final(stack).capacity() == old(stack).capacity(),
        (final(stack)@, res) == literal_outcome(old(stack)@, old(stack).capacity(), token@),
{
    match parse_i16(token) {
        Some(number) => stack.push(number),
        None => Err(ForthError::UnknownToken),
    }
}

/// Runs `tokens` from left to right against the stack, the dictionary and
/// the output buffer, and stops at the first failure. `depth` is the number
/// of further levels of words and conditionals that may be entered.
pub fn execute_tokens(
    stack: &mut Stack,
    tokens: &Vec<Token>,
    word_map: &mut WordMap,
    out: &mut Vec<char>,
    depth: usize,
) -> (res: Result<(), ForthError>)
    ensures
        run(machine_of(*old(stack), *old(word_map), *old(out)), views(tokens@), depth as nat) == (Outcome {
            machine: machine_of(*final(stack), *final(word_map), *final(out)),
            result: res,
        }),
        final(stack).capacity() == old(stack).capacity(),
        old(stack).wf() ==> final(stack).wf(),
        old(word_map).wf() ==> final(word_map).wf(),
    decreases depth, 4nat,
{
    let ghost start = machine_of(*stack, *word_map, *out);
    proof {
        law_run_keeps_bound(start, views(tokens@), depth as nat);
    }
    let mut cursor: TokenCursor = TokenCursor::new(tokens);
    loop
        invariant
            start == machine_of(*old(stack), *old(word_map), *old(out)),
            run(start, views(tokens@), depth as nat) == run(
                machine_of(*stack, *word_map, *out),
                cursor.remaining(),
                depth as nat,
            ),
            run(start, views(tokens@), depth as nat).machine.capacity == old(stack).capacity(),
            old(stack).wf() ==> bounded(run(start, views(tokens@), depth as nat).machine),
            old(word_map).wf() ==> word_map.wf(),
            [':']@ == word_colon(),
            ['I', 'F']@ == word_if(),
        decreases cursor.remaining().len(),
    {
        let ghost here = machine_of(*stack, *word_map, *out);
        let t: &Token = match cursor.next() {
            Some(t) => t,
            None => {
                return Ok(());
            },
        };
        let ghost rest = cursor.remaining();
        proof {
            assert(rest.skip(0) =~= rest);
        }
        let res: Result<(), ForthError> = if text_is(t.upper.as_slice(), &[':']) {
            handle_word_definition(&mut cursor, word_map)
        } else {
            let body: Option<Vec<Token>> = match word_map.body_of(t.upper.as_slice()) {
                Some(b) => Some(copy_tokens(b)),
                None => None,
            };
            match body {
                Some(b) => execute_branch(stack, &b, word_map, out, depth),
                None => {
                    if is_arithmetic_word(t.upper.as_slice()) {
                        apply_arithmetic_word(stack, t.upper.as_slice())
                    } else if is_boolean_word(t.upper.as_slice()) {
                        apply_boolean_word(stack, t.upper.as_slice())
                    } else if is_stack_manipulation_word(t.upper.as_slice()) {
                        apply_forth_word(stack, t.upper.as_slice())
                    } else if is_output_word(t.upper.as_slice()) {
                        apply_output_word(stack, t.upper.as_slice(), &mut cursor, out)
                    } else if text_is(t.upper.as_slice(), &['I', 'F']) {
                        apply_conditional_word(stack, t.upper.as_slice(), &mut cursor, word_map, out, depth)
                    } else {
                        default_operation(stack, t.upper.as_slice())
                    }
                },
            }
        };
        proof {
            let expected = step(here, t@, rest, depth as nat);
            assert(expected.result == res && expected.machine == machine_of(*stack, *word_map, *out));
        }
        match res {
            Ok(()) => {},
            Err(e) => {
                return Err(e);
            },
        }
    }
}

/// Runs a program text against the stack, the dictionary and the output
/// buffer. The text is split at whitespace; the tokens run from left to
/// right until the first failure, and what had happened by then stays.
pub fn execute_operation(stack: &mut Stack, input: String, word_map: &mut WordMap, out: &mut Vec<char>) -> (res:
    Result<(), ForthError>)
    ensures
        run(machine_of(*old(stack), *old(word_map), *old(out)), tokens_of(input@), RECURSION_LIMIT as nat) == (Outcome {
            machine: machine_of(*final(stack), *final(word_map), *final(out)),
            result: res,
        }),
        final(stack).capacity() == old(stack).capacity(),
        old(stack).wf() ==> final(stack).wf(),
        old(word_map).wf() ==> final(word_map).wf(),
{
    let tokens: Vec<Token> = tokenize(input.as_str());
    execute_tokens(stack, &tokens, word_map, out, RECURSION_LIMIT)
}

/// What a run of a whole program leaves behind.
pub struct ProgramReport {
    /// Whether the program ran to its end, and why not if it did not.
    pub result: Result<(), ForthError>,
    /// Everything the program printed.
    pub output: Vec<char>,
    /// The final stack as text: each value in decimal, bottom first, each
    /// followed by a space.
    pub snapshot: Vec<char>,
}

/// The text that records a stack: each value in decimal, bottom first, each
/// followed by a space.
pub open spec fn snapshot_text(s: Seq<i16>) -> Seq<char>
    decreases s.len(),
{
    if s.len() == 0 {
        Seq::empty()
    } else {
        snapshot_text(s.drop_last()) + decimal_text(s.last() as int) + seq![' ']
    }
}

/// The state in which a program starts: an empty stack for the given budget
/// in bytes, no definitions and no output.
pub open spec fn initial_machine(stack_size: usize) -> Machine {
    Machine { stack: Seq::empty(), capacity: (stack_size / 2) as nat, words: Map::empty(), out: Seq::empty() }
}

/// Empties the stack and returns the text that records what it held.
pub fn stack_snapshot(stack: &mut Stack) -> (text: Vec<char>)
    ensures
        final(stack).capacity() == old(stack).capacity(),
        final(stack)@ == Seq::<i16>::empty(),
        text@ == snapshot_text(old(stack)@),
{
    let mut values: Vec<i16> = Vec::new();
    while stack.len() > 0
        invariant
            stack.capacity() == old(stack).capacity(),
            stack@.len() + values@.len() == old(stack)@.len(),
            stack@ == old(stack)@.take(stack@.len() as int),
            forall|j: int| 0 <= j < values@.len() ==> values@[j] == old(stack)@[old(stack)@.len() - 1 - j],
        decreases stack@.len(),
    {
        match stack.pop() {
            Some(value) => {
                values.push(value);
            },
            None => {},
        }
    }
    let mut text: Vec<char> = Vec::new();
    let mut i: usize = values.len();
    while i > 0
        invariant
            i <= values@.len(),
            values@.len() == old(stack)@.len(),
            forall|j: int| 0 <= j < values@.len() ==> values@[j] == old(stack)@[old(stack)@.len() - 1 - j],
            text@ == snapshot_text(old(stack)@.take(values@.len() - i)),
        decreases i,
    {
        i -= 1;
        let ghost k = values@.len() - i;
        proof {
            assert(old(stack)@.take(k).drop_last() =~= old(stack)@.take(k - 1));
        }
        push_decimal(&mut text, values[i]);
        text.push(' ');
    }
    assert(old(stack)@.take(values@.len() as int) =~= old(stack)@);
    text
}

/// Runs a program text on a fresh stack with the given memory budget in
/// bytes and an empty dictionary, and reports the result, the output and
/// the final stack.
pub fn execute_program(stack_size: usize, source: String) -> (report: ProgramReport)
    ensures
        report.result == run(initial_machine(stack_size), tokens_of(source@), RECURSION_LIMIT as nat).result,
        report.output@ == run(initial_machine(stack_size), tokens_of(source@), RECURSION_LIMIT as nat).machine.out,
        report.snapshot@ == snapshot_text(
            run(initial_machine(stack_size), tokens_of(source@), RECURSION_LIMIT as nat).machine.stack,
        ),
{
    let mut stack: Stack = Stack::new(stack_size);
    let mut word_map: WordMap = WordMap::new();
    let mut output: Vec<char> = Vec::new();
    let result: Result<(), ForthError> = execute_operation(&mut stack, source, &mut word_map, &mut output);
    let snapshot: Vec<char> = stack_snapshot(&mut stack);
    ProgramReport { result, output, snapshot }
}

/// The text that introduces the stack size among the arguments.
pub open spec fn stack_size_prefix() -> Seq<char> {
    seq!['s', 't', 'a', 'c', 'k', '-', 's', 'i', 'z', 'e', '=']
}

/// The place of the first `=` of a text at or after `from`, or the length of
/// the text if there is none.
pub open spec fn field_end(s: Seq<char>, from: int) -> int
    decreases s.len() - from,
{
    if from >= s.len() {
        s.len() as int
    } else if s[from] == '=' {
        from
    } else {
        field_end(s, from + 1)
    }
}

/// The stack size that an argument asks for: the argument starts with
/// `stack-size=`, and what follows, up to the next `=` if there is one, is
/// an unsigned literal that fits the machine word.
pub open spec fn stack_size_argument(arg: Seq<char>) -> Option<nat> {
    if arg.len() >= 11 && arg.take(11) == stack_size_prefix() {
        unsigned_value(arg.subrange(11, field_end(arg, 11)), usize::MAX as nat)
    } else {
        None
    }
}

/// The stack size that a list of arguments asks for: that of the first
/// argument that asks for one, and the default if none does.
pub open spec fn stack_size_from(args: Seq<String>) -> nat
    decreases args.len(),
{
    if args.len() == 0 {
        DEFAULT_STACK_SIZE as nat
    } else {
        match stack_size_argument(args[0]@) {
            Some(n) => n,
            None => stack_size_from(args.drop_first()),
        }
    }
}

/// Reads the stack size, in bytes, from the command-line arguments.
pub fn parse_stack_size(args: &[String]) -> (size: usize)
    ensures
        size == stack_size_from(args@),
{
    let mut i: usize = 0;
    assert(args@.skip(0) =~= args@);
    while i < args.len()
        invariant
            i <= args@.len(),
            stack_size_from(args@) == stack_size_from(args@.skip(i as int)),
        decreases args@.len() - i,
    {
        let arg: Vec<char> = chars_of(args[i].as_str());
        proof {
            assert(args@.skip(i as int).drop_first() =~= args@.skip(i + 1));
        }
        if arg.len() >= 11 {
            let mut same: bool = true;
            let prefix: [char; 11] = ['s', 't', 'a', 'c', 'k', '-', 's', 'i', 'z', 'e', '='];
            let mut k: usize = 0;
            while k < 11
                invariant
                    k <= 11,
                    arg@.len() >= 11,
                    prefix@ == stack_size_prefix(),
                    same == (forall|j: int| 0 <= j < k ==> arg@[j] == prefix@[j]),
                decreases 11 - k,
            {
                if arg[k] != prefix[k] {
                    same = false;
                }
                k += 1;
            }
            proof {
                if same {
                    assert(arg@.take(11) =~= stack_size_prefix());
                } else {
                    let j = choose|j: int| 0 <= j < 11 && arg@[j] != prefix@[j];
                }
            }
            if same {
                let mut end: usize = 11;
                while end < arg.len() && arg[end] != '='
                    invariant
                        11 <= end <= arg@.len(),
                        field_end(arg@, 11) == field_end(arg@, end as int),
                    decreases arg@.len() - end,
                {
                    end += 1;
                }
                match parse_unsigned(arg.as_slice(), 11, end, usize::MAX as u64) {
                    Some(n) => {
                        return n as usize;
                    },
                    None => {},
                }
            }
        }
        i += 1;
    }
    DEFAULT_STACK_SIZE
}

} // verus!
