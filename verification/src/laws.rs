//! Laws of the interpreter, proved from the model.

use vstd::prelude::*;
use crate::arithmetic_operations::{arithmetic_outcome, arithmetic_value, is_arithmetic, truncated_quotient, wrap16};
use crate::boolean_operations::{boolean_outcome, is_binary_boolean, is_boolean, lemma_boolean_words_distinct, word_not};
use crate::error::ForthError;
use crate::forth_basic_operations::{
    forth_outcome,
    is_stack_word,
    rot_outcome,
    rotated,
    word_drop,
    word_dup,
    word_over,
    word_rot,
    word_swap,
};
use crate::machine::{
    Branches,
    Machine,
    Outcome,
    Step,
    conditional_step,
    enter,
    run,
    scan_branches,
    step,
    word_colon,
    word_else,
    word_if,
    word_then,
};
use crate::output_operations::is_output;
use crate::stack::{lemma_pushed_all_fits, pushed, pushed_all, two_popped};
use crate::text::{all_digits, decimal_text, digits_value, is_digit, literal_value, natural_digits};
use crate::token::{TokenView, drop_tokens, finished, pieces_from, white_space};
use crate::word_definitions::{BodyScan, definition_outcome, expansion, is_terminator, scan_body};

verus! {

/// A value that fits in 16 bits is not changed by wrapping.
pub proof fn law_wrap16_in_range(v: int)
    requires
        i16::MIN <= v <= i16::MAX,
    ensures
        wrap16(v) == v,
{
}

/// Wrapping changes a value by a multiple of 65536.
pub proof fn law_wrap16_congruent(v: int)
    ensures
        (wrap16(v) - v) % 65536 == 0,
{
}

/// The decimal digits of a number are digits, at least one, and denote the
/// number.
pub proof fn lemma_natural_digits(n: nat)
    ensures
        natural_digits(n).len() > 0,
        all_digits(natural_digits(n)),
        digits_value(natural_digits(n)) == n,
    decreases n,
{
    if n < 10 {
        assert(digits_value(natural_digits(n).drop_last()) == 0);
    } else {
        lemma_natural_digits(n / 10);
        let front = natural_digits(n / 10);
        assert(natural_digits(n).drop_last() =~= front);
        assert forall|i: int| 0 <= i < natural_digits(n).len() implies is_digit(#[trigger] natural_digits(n)[i]) by {
        }
    }
}

/// Reading the decimal notation of a 16-bit integer as a literal gives the
/// integer back.
pub proof fn lemma_decimal_round_trip(v: i16)
    ensures
        literal_value(decimal_text(v as int)) == Some(v),
{
    let text = decimal_text(v as int);
    if v < 0 {
        let n = (0 - v) as nat;
        lemma_natural_digits(n);
        assert(text.skip(1) =~= natural_digits(n));
    } else {
        let n = v as nat;
        lemma_natural_digits(n);
    }
}

/// A text that reads as a 16-bit integer starts with a digit, or with a
/// sign that a digit follows.
pub proof fn lemma_literal_shape(w: Seq<char>)
    requires
        literal_value(w).is_some(),
    ensures
        w.len() > 0,
        is_digit(w[0]) || ((w[0] == '+' || w[0] == '-') && w.len() > 1 && is_digit(w[1])),
{
    if w.len() > 0 && (w[0] == '-' || w[0] == '+') {
        assert(w.skip(1)[0] == w[1]);
    }
}

/// A text that reads as a 16-bit integer is none of the words that the
/// engine knows.
pub proof fn lemma_literal_is_no_word(w: Seq<char>)
    requires
        literal_value(w).is_some(),
    ensures
        w != word_colon(),
        w != word_if(),
        !is_arithmetic(w),
        !is_boolean(w),
        !is_stack_word(w),
        !is_output(w),
{
    lemma_literal_shape(w);
    assert(word_dup()[0] == 'D' && word_drop()[0] == 'D' && word_swap()[0] == 'S' && word_over()[0] == 'O'
        && word_rot()[0] == 'R');
}

/// The arithmetic operators are none of the other words that the engine
/// knows.
pub proof fn lemma_arithmetic_is_no_other_word(w: Seq<char>)
    requires
        is_arithmetic(w),
    ensures
        w != word_colon(),
{
    assert(word_colon()[0] == ':');
}

/// A token that reads as a 16-bit integer and names no defined word pushes
/// its value.
pub proof fn lemma_literal_step(m: Machine, t: TokenView, rest: Seq<TokenView>, depth: nat)
    requires
        literal_value(t.upper).is_some(),
        !m.words.contains_key(t.upper),
    ensures
        step(m, t, rest, depth) == (Step {
            machine: Machine { stack: pushed(m.stack, m.capacity, literal_value(t.upper).unwrap()).0, ..m },
            consumed: 0,
            result: pushed(m.stack, m.capacity, literal_value(t.upper).unwrap()).1,
        }),
{
    lemma_literal_is_no_word(t.upper);
}

/// Two integer literals followed by an arithmetic operator: on a stack with
/// room for two more values, and with none of the three tokens defined as a
/// word, the run leaves the value of the operator on the two integers on top
/// of what the stack held, or fails as the operator fails, with both
/// operands consumed. The value wraps around in 16 bits.
pub proof fn law_arithmetic_on_literals(
    m: Machine,
    first: TokenView,
    second: TokenView,
    op: TokenView,
    b: i16,
    a: i16,
    depth: nat,
)
    requires
        m.stack.len() + 2 <= m.capacity,
        literal_value(first.upper) == Some(b),
        literal_value(second.upper) == Some(a),
        is_arithmetic(op.upper),
        !m.words.contains_key(first.upper),
        !m.words.contains_key(second.upper),
        !m.words.contains_key(op.upper),
    ensures
        run(m, seq![first, second, op], depth) == (match arithmetic_value(op.upper, b, a) {
            Ok(v) => Outcome { machine: Machine { stack: m.stack.push(v), ..m }, result: Ok(()) },
            Err(e) => Outcome { machine: m, result: Err(e) },
        }),
{
    let program = seq![first, second, op];
    let m1 = Machine { stack: m.stack.push(b), ..m };
    let m2 = Machine { stack: m.stack.push(b).push(a), ..m };
    lemma_literal_step(m, first, program.drop_first(), depth);
    let after_first = drop_tokens(program.drop_first(), 0);
    lemma_literal_step(m1, second, after_first.drop_first(), depth);
    let after_second = drop_tokens(after_first.drop_first(), 0);
    lemma_arithmetic_is_no_other_word(op.upper);
    let last = step(m2, op, after_second.drop_first(), depth);
    assert(two_popped(m2.stack) =~= m.stack);
    let after_third = drop_tokens(after_second.drop_first(), last.consumed);
    assert(run(m, program, depth) == run(m1, after_first, depth));
    if let Ok(v) = arithmetic_value(op.upper, b, a) {
        let m3 = Machine { stack: m.stack.push(v), ..m };
        assert(run(m2, after_second, depth) == run(m3, after_third, depth));
    }
}

/// The sum, the difference, the product and the quotient rounded towards
/// zero of two 16-bit integers are what the four operators compute, where
/// that number fits in 16 bits.
pub proof fn law_arithmetic_values(b: i16, a: i16)
    ensures
        i16::MIN <= b + a <= i16::MAX ==> arithmetic_value(seq!['+'], b, a) == Ok::<i16, ForthError>((b + a) as i16),
        i16::MIN <= b - a <= i16::MAX ==> arithmetic_value(seq!['-'], b, a) == Ok::<i16, ForthError>((b - a) as i16),
        i16::MIN <= b * a <= i16::MAX ==> arithmetic_value(seq!['*'], b, a) == Ok::<i16, ForthError>((b * a) as i16),
        a != 0 && !(b == i16::MIN && a == -1) ==> arithmetic_value(seq!['/'], b, a) == Ok::<i16, ForthError>(
            truncated_quotient(b as int, a as int) as i16,
        ),
        a != 0 && b >= 0 && a > 0 ==> arithmetic_value(seq!['/'], b, a) == Ok::<i16, ForthError>((b / a) as i16),
{
    assert(seq!['*'][0] != seq!['+'][0] && seq!['*'][0] != seq!['-'][0]);
    if a != 0 && !(b == i16::MIN && a == -1) {
        let nb: int = if b < 0 { 0 - b } else { b as int };
        let na: int = if a < 0 { 0 - a } else { a as int };
        assert(0 <= nb / na <= nb) by (nonlinear_arith)
            requires
                nb >= 0,
                na > 0,
        ;
        if nb == 32768 {
            assert(a == 1 || nb / na <= 16384) by (nonlinear_arith)
                requires
                    nb == 32768,
                    na >= 2 || a == 1,
                    na > 0,
            ;
        }
    }
}

/// Dividing by a literal zero fails with `DivisionByZero`, whatever the
/// dividend, and consumes both operands.
pub proof fn law_division_by_zero(m: Machine, first: TokenView, second: TokenView, op: TokenView, b: i16, depth: nat)
    requires
        m.stack.len() + 2 <= m.capacity,
        literal_value(first.upper) == Some(b),
        literal_value(second.upper) == Some(0i16),
        op.upper == seq!['/'],
        !m.words.contains_key(first.upper),
        !m.words.contains_key(second.upper),
        !m.words.contains_key(op.upper),
    ensures
        run(m, seq![first, second, op], depth) == (Outcome { machine: m, result: Err(ForthError::DivisionByZero) }),
{
    assert(seq!['/'][0] != seq!['+'][0] && seq!['/'][0] != seq!['-'][0] && seq!['/'][0] != seq!['*'][0]);
    law_arithmetic_on_literals(m, first, second, op, b, 0i16, depth);
}

/// Every operator that takes two operands fails with `StackUnderflow` on a
/// stack that holds fewer than two values, and so do `NOT`, `DUP` and `DROP`
/// on an empty stack.
pub proof fn law_underflow(s: Seq<i16>, capacity: nat, op: Seq<char>)
    ensures
        s.len() < 2 && is_arithmetic(op) ==> arithmetic_outcome(s, capacity, op).1 == Err::<(), ForthError>(
            ForthError::StackUnderflow,
        ),
        s.len() < 2 && is_binary_boolean(op) ==> boolean_outcome(s, capacity, op).1 == Err::<(), ForthError>(
            ForthError::StackUnderflow,
        ),
        s.len() < 2 && (op == word_swap() || op == word_over() || op == word_rot()) ==> forth_outcome(
            s,
            capacity,
            op,
        ).1 == Err::<(), ForthError>(ForthError::StackUnderflow),
        s.len() == 0 && op == word_not() ==> boolean_outcome(s, capacity, op).1 == Err::<(), ForthError>(
            ForthError::StackUnderflow,
        ),
        s.len() == 0 && (op == word_dup() || op == word_drop()) ==> forth_outcome(s, capacity, op).1 == Err::<
            (),
            ForthError,
        >(ForthError::StackUnderflow),
{
    lemma_boolean_words_distinct();
    lemma_stack_words_distinct();
}

/// The five stack-manipulation words differ from one another.
pub proof fn lemma_stack_words_distinct()
    ensures
        word_dup() != word_drop(),
        word_dup() != word_swap(),
        word_dup() != word_over(),
        word_dup() != word_rot(),
        word_drop() != word_swap(),
        word_drop() != word_over(),
        word_drop() != word_rot(),
        word_swap() != word_over(),
        word_swap() != word_rot(),
        word_over() != word_rot(),
{
}

/// An operator that takes two operands and is not defined as a word stops
/// the run with `StackUnderflow` when the stack holds fewer than two values.
pub proof fn law_binary_operator_underflow(m: Machine, op: TokenView, rest: Seq<TokenView>, depth: nat)
    requires
        m.stack.len() < 2,
        is_arithmetic(op.upper) || is_binary_boolean(op.upper),
        !m.words.contains_key(op.upper),
    ensures
        run(m, seq![op] + rest, depth).result == Err::<(), ForthError>(ForthError::StackUnderflow),
        run(m, seq![op] + rest, depth).machine == (Machine { stack: Seq::empty(), ..m }),
{
    assert(step(m, op, (seq![op] + rest).drop_first(), depth).result.is_err());
}

/// A token that is written in upper case already.
pub open spec fn plain_token(text: Seq<char>) -> TokenView {
    TokenView { raw: text, upper: text }
}

/// Two integers in decimal notation followed by an arithmetic operator, run
/// on an empty stack with room for two values and with no word defined,
/// leave exactly the value of the operator on the two integers, or fail as
/// the operator fails and leave the stack empty.
pub proof fn law_arithmetic_program(m: Machine, b: i16, a: i16, op: Seq<char>, depth: nat)
    requires
        m.stack.len() == 0,
        m.capacity >= 2,
        m.words == Map::<Seq<char>, Seq<TokenView>>::empty(),
        is_arithmetic(op),
    ensures
        run(
            m,
            seq![plain_token(decimal_text(b as int)), plain_token(decimal_text(a as int)), plain_token(op)],
            depth,
        ) == (match arithmetic_value(op, b, a) {
            Ok(v) => Outcome { machine: Machine { stack: seq![v], ..m }, result: Ok(()) },
            Err(e) => Outcome { machine: m, result: Err(e) },
        }),
{
    lemma_decimal_round_trip(b);
    lemma_decimal_round_trip(a);
    law_arithmetic_on_literals(
        m,
        plain_token(decimal_text(b as int)),
        plain_token(decimal_text(a as int)),
        plain_token(op),
        b,
        a,
        depth,
    );
    if arithmetic_value(op, b, a).is_ok() {
        assert(m.stack.push(arithmetic_value(op, b, a).unwrap()) =~= seq![arithmetic_value(op, b, a).unwrap()]);
    }
}

/// A definition changes the meaning of the word it defines and of no other:
/// bodies stored earlier stay as they were flattened, whatever is defined
/// or redefined later.
pub proof fn law_definition_keeps_other_words(
    words: Map<Seq<char>, Seq<TokenView>>,
    rest: Seq<TokenView>,
    name: Seq<char>,
)
    requires
        rest.len() > 0,
        name != rest[0].upper,
    ensures
        definition_outcome(words, rest).words.contains_key(name) == words.contains_key(name),
        words.contains_key(name) ==> definition_outcome(words, rest).words[name] == words[name],
{
}

/// Pushing a run of values never takes a stack beyond its capacity.
pub proof fn lemma_pushed_all_bounded(s: Seq<i16>, capacity: nat, values: Seq<i16>)
    requires
        s.len() <= capacity,
    ensures
        pushed_all(s, capacity, values).0.len() <= capacity,
    decreases values.len(),
{
    if values.len() > 0 {
        lemma_pushed_all_bounded(s, capacity, values.drop_last());
    }
}

/// Whether a state keeps its stack within the capacity.
pub open spec fn bounded(m: Machine) -> bool {
    m.stack.len() <= m.capacity
}

/// No run changes the capacity, and a run that starts with the stack within
/// the capacity ends with it so.
pub proof fn law_run_keeps_bound(m: Machine, tokens: Seq<TokenView>, depth: nat)
    ensures
        run(m, tokens, depth).machine.capacity == m.capacity,
        bounded(m) ==> bounded(run(m, tokens, depth).machine),
    decreases depth, tokens.len(), 0nat,
{
    if tokens.len() > 0 {
        law_step_keeps_bound(m, tokens[0], tokens.drop_first(), depth);
        let s = step(m, tokens[0], tokens.drop_first(), depth);
        if !s.result.is_err() {
            law_run_keeps_bound(s.machine, drop_tokens(tokens.drop_first(), s.consumed), depth);
        }
    }
}

/// Entering a body or an arm keeps the capacity and the bound.
pub proof fn law_enter_keeps_bound(m: Machine, tokens: Seq<TokenView>, depth: nat)
    ensures
        enter(m, tokens, depth).machine.capacity == m.capacity,
        bounded(m) ==> bounded(enter(m, tokens, depth).machine),
    decreases depth, 0nat, 0nat,
{
    if depth > 0 {
        law_run_keeps_bound(m, tokens, (depth - 1) as nat);
    }
}

/// A single token keeps the capacity and the bound.
pub proof fn law_step_keeps_bound(m: Machine, t: TokenView, rest: Seq<TokenView>, depth: nat)
    ensures
        step(m, t, rest, depth).machine.capacity == m.capacity,
        bounded(m) ==> bounded(step(m, t, rest, depth).machine),
    decreases depth, rest.len(), 2nat,
{
    if t.upper != word_colon() {
        if m.words.contains_key(t.upper) {
            law_enter_keeps_bound(m, m.words[t.upper], depth);
        } else if is_stack_word(t.upper) {
            if m.stack.len() >= 2 {
                lemma_pushed_all_bounded(Seq::empty(), m.capacity, rotated(m.stack));
            }
        } else if t.upper == word_if() {
            law_conditional_keeps_bound(m, rest, depth);
        }
    }
}

/// A conditional keeps the capacity and the bound.
pub proof fn law_conditional_keeps_bound(m: Machine, rest: Seq<TokenView>, depth: nat)
    ensures
        conditional_step(m, rest, depth).machine.capacity == m.capacity,
        bounded(m) ==> bounded(conditional_step(m, rest, depth).machine),
    decreases depth, rest.len(), 1nat,
{
    if m.stack.len() > 0 {
        let popped = Machine { stack: m.stack.drop_last(), ..m };
        let arms = scan_branches(rest, 0, false);
        if arms.found {
            law_enter_keeps_bound(
                popped,
                if m.stack.last() != 0 {
                    arms.true_branch
                } else {
                    arms.false_branch
                },
                depth,
            );
        }
    }
}

/// On a stack within its capacity that holds two values or more, `ROT`
/// succeeds and moves the bottom value to the top.
pub proof fn law_rot_moves_bottom_to_top(s: Seq<i16>, capacity: nat)
    requires
        2 <= s.len() <= capacity,
    ensures
        rot_outcome(s, capacity) == (rotated(s), Ok::<(), ForthError>(())),
{
    lemma_pushed_all_fits(capacity, rotated(s));
}

/// Whether a text holds no white space.
pub open spec fn free_of_white_space(text: Seq<char>) -> bool {
    forall|j: int| 0 <= j < text.len() ==> !white_space(#[trigger] text[j])
}

/// Every piece into which a text is split has at least one character and
/// holds no white space.
pub proof fn law_pieces_are_words(text: Seq<char>, current: Seq<char>)
    requires
        free_of_white_space(current),
    ensures
        forall|k: int|
            0 <= k < pieces_from(text, current).len() ==> (#[trigger] pieces_from(text, current)[k]).len() > 0
                && free_of_white_space(pieces_from(text, current)[k]),
    decreases text.len(),
{
    if text.len() > 0 {
        if white_space(text[0]) {
            law_pieces_are_words(text.drop_first(), Seq::empty());
            assert(pieces_from(text, current) == finished(current) + pieces_from(text.drop_first(), Seq::empty()));
        } else {
            let grown = current.push(text[0]);
            assert(free_of_white_space(grown));
            law_pieces_are_words(text.drop_first(), grown);
            assert(pieces_from(text, current) == pieces_from(text.drop_first(), grown));
        }
    }
}

/// A scan for the arms of a conditional never reads more tokens than there
/// are.
pub proof fn law_scan_branches_consumed(rest: Seq<TokenView>, nesting: nat, in_else: bool)
    ensures
        scan_branches(rest, nesting, in_else).consumed <= rest.len(),
    decreases rest.len(),
{
    if rest.len() > 0 && !(rest[0].upper == word_then() && nesting == 0) {
        if rest[0].upper == word_else() && nesting == 0 {
            law_scan_branches_consumed(rest.drop_first(), nesting, true);
        } else {
            let inner: nat = if rest[0].upper == word_if() {
                nesting + 1
            } else if rest[0].upper == word_then() {
                (nesting - 1) as nat
            } else {
                nesting
            };
            law_scan_branches_consumed(rest.drop_first(), inner, in_else);
        }
    }
}

/// Whether a token is none of the three words of a conditional.
pub open spec fn is_plain(t: TokenView) -> bool {
    t.upper != word_if() && t.upper != word_else() && t.upper != word_then()
}

/// Whether every token of a sequence is none of the three words of a
/// conditional.
pub open spec fn all_plain(tokens: Seq<TokenView>) -> bool {
    forall|i: int| 0 <= i < tokens.len() ==> is_plain(#[trigger] tokens[i])
}

/// Outside any nested conditional, tokens that are none of the three words
/// of a conditional go to the arm that is being read, and the scan goes on
/// behind them.
pub proof fn lemma_scan_plain_prefix(prefix: Seq<TokenView>, rest: Seq<TokenView>, in_else: bool)
    requires
        all_plain(prefix),
    ensures
        scan_branches(prefix + rest, 0, in_else) == (Branches {
            true_branch: if in_else {
                scan_branches(rest, 0, in_else).true_branch
            } else {
                prefix + scan_branches(rest, 0, in_else).true_branch
            },
            false_branch: if in_else {
                prefix + scan_branches(rest, 0, in_else).false_branch
            } else {
                scan_branches(rest, 0, in_else).false_branch
            },
            found: scan_branches(rest, 0, in_else).found,
            consumed: prefix.len() + scan_branches(rest, 0, in_else).consumed,
        }),
    decreases prefix.len(),
{
    let tail = scan_branches(rest, 0, in_else);
    if prefix.len() > 0 {
        assert((prefix + rest).drop_first() =~= prefix.drop_first() + rest);
        assert(all_plain(prefix.drop_first()));
        lemma_scan_plain_prefix(prefix.drop_first(), rest, in_else);
        assert(seq![prefix[0]] + (prefix.drop_first() + tail.true_branch) =~= prefix + tail.true_branch);
        assert(seq![prefix[0]] + (prefix.drop_first() + tail.false_branch) =~= prefix + tail.false_branch);
    }
}

/// A conditional with two arms that hold no conditional of their own: the
/// tokens up to `ELSE` are the first arm, those up to `THEN` the second, and
/// the scan ends right behind the `THEN`.
pub proof fn law_scan_two_arms(
    first: Seq<TokenView>,
    otherwise: TokenView,
    second: Seq<TokenView>,
    end: TokenView,
    rest: Seq<TokenView>,
)
    requires
        all_plain(first),
        all_plain(second),
        otherwise.upper == word_else(),
        end.upper == word_then(),
    ensures
        scan_branches(first + seq![otherwise] + second + seq![end] + rest, 0, false) == (Branches {
            true_branch: first,
            false_branch: second,
            found: true,
            consumed: first.len() + second.len() + 2,
        }),
{
    let closing = seq![end] + rest;
    let behind_else = second + closing;
    let from_else = seq![otherwise] + behind_else;
    assert(first + seq![otherwise] + second + seq![end] + rest =~= first + from_else);
    lemma_scan_plain_prefix(first, from_else, false);
    assert(from_else.drop_first() =~= behind_else);
    assert(word_else() != word_then());
    lemma_scan_plain_prefix(second, closing, true);
}

/// A conditional with one arm that holds no conditional of its own: the
/// tokens up to `THEN` are the first arm, and the second arm is empty.
pub proof fn law_scan_one_arm(first: Seq<TokenView>, end: TokenView, rest: Seq<TokenView>)
    requires
        all_plain(first),
        end.upper == word_then(),
    ensures
        scan_branches(first + seq![end] + rest, 0, false) == (Branches {
            true_branch: first,
            false_branch: Seq::empty(),
            found: true,
            consumed: first.len() + 1,
        }),
{
    let closing = seq![end] + rest;
    assert(first + seq![end] + rest =~= first + closing);
    lemma_scan_plain_prefix(first, closing, false);
}

/// Where no `THEN` follows, the scan reads every token and finds no end.
pub proof fn lemma_scan_without_then(rest: Seq<TokenView>, nesting: nat, in_else: bool)
    requires
        forall|i: int| 0 <= i < rest.len() ==> (#[trigger] rest[i]).upper != word_then(),
    ensures
        !scan_branches(rest, nesting, in_else).found,
        scan_branches(rest, nesting, in_else).consumed == rest.len(),
    decreases rest.len(),
{
    if rest.len() > 0 {
        assert forall|i: int| 0 <= i < rest.drop_first().len() implies (#[trigger] rest.drop_first()[i]).upper
            != word_then() by {
        }
        if rest[0].upper == word_else() && nesting == 0 {
            lemma_scan_without_then(rest.drop_first(), nesting, true);
        } else if rest[0].upper == word_if() {
            lemma_scan_without_then(rest.drop_first(), nesting + 1, in_else);
        } else {
            lemma_scan_without_then(rest.drop_first(), nesting, in_else);
        }
    }
}

/// A conditional that no `THEN` follows fails with `MissingThen`: the
/// condition is popped, every token is read and nothing else happens.
pub proof fn law_missing_then(m: Machine, rest: Seq<TokenView>, depth: nat)
    requires
        m.stack.len() > 0,
        forall|i: int| 0 <= i < rest.len() ==> (#[trigger] rest[i]).upper != word_then(),
    ensures
        conditional_step(m, rest, depth) == (Step {
            machine: Machine { stack: m.stack.drop_last(), ..m },
            consumed: rest.len(),
            result: Err(ForthError::MissingThen),
        }),
{
    lemma_scan_without_then(rest, 0, false);
}

/// A conditional whose arms hold no conditional of their own pops the
/// condition and runs the first arm if the condition is not zero and the
/// second if it is, one level further down; the tokens behind its `THEN`
/// are left for the caller.
pub proof fn law_conditional_selects(
    m: Machine,
    first: Seq<TokenView>,
    otherwise: TokenView,
    second: Seq<TokenView>,
    end: TokenView,
    rest: Seq<TokenView>,
    depth: nat,
)
    requires
        m.stack.len() > 0,
        all_plain(first),
        all_plain(second),
        otherwise.upper == word_else(),
        end.upper == word_then(),
    ensures
        conditional_step(m, first + seq![otherwise] + second + seq![end] + rest, depth) == (Step {
            machine: enter(
                Machine { stack: m.stack.drop_last(), ..m },
                if m.stack.last() != 0 {
                    first
                } else {
                    second
                },
                depth,
            ).machine,
            consumed: first.len() + second.len() + 2,
            result: enter(
                Machine { stack: m.stack.drop_last(), ..m },
                if m.stack.last() != 0 {
                    first
                } else {
                    second
                },
                depth,
            ).result,
        }),
{
    law_scan_two_arms(first, otherwise, second, end, rest);
}

/// The flattened form of a sequence of tokens: each token that names a
/// defined word replaced by that word's body.
pub open spec fn flattened(words: Map<Seq<char>, Seq<TokenView>>, tokens: Seq<TokenView>) -> Seq<TokenView>
    decreases tokens.len(),
{
    if tokens.len() == 0 {
        Seq::empty()
    } else {
        expansion(words, tokens[0]) + flattened(words, tokens.drop_first())
    }
}

/// Tokens of which none names a defined word are their own flattened form.
pub proof fn law_flattened_unknown(words: Map<Seq<char>, Seq<TokenView>>, tokens: Seq<TokenView>)
    requires
        forall|i: int| 0 <= i < tokens.len() ==> !words.contains_key((#[trigger] tokens[i]).upper),
    ensures
        flattened(words, tokens) == tokens,
    decreases tokens.len(),
{
    if tokens.len() > 0 {
        assert forall|i: int| 0 <= i < tokens.drop_first().len() implies !words.contains_key(
            (#[trigger] tokens.drop_first()[i]).upper,
        ) by {
        }
        law_flattened_unknown(words, tokens.drop_first());
    }
}

/// A body that holds no `;` and is closed by one is stored in its flattened
/// form, and the scan ends right behind the `;`.
pub proof fn law_scan_closed_body(
    words: Map<Seq<char>, Seq<TokenView>>,
    body: Seq<TokenView>,
    end: TokenView,
    rest: Seq<TokenView>,
)
    requires
        forall|i: int| 0 <= i < body.len() ==> !is_terminator(#[trigger] body[i]),
        is_terminator(end),
    ensures
        scan_body(words, body + seq![end] + rest) == (BodyScan {
            body: Some(flattened(words, body)),
            consumed: body.len() + 1,
        }),
    decreases body.len(),
{
    if body.len() > 0 {
        assert((body + seq![end] + rest).drop_first() =~= body.drop_first() + seq![end] + rest);
        assert forall|i: int| 0 <= i < body.drop_first().len() implies !is_terminator(
            #[trigger] body.drop_first()[i],
        ) by {
        }
        law_scan_closed_body(words, body.drop_first(), end, rest);
    }
}

/// The definition `: name body ;`, where the name does not read as a 16-bit
/// integer and the body holds no `;`, defines the name as the flattened
/// body and changes nothing else.
pub proof fn law_definition_stores_flattened_body(
    words: Map<Seq<char>, Seq<TokenView>>,
    name: TokenView,
    body: Seq<TokenView>,
    end: TokenView,
    rest: Seq<TokenView>,
)
    requires
        literal_value(name.upper).is_none(),
        forall|i: int| 0 <= i < body.len() ==> !is_terminator(#[trigger] body[i]),
        is_terminator(end),
    ensures
        definition_outcome(words, seq![name] + body + seq![end] + rest).words == words.insert(
            name.upper,
            flattened(words, body),
        ),
        definition_outcome(words, seq![name] + body + seq![end] + rest).consumed == body.len() + 2,
        definition_outcome(words, seq![name] + body + seq![end] + rest).result == Ok::<(), ForthError>(()),
{
    let whole = seq![name] + body + seq![end] + rest;
    assert(whole.drop_first() =~= body + seq![end] + rest);
    law_scan_closed_body(words, body, end, rest);
}

} // verus!
