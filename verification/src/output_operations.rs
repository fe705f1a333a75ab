//! The output words `CR`, `.`, `EMIT` and `."`. Output is appended to a
//! buffer of characters, which the caller sends wherever it belongs.

use vstd::prelude::*;
use crate::error::ForthError;
use crate::stack::Stack;
use crate::text::{append_text, chars_of, decimal_text, push_decimal, text_is};
use crate::token::{TokenCursor, TokenView, drop_tokens};

verus! {

/// The word `CR`.
pub open spec fn word_cr() -> Seq<char> {
    seq!['C', 'R']
}

/// The word `EMIT`.
pub open spec fn word_emit() -> Seq<char> {
    seq!['E', 'M', 'I', 'T']
}

/// The word `.`.
pub open spec fn word_dot() -> Seq<char> {
    seq!['.']
}

/// The word `."`, which opens a string literal.
pub open spec fn word_quote() -> Seq<char> {
    seq!['.', '"']
}

/// Whether a word is one of the four output words.
pub open spec fn is_output(op: Seq<char>) -> bool {
    op == word_cr() || op == word_emit() || op == word_dot() || op == word_quote()
}

/// The four output words differ from one another.
pub proof fn lemma_output_words_distinct()
    ensures
        word_cr() != word_emit(),
        word_cr() != word_dot(),
        word_cr() != word_quote(),
        word_emit() != word_dot(),
        word_emit() != word_quote(),
        word_dot() != word_quote(),
{
    assert(word_dot().len() == 1);
}

/// The character that `EMIT` prints for a value: the one whose code is the
/// low byte of the value.
pub open spec fn emitted_char(v: i16) -> char {
    ((v as int) % 256) as u8 as char
}

/// Whether a piece of text closes a string literal.
pub open spec fn ends_with_quote(s: Seq<char>) -> bool {
    s.len() > 0 && s.last() == '"'
}

/// A text without the double quotes at its end.
pub open spec fn trim_quotes(s: Seq<char>) -> Seq<char>
    decreases s.len(),
{
    if ends_with_quote(s) {
        trim_quotes(s.drop_last())
    } else {
        s
    }
}

/// The result of reading a string literal: its text, if the closing quote
/// was found, and the number of tokens read.
pub struct QuoteScan {
    pub text: Option<Seq<char>>,
    pub consumed: nat,
}

/// Reads tokens up to the first that ends with a double quote. The text of
/// the literal is the tokens as written, joined by single spaces, with the
/// quotes at the end of the last one removed.
pub open spec fn scan_quote(rest: Seq<TokenView>) -> QuoteScan
    decreases rest.len(),
{
    if rest.len() == 0 {
        QuoteScan { text: None, consumed: 0 }
    } else if ends_with_quote(rest[0].raw) {
        QuoteScan { text: Some(trim_quotes(rest[0].raw)), consumed: 1 }
    } else {
        let tail = scan_quote(rest.drop_first());
        QuoteScan {
            text: match tail.text {
                Some(t) => Some(rest[0].raw + seq![' '] + t),
                None => None,
            },
            consumed: tail.consumed + 1,
        }
    }
}

/// A scan never reads more tokens than there are.
pub proof fn lemma_scan_quote_consumed(rest: Seq<TokenView>)
    ensures
        scan_quote(rest).consumed <= rest.len(),
    decreases rest.len(),
{
    if rest.len() > 0 && !ends_with_quote(rest[0].raw) {
        lemma_scan_quote_consumed(rest.drop_first());
    }
}

/// What an output word leaves behind: the stack, the output, the number of
/// tokens read after the word, and whether it succeeded.
pub struct OutputStep {
    pub stack: Seq<i16>,
    pub out: Seq<char>,
    pub consumed: nat,
    pub result: Result<(), ForthError>,
}

/// What an output word does. `CR` prints a line feed; `.` pops a value and
/// prints it in decimal; `EMIT` pops a value and prints it as a character;
/// `."` prints the string literal that follows. A word that fails prints
/// nothing, and any other word fails with `UnknownToken`.
pub open spec fn output_outcome(s: Seq<i16>, out: Seq<char>, rest: Seq<TokenView>, op: Seq<char>) -> OutputStep {
    if op == word_cr() {
        OutputStep { stack: s, out: out.push('\n'), consumed: 0, result: Ok(()) }
    } else if op == word_emit() {
        if s.len() == 0 {
            OutputStep { stack: s, out, consumed: 0, result: Err(ForthError::StackUnderflow) }
        } else {
            OutputStep { stack: s.drop_last(), out: out.push(emitted_char(s.last())), consumed: 0, result: Ok(()) }
        }
    } else if op == word_dot() {
        if s.len() == 0 {
            OutputStep { stack: s, out, consumed: 0, result: Err(ForthError::StackUnderflow) }
        } else {
            OutputStep { stack: s.drop_last(), out: out + decimal_text(s.last() as int), consumed: 0, result: Ok(()) }
        }
    } else if op == word_quote() {
        let scan = scan_quote(rest);
        match scan.text {
            Some(t) => OutputStep { stack: s, out: out + t, consumed: scan.consumed, result: Ok(()) },
            None => OutputStep { stack: s, out, consumed: scan.consumed, result: Err(ForthError::UnterminatedString) },
        }
    } else {
        OutputStep { stack: s, out, consumed: 0, result: Err(ForthError::UnknownToken) }
    }
}

/// Pops the top value and prints it in decimal.
pub fn point(stack: &mut Stack, out: &mut Vec<char>) -> (res: Result<(), ForthError>)
    ensures
        final(stack).capacity() == old(stack).capacity(),
        output_outcome(old(stack)@, old(out)@, Seq::empty(), word_dot()) == (OutputStep {
            stack: final(stack)@,
            out: final(out)@,
            consumed: 0,
            result: res,
        }),
{
    proof {
        lemma_output_words_distinct();
    }
    match stack.pop_value() {
        Ok(value) => {
            push_decimal(out, value);
            Ok(())
        },
        Err(e) => Err(e),
    }
}

/// Pops the top value and prints the character whose code is its low byte.
pub fn emit(stack: &mut Stack, out: &mut Vec<char>) -> (res: Result<(), ForthError>)
    ensures
        final(stack).capacity() == old(stack).capacity(),
        output_outcome(old(stack)@, old(out)@, Seq::empty(), word_emit()) == (OutputStep {
            stack: final(stack)@,
            out: final(out)@,
            consumed: 0,
            result: res,
        }),
{
    proof {
        lemma_output_words_distinct();
    }
    match stack.pop_value() {
        Ok(value) => {
            let byte: u8 = ((value as i32 + 32768) as u32 % 256) as u8;
            out.push(byte as char);
            Ok(())
        },
        Err(e) => Err(e),
    }
}

/// Prints the string literal that follows `."`: the tokens up to the first
/// that ends with a double quote, joined by single spaces.
pub fn print_string(tokens: &mut TokenCursor, out: &mut Vec<char>) -> (res: Result<(), ForthError>)
    ensures
        match scan_quote(old(tokens).remaining()).text {
            Some(t) => res == Ok::<(), ForthError>(()) && final(out)@ == old(out)@ + t,
            None => res == Err::<(), ForthError>(ForthError::UnterminatedString) && final(out)@ == old(out)@,
        },
        final(tokens).remaining() == drop_tokens(old(tokens).remaining(), scan_quote(old(tokens).remaining()).consumed),
{
    let ghost start = tokens.remaining();
    let ghost whole = scan_quote(start);
    let ghost mut read: nat = 0;
    let mut text: Vec<char> = Vec::new();
    loop
        invariant
            start == old(tokens).remaining(),
            whole == scan_quote(start),
            out@ == old(out)@,
            read <= start.len(),
            tokens.remaining() == start.skip(read as int),
            whole.consumed == read + scan_quote(tokens.remaining()).consumed,
            whole.text == (match scan_quote(tokens.remaining()).text {
                Some(t) => Some(text@ + t),
                None => None,
            }),
        decreases tokens.remaining().len(),
    {
        let ghost before = text@;
        match tokens.next() {
            Some(t) => {
                proof {
                    read = read + 1;
                }
                let mut n: usize = t.raw.len();
                if n > 0 && t.raw[n - 1] == '"' {
                    assert(t.raw@.take(n as int) =~= t.raw@);
                    while n > 0 && t.raw[n - 1] == '"'
                        invariant
                            n <= t.raw@.len(),
                            trim_quotes(t.raw@) == trim_quotes(t.raw@.take(n as int)),
                        decreases n,
                    {
                        assert(t.raw@.take(n as int).drop_last() =~= t.raw@.take(n - 1));
                        n -= 1;
                    }
                    let mut i: usize = 0;
                    while i < n
                        invariant
                            i <= n <= t.raw@.len(),
                            text@ == before + t.raw@.take(i as int),
                        decreases n - i,
                    {
                        text.push(t.raw[i]);
                        i += 1;
                    }
                    append_text(out, text.as_slice());
                    return Ok(());
                }
                append_text(&mut text, t.raw.as_slice());
                text.push(' ');
                assert(whole.consumed == read + scan_quote(tokens.remaining()).consumed);
            },
            None => {
                return Err(ForthError::UnterminatedString);
            },
        }
    }
}

/// Whether a word is one of the four output words.
pub fn is_output_word(op: &[char]) -> (yes: bool)
    ensures
        yes == is_output(op@),
{
    proof {
        assert(['.']@ =~= word_dot());
    }
    text_is(op, &['C', 'R']) || text_is(op, &['E', 'M', 'I', 'T']) || text_is(op, &['.']) || text_is(op, &['.', '"'])
}

/// Applies the output word named by `operator`. The string literal word
/// reads the tokens of its literal from the cursor.
pub fn apply_output_operation(
    stack: &mut Stack,
    operator: &str,
    tokens: &mut TokenCursor,
    out: &mut Vec<char>,
) -> (res: Result<(), ForthError>)
    ensures
        final(stack).capacity() == old(stack).capacity(),
        output_outcome(old(stack)@, old(out)@, old(tokens).remaining(), operator@) == (OutputStep {
            stack: final(stack)@,
            out: final(out)@,
            consumed: output_outcome(old(stack)@, old(out)@, old(tokens).remaining(), operator@).consumed,
            result: res,
        }),
        final(tokens).remaining() == drop_tokens(
            old(tokens).remaining(),
            output_outcome(old(stack)@, old(out)@, old(tokens).remaining(), operator@).consumed,
        ),
{
    let op: Vec<char> = chars_of(operator);
    apply_output_word(stack, op.as_slice(), tokens, out)
}

/// Applies the output word `op`.
pub fn apply_output_word(
    stack: &mut Stack,
    op: &[char],
    tokens: &mut TokenCursor,
    out: &mut Vec<char>,
) -> (res: Result<(), ForthError>)
    ensures
        final(stack).capacity() == old(stack).capacity(),
        output_outcome(old(stack)@, old(out)@, old(tokens).remaining(), op@) == (OutputStep {
            stack: final(stack)@,
            out: final(out)@,
            consumed: output_outcome(old(stack)@, old(out)@, old(tokens).remaining(), op@).consumed,
            result: res,
        }),
        final(tokens).remaining() == drop_tokens(
            old(tokens).remaining(),
            output_outcome(old(stack)@, old(out)@, old(tokens).remaining(), op@).consumed,
        ),
{
    proof {
        assert(['.']@ =~= word_dot());
        lemma_output_words_distinct();
        lemma_scan_quote_consumed(old(tokens).remaining());
    }
    if text_is(op, &['C', 'R']) {
        out.push('\n');
        Ok(())
    } else if text_is(op, &['E', 'M', 'I', 'T']) {
        emit(stack, out)
    } else if text_is(op, &['.']) {
        point(stack, out)
    } else if text_is(op, &['.', '"']) {
        print_string(tokens, out)
    } else {
        Err(ForthError::UnknownToken)
    }
}

} // verus!
